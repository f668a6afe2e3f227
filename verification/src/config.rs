//! Network configuration.

use vstd::prelude::*;
use vstd::string::*;

use crate::decimal::{
    all_digits, decimal_digits, decimal_value, is_digit, law_decimal_round_trip,
    lemma_decimal_prefix, lemma_decimal_push, ZERO,
};

verus! {

/// The separator of the parts of an address.
pub const DOT: u8 = 0x2e;

/// Length of the subnet prefix.
pub const SUBNET_PREFIX: u8 = 24;

/// An IPv4 address.
#[derive(Clone, Copy)]
pub struct Ipv4Address([u8; 4]);

impl View for Ipv4Address {
    type V = Seq<u8>;

    closed spec fn view(&self) -> Seq<u8> {
        self.0@
    }
}

impl Ipv4Address {
    /// The address with these octets.
    pub fn new(octets: [u8; 4]) -> (address: Self)
        ensures
            address@ == octets@,
    {
        Ipv4Address(octets)
    }

    /// The octets, most significant first.
    pub fn octets(self) -> (octets: [u8; 4])
        ensures
            octets@ == self@,
    {
        self.0
    }
}

/// What a station needs to join a network.
#[derive(Clone, Copy)]
pub struct WifiCredentials {
    ssid: &'static str,
    password: &'static str,
}

impl WifiCredentials {
    /// Name of the network.
    pub closed spec fn name(&self) -> Seq<char> {
        self.ssid@
    }

    /// Password of the network.
    pub closed spec fn secret(&self) -> Seq<char> {
        self.password@
    }

    /// Credentials for the network of this name.
    pub fn new(ssid: &'static str, password: &'static str) -> (credentials: Self)
        ensures
            credentials.name() == ssid@,
            credentials.secret() == password@,
    {
        WifiCredentials { ssid, password }
    }

    /// Name of the network.
    pub fn ssid(self) -> (ssid: &'static str)
        ensures
            ssid@ == self.name(),
    {
        self.ssid
    }

    /// Password of the network.
    pub fn password(self) -> (password: &'static str)
        ensures
            password@ == self.secret(),
    {
        self.password
    }
}

/// How the device takes part in its network.
#[derive(Clone, Copy)]
pub struct NetworkConfig {
    credentials: WifiCredentials,
    address: Ipv4Address,
    gateway: Ipv4Address,
    subnet_prefix: u8,
}

impl NetworkConfig {
    /// Credentials of the network.
    pub closed spec fn joins_with(&self) -> WifiCredentials {
        self.credentials
    }

    /// Octets of the device's own address.
    pub closed spec fn own_address(&self) -> Seq<u8> {
        self.address@
    }

    /// Octets of the gateway's address.
    pub closed spec fn gateway_address(&self) -> Seq<u8> {
        self.gateway@
    }

    /// Length of the subnet prefix.
    pub closed spec fn prefix(&self) -> u8 {
        self.subnet_prefix
    }

    /// A configuration with the fixed subnet prefix.
    pub fn new(
        credentials: WifiCredentials,
        address: Ipv4Address,
        gateway: Ipv4Address,
    ) -> (config: Self)
        ensures
            config.joins_with() == credentials,
            config.own_address() == address@,
            config.gateway_address() == gateway@,
            config.prefix() == SUBNET_PREFIX,
    {
        NetworkConfig { credentials, address, gateway, subnet_prefix: SUBNET_PREFIX }
    }

    /// Reads a configuration from text. A faulty device address is reported
    /// before a faulty gateway address.
    pub fn from_text(
        ssid: &'static str,
        password: &'static str,
        address: &str,
        gateway: &str,
    ) -> (config: Result<Self, Ipv4Error>)
        ensures
            match config {
                Ok(config) => {
                    &&& config.joins_with().name() == ssid@
                    &&& config.joins_with().secret() == password@
                    &&& is_dotted_quad(address.spec_bytes())
                    &&& is_dotted_quad(gateway.spec_bytes())
                    &&& config.own_address() == quad_of(address.spec_bytes())
                    &&& config.gateway_address() == quad_of(gateway.spec_bytes())
                    &&& config.prefix() == SUBNET_PREFIX
                },
                Err(error) => Some(error) == (if first_fault(address.spec_bytes()) is Some {
                    first_fault(address.spec_bytes())
                } else {
                    first_fault(gateway.spec_bytes())
                }),
            },
    {
        let address = match check_ipv4(address) {
            Ok(octets) => Ipv4Address::new(octets),
            Err(error) => {
                return Err(error);
            },
        };
        let gateway = match check_ipv4(gateway) {
            Ok(octets) => Ipv4Address::new(octets),
            Err(error) => {
                return Err(error);
            },
        };
        Ok(NetworkConfig::new(WifiCredentials::new(ssid, password), address, gateway))
    }

    /// Credentials of the network.
    pub fn credentials(self) -> (credentials: WifiCredentials)
        ensures
            credentials == self.joins_with(),
    {
        self.credentials
    }

    /// The device's own address.
    pub fn address(self) -> (address: Ipv4Address)
        ensures
            address@ == self.own_address(),
    {
        self.address
    }

    /// The gateway's address.
    pub fn gateway(self) -> (gateway: Ipv4Address)
        ensures
            gateway@ == self.gateway_address(),
    {
        self.gateway
    }

    /// Length of the subnet prefix.
    pub fn subnet_prefix(self) -> (prefix: u8)
        ensures
            prefix == self.prefix(),
    {
        self.subnet_prefix
    }
}

/// Why a text is not an address.
#[derive(Debug, Clone, Copy, PartialEq, Eq, Structural)]
pub enum Ipv4Error {
    MissingDigitBeforeDot,
    TooManyOctets,
    OctetTooLarge,
    InvalidCharacter,
    MissingFinalDigit,
    NotFourOctets,
}

/// The parts of a text that dots separate.
pub open spec fn fields(text: Seq<u8>) -> Seq<Seq<u8>>
    decreases text.len(),
{
    if text.len() == 0 {
        seq![Seq::<u8>::empty()]
    } else {
        let before = fields(text.drop_last());
        if text.last() == DOT {
            before.push(Seq::empty())
        } else {
            before.drop_last().push(before.last().push(text.last()))
        }
    }
}

/// A part that stands for an octet: digits, at least one, of a value up to 255.
pub open spec fn is_octet(field: Seq<u8>) -> bool {
    &&& field.len() > 0
    &&& all_digits(field)
    &&& decimal_value(field) <= 255
}

/// A text that is an address: four octets separated by dots.
pub open spec fn is_dotted_quad(text: Seq<u8>) -> bool {
    &&& fields(text).len() == 4
    &&& forall|k: int| 0 <= k < 4 ==> is_octet(#[trigger] fields(text)[k])
}

/// The octets of an address.
pub open spec fn quad_of(text: Seq<u8>) -> Seq<u8> {
    Seq::new(4, |k: int| decimal_value(fields(text)[k]) as u8)
}

/// What is wrong with the byte that follows the faultless text `before`.
pub open spec fn byte_fault(before: Seq<u8>, byte: u8) -> Option<Ipv4Error> {
    let field = fields(before).last();
    if byte == DOT {
        if field.len() == 0 {
            Some(Ipv4Error::MissingDigitBeforeDot)
        } else if fields(before).len() > 3 {
            Some(Ipv4Error::TooManyOctets)
        } else {
            None
        }
    } else if is_digit(byte) {
        if decimal_value(field.push(byte)) > 255 {
            Some(Ipv4Error::OctetTooLarge)
        } else {
            None
        }
    } else {
        Some(Ipv4Error::InvalidCharacter)
    }
}

/// What is wrong with the end of a text that is faultless up to there.
pub open spec fn end_fault(text: Seq<u8>) -> Option<Ipv4Error> {
    if fields(text).last().len() == 0 {
        Some(Ipv4Error::MissingFinalDigit)
    } else if fields(text).len() != 4 {
        Some(Ipv4Error::NotFourOctets)
    } else {
        None
    }
}

/// The first fault among the bytes of a text.
pub open spec fn first_byte_fault(text: Seq<u8>) -> Option<Ipv4Error>
    decreases text.len(),
{
    if text.len() == 0 {
        None
    } else {
        match first_byte_fault(text.drop_last()) {
            Some(error) => Some(error),
            None => byte_fault(text.drop_last(), text.last()),
        }
    }
}

/// The first fault of a text, if it has one.
pub open spec fn first_fault(text: Seq<u8>) -> Option<Ipv4Error> {
    match first_byte_fault(text) {
        Some(error) => Some(error),
        None => end_fault(text),
    }
}

/// A byte fault lasts, whatever follows.
proof fn lemma_fault_lasts(text: Seq<u8>, count: int)
    requires
        0 <= count <= text.len(),
        first_byte_fault(text.take(count)) is Some,
    ensures
        first_byte_fault(text) == first_byte_fault(text.take(count)),
    decreases text.len(),
{
    if count == text.len() {
        assert(text.take(count) =~= text);
    } else {
        assert(text.drop_last().take(count) =~= text.take(count));
        lemma_fault_lasts(text.drop_last(), count);
    }
}

/// Of a text without byte faults, all parts but the last are octets, the last
/// one can become one, and there are at most four.
proof fn lemma_faultless(text: Seq<u8>)
    requires
        first_byte_fault(text) is None,
    ensures
        1 <= fields(text).len() <= 4,
        forall|k: int| 0 <= k < fields(text).len() - 1 ==> is_octet(#[trigger] fields(text)[k]),
        all_digits(fields(text).last()),
        0 <= decimal_value(fields(text).last()) <= 255,
    decreases text.len(),
{
    if text.len() > 0 {
        let shorter = text.drop_last();
        lemma_faultless(shorter);
        let field = fields(shorter).last();
        lemma_decimal_push(field, text.last());
    }
}

/// Parts without faults come from a text without byte faults.
proof fn lemma_octets_are_faultless(text: Seq<u8>)
    requires
        fields(text).len() <= 4,
        forall|k: int| 0 <= k < fields(text).len() - 1 ==> is_octet(#[trigger] fields(text)[k]),
        all_digits(fields(text).last()),
        decimal_value(fields(text).last()) <= 255,
    ensures
        first_byte_fault(text) is None,
        fields(text).len() >= 1,
    decreases text.len(),
{
    if text.len() > 0 {
        let shorter = text.drop_last();
        lemma_fields_exist(shorter);
        let before = fields(shorter);
        let after = fields(text);
        if text.last() == DOT {
            assert(after.drop_last() =~= before);
            assert(is_octet(after[after.len() - 2]));
            assert(before.last() == after[after.len() - 2]);
            assert forall|k: int| 0 <= k < before.len() - 1 implies is_octet(
                #[trigger] before[k],
            ) by {
                assert(after[k] == before[k]);
            }
            lemma_octets_are_faultless(shorter);
        } else {
            let field = before.last();
            let longer = after.last();
            assert(longer == field.push(text.last()));
            assert(longer.take(field.len() as int) =~= field);
            lemma_decimal_prefix(longer, field.len() as int);
            assert(all_digits(field)) by {
                assert forall|i: int| 0 <= i < field.len() implies is_digit(
                    #[trigger] field[i],
                ) by {
                    assert(longer[i] == field[i]);
                }
            }
            assert(is_digit(longer[longer.len() - 1]));
            assert forall|k: int| 0 <= k < before.len() - 1 implies is_octet(
                #[trigger] before[k],
            ) by {
                assert(after[k] == before[k]);
            }
            lemma_octets_are_faultless(shorter);
        }
    }
}

/// Every text has a part.
proof fn lemma_fields_exist(text: Seq<u8>)
    ensures
        fields(text).len() >= 1,
    decreases text.len(),
{
    if text.len() > 0 {
        lemma_fields_exist(text.drop_last());
    }
}

/// A text has no fault exactly when it is four octets separated by dots.
pub proof fn law_faultless_means_address(text: Seq<u8>)
    ensures
        first_fault(text) is None <==> is_dotted_quad(text),
{
    if first_fault(text) is None {
        lemma_faultless(text);
    }
    if is_dotted_quad(text) {
        assert(is_octet(fields(text)[3]));
        lemma_octets_are_faultless(text);
    }
}

/// Reads an address. The first fault of a text that is none is reported.
pub fn check_ipv4(input: &str) -> (outcome: Result<[u8; 4], Ipv4Error>)
    ensures
        match outcome {
            Ok(octets) => {
                &&& first_fault(input.spec_bytes()) is None
                &&& is_dotted_quad(input.spec_bytes())
                &&& octets@ == quad_of(input.spec_bytes())
            },
            Err(error) => {
                &&& first_fault(input.spec_bytes()) == Some(error)
                &&& !is_dotted_quad(input.spec_bytes())
            },
        },
{
    let bytes = input.as_bytes();
    let ghost text = bytes@;
    let mut output: [u8; 4] = [0; 4];
    let mut octet_index: usize = 0;
    let mut value: u16 = 0;
    let mut has_digit: bool = false;
    let mut index: usize = 0;
    let total: usize = bytes.len();
    proof {
        law_faultless_means_address(text);
        assert(text.take(0) =~= Seq::<u8>::empty());
    }
    while index < total
        invariant
            index <= total == bytes@.len(),
            text == bytes@,
            text == input.spec_bytes(),
            first_fault(text) is None <==> is_dotted_quad(text),
            first_byte_fault(text.take(index as int)) is None,
            octet_index == fields(text.take(index as int)).len() - 1,
            octet_index <= 3,
            has_digit == (fields(text.take(index as int)).last().len() > 0),
            value == decimal_value(fields(text.take(index as int)).last()),
            value <= 255,
            forall|k: int|
                0 <= k < octet_index ==> #[trigger] output@[k] == decimal_value(
                    fields(text.take(index as int))[k],
                ),
        decreases total - index,
    {
        let byte: u8 = bytes[index];
        let ghost before = text.take(index as int);
        proof {
            let longer = text.take(index + 1);
            assert(longer.drop_last() =~= before);
            assert(longer.last() == byte);
            lemma_decimal_push(fields(before).last(), byte);
            if byte_fault(before, byte) is Some {
                lemma_fault_lasts(text, index + 1);
            }
        }
        if byte == DOT {
            if !has_digit {
                return Err(Ipv4Error::MissingDigitBeforeDot);
            }
            if octet_index >= 3 {
                return Err(Ipv4Error::TooManyOctets);
            }
            output[octet_index] = value as u8;
            octet_index = octet_index + 1;
            value = 0;
            has_digit = false;
        } else if byte >= 0x30 && byte <= 0x39 {
            has_digit = true;
            value = value * 10 + (byte - ZERO) as u16;
            if value > 255 {
                return Err(Ipv4Error::OctetTooLarge);
            }
        } else {
            return Err(Ipv4Error::InvalidCharacter);
        }
        index = index + 1;
    }
    assert(text.take(index as int) =~= text);
    if !has_digit {
        return Err(Ipv4Error::MissingFinalDigit);
    }
    if octet_index != 3 {
        return Err(Ipv4Error::NotFourOctets);
    }
    output[octet_index] = value as u8;
    assert(output@ =~= quad_of(text));
    Ok(output)
}

/// Reads a text that is an address.
pub fn parse_ipv4(input: &str) -> (octets: [u8; 4])
    requires
        is_dotted_quad(input.spec_bytes()),
    ensures
        octets@ == quad_of(input.spec_bytes()),
{
    match check_ipv4(input) {
        Ok(octets) => octets,
        Err(_) => [0; 4],
    }
}

/// The text of an address.
pub open spec fn written(octets: Seq<u8>) -> Seq<u8> {
    decimal_digits(octets[0] as nat).push(DOT) + decimal_digits(octets[1] as nat).push(DOT)
        + decimal_digits(octets[2] as nat).push(DOT) + decimal_digits(octets[3] as nat)
}

/// Digits lengthen the last part.
proof fn lemma_fields_of_digits(text: Seq<u8>, digits: Seq<u8>)
    requires
        all_digits(digits),
    ensures
        fields(text + digits) == fields(text).drop_last().push(fields(text).last() + digits),
    decreases digits.len(),
{
    lemma_fields_exist(text);
    let before = fields(text);
    if digits.len() == 0 {
        assert(text + digits =~= text);
        assert(before.last() + digits =~= before.last());
        assert(before.drop_last().push(before.last()) =~= before);
    } else {
        let shorter = digits.drop_last();
        assert(all_digits(shorter)) by {
            assert forall|i: int| 0 <= i < shorter.len() implies is_digit(
                #[trigger] shorter[i],
            ) by {
                assert(shorter[i] == digits[i]);
            }
        }
        lemma_fields_of_digits(text, shorter);
        assert((text + digits).drop_last() =~= text + shorter);
        assert(is_digit(digits[digits.len() - 1]));
        assert((before.last() + shorter).push(digits.last()) =~= before.last() + digits);
        let middle = before.drop_last().push(before.last() + shorter);
        assert(middle.drop_last() =~= before.drop_last());
    }
}

/// A dot starts a new part.
proof fn lemma_fields_of_dot(text: Seq<u8>)
    ensures
        fields(text.push(DOT)) == fields(text).push(Seq::empty()),
{
    assert(text.push(DOT).drop_last() =~= text);
}

/// Every address is read back from its text.
pub proof fn law_written_address_is_read_back(octets: Seq<u8>)
    requires
        octets.len() == 4,
    ensures
        is_dotted_quad(written(octets)),
        first_fault(written(octets)) is None,
        quad_of(written(octets)) == octets,
{
    let d0 = decimal_digits(octets[0] as nat);
    let d1 = decimal_digits(octets[1] as nat);
    let d2 = decimal_digits(octets[2] as nat);
    let d3 = decimal_digits(octets[3] as nat);
    law_decimal_round_trip(octets[0] as nat);
    law_decimal_round_trip(octets[1] as nat);
    law_decimal_round_trip(octets[2] as nat);
    law_decimal_round_trip(octets[3] as nat);
    let none = Seq::<u8>::empty();
    lemma_fields_of_digits(none, d0);
    assert(none + d0 =~= d0);
    assert(fields(d0) =~= seq![d0]);
    let t0 = d0.push(DOT);
    lemma_fields_of_dot(d0);
    assert(fields(t0) =~= seq![d0, none]);
    lemma_fields_of_digits(t0, d1);
    assert(none + d1 =~= d1);
    assert(fields(t0 + d1) =~= seq![d0, d1]);
    let t1 = (t0 + d1).push(DOT);
    lemma_fields_of_dot(t0 + d1);
    assert(fields(t1) =~= seq![d0, d1, none]);
    lemma_fields_of_digits(t1, d2);
    assert(none + d2 =~= d2);
    assert(fields(t1 + d2) =~= seq![d0, d1, d2]);
    let t2 = (t1 + d2).push(DOT);
    lemma_fields_of_dot(t1 + d2);
    assert(fields(t2) =~= seq![d0, d1, d2, none]);
    lemma_fields_of_digits(t2, d3);
    assert(none + d3 =~= d3);
    assert(fields(t2 + d3) =~= seq![d0, d1, d2, d3]);
    assert(written(octets) =~= t2 + d3);
    assert(quad_of(written(octets)) =~= octets);
    law_faultless_means_address(written(octets));
}

/// Dots separate the parts of a text. An empty text has one empty part; a dot
/// adds an empty part, and any other byte goes to the end of the last part.
pub proof fn law_dots_separate_parts(text: Seq<u8>, byte: u8)
    ensures
        fields(Seq::<u8>::empty()) == seq![Seq::<u8>::empty()],
        fields(text).len() >= 1,
        byte == 0x2e ==> fields(text.push(byte)) == fields(text).push(Seq::empty()),
        byte != 0x2e ==> {
            let before = fields(text);
            let after = fields(text.push(byte));
            &&& after.len() == before.len()
            &&& after.drop_last() == before.drop_last()
            &&& after.last() == before.last().push(byte)
        },
{
    lemma_fields_exist(text);
    assert(text.push(byte).drop_last() =~= text);
    assert(fields(Seq::<u8>::empty()) =~= seq![Seq::<u8>::empty()]);
    if byte != 0x2e {
        assert(fields(text.push(byte)).drop_last() =~= fields(text).drop_last());
    }
}

/// The fault of the byte that follows a text without one: a dot must follow a
/// digit and must not be the fourth, a digit must not make its part exceed 255,
/// and no other byte is allowed. A text with a fault keeps it.
pub proof fn law_faults_are_found_byte_by_byte(text: Seq<u8>, byte: u8)
    ensures
        first_byte_fault(Seq::<u8>::empty()) is None,
        first_byte_fault(text) is Some ==> first_byte_fault(text.push(byte)) == first_byte_fault(
            text,
        ),
        first_byte_fault(text) is None ==> {
            let parts = fields(text);
            let value = decimal_value(parts.last());
            let fault = first_byte_fault(text.push(byte));
            if byte == 0x2e {
                if parts.last().len() == 0 {
                    fault == Some(Ipv4Error::MissingDigitBeforeDot)
                } else if parts.len() == 4 {
                    fault == Some(Ipv4Error::TooManyOctets)
                } else {
                    fault is None
                }
            } else if 48 <= byte <= 57 {
                if 10 * value + (byte - 48) > 255 {
                    fault == Some(Ipv4Error::OctetTooLarge)
                } else {
                    fault is None
                }
            } else {
                fault == Some(Ipv4Error::InvalidCharacter)
            }
        },
{
    assert(text.push(byte).drop_last() =~= text);
    if first_byte_fault(text) is None {
        lemma_faultless(text);
        lemma_decimal_push(fields(text).last(), byte);
    }
}

/// The fault of a whole text is the first among its bytes. Without one, it must
/// end with a digit and then have four parts.
pub proof fn law_end_is_judged_last(text: Seq<u8>)
    ensures
        first_byte_fault(text) is Some ==> first_fault(text) == first_byte_fault(text),
        first_byte_fault(text) is None ==> {
            if fields(text).last().len() == 0 {
                first_fault(text) == Some(Ipv4Error::MissingFinalDigit)
            } else if fields(text).len() != 4 {
                first_fault(text) == Some(Ipv4Error::NotFourOctets)
            } else {
                first_fault(text) is None
            }
        },
{
}

/// An address has four parts, each of at least one digit and of a value up to
/// 255.
pub proof fn law_address_has_four_numbers(text: Seq<u8>, k: int)
    requires
        is_dotted_quad(text),
        0 <= k < 4,
    ensures
        fields(text).len() == 4,
        fields(text)[k].len() > 0,
        forall|i: int|
            0 <= i < fields(text)[k].len() ==> 48 <= #[trigger] fields(text)[k][i] <= 57,
        0 <= decimal_value(fields(text)[k]) <= 255,
        quad_of(text).len() == 4,
        quad_of(text)[k] == decimal_value(fields(text)[k]),
{
    let field = fields(text)[k];
    assert(is_octet(field));
    lemma_decimal_prefix(field, field.len() as int);
    assert(field.take(field.len() as int) =~= field);
    assert forall|i: int| 0 <= i < field.len() implies 48 <= #[trigger] field[i] <= 57 by {
        assert(is_digit(field[i]));
    }
}

/// `check_ipv4` reads the four numbers of an address, in their order, and reports
/// the first fault of every other text.
pub proof fn law_address_is_read_or_refused(
    input: &str,
    outcome: Result<[u8; 4], Ipv4Error>,
    k: int,
)
    requires
        0 <= k < 4,
        call_ensures(check_ipv4, (input,), outcome),
    ensures
        outcome is Ok <==> first_fault(input.spec_bytes()) is None,
        outcome matches Ok(octets) ==> octets@[k] == decimal_value(fields(input.spec_bytes())[k]),
        outcome matches Err(error) ==> first_fault(input.spec_bytes()) == Some(error),
{
    if outcome is Ok {
        law_address_has_four_numbers(input.spec_bytes(), k);
    }
}

/// A configuration is read from its own texts, each for its own purpose, with a
/// subnet prefix of 24. If both addresses are faulty, the fault of the device's
/// own address is reported.
pub proof fn law_configuration_is_read_from_its_texts(
    ssid: &'static str,
    password: &'static str,
    address: &str,
    gateway: &str,
    config: Result<NetworkConfig, Ipv4Error>,
)
    requires
        call_ensures(NetworkConfig::from_text, (ssid, password, address, gateway), config),
    ensures
        config is Ok <==> first_fault(address.spec_bytes()) is None && first_fault(
            gateway.spec_bytes(),
        ) is None,
        config matches Ok(config) ==> {
            &&& config.joins_with().name() == ssid@
            &&& config.joins_with().secret() == password@
            &&& config.own_address() == quad_of(address.spec_bytes())
            &&& config.gateway_address() == quad_of(gateway.spec_bytes())
            &&& config.prefix() == 24
        },
        first_fault(address.spec_bytes()) matches Some(fault) ==> config == Err::<
            NetworkConfig,
            Ipv4Error,
        >(fault),
        first_fault(address.spec_bytes()) is None && first_fault(gateway.spec_bytes()) is Some
            ==> config == Err::<NetworkConfig, Ipv4Error>(first_fault(gateway.spec_bytes())->0),
{
    law_faultless_means_address(address.spec_bytes());
    law_faultless_means_address(gateway.spec_bytes());
}

} // verus!

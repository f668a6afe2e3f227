use esp32_xvc::config::{
    check_ipv4, parse_ipv4, Ipv4Address, Ipv4Error, NetworkConfig, WifiCredentials,
};

#[test]
fn addresses_are_read() {
    assert_eq!(parse_ipv4("192.168.1.100"), [192, 168, 1, 100]);
    assert_eq!(parse_ipv4("0.0.0.0"), [0, 0, 0, 0]);
    assert_eq!(parse_ipv4("255.255.255.255"), [255, 255, 255, 255]);
    assert_eq!(parse_ipv4("0001.02.3.4"), [1, 2, 3, 4]);
}

#[test]
fn every_octet_is_read_back() {
    for octet in 0..=255u8 {
        let text = format!("{}.{}.{}.{}", octet, 255 - octet, 7, octet);
        assert_eq!(check_ipv4(&text), Ok([octet, 255 - octet, 7, octet]));
    }
}

#[test]
fn first_fault_is_reported() {
    assert_eq!(check_ipv4(".1.2.3"), Err(Ipv4Error::MissingDigitBeforeDot));
    assert_eq!(check_ipv4("1..2.3"), Err(Ipv4Error::MissingDigitBeforeDot));
    assert_eq!(check_ipv4("1.2.3.4.5"), Err(Ipv4Error::TooManyOctets));
    assert_eq!(check_ipv4("1.2.3.256"), Err(Ipv4Error::OctetTooLarge));
    assert_eq!(check_ipv4("1.2.3.x"), Err(Ipv4Error::InvalidCharacter));
    assert_eq!(check_ipv4(" 1.2.3.4"), Err(Ipv4Error::InvalidCharacter));
    assert_eq!(check_ipv4(""), Err(Ipv4Error::MissingFinalDigit));
    assert_eq!(check_ipv4("1.2.3."), Err(Ipv4Error::MissingFinalDigit));
    assert_eq!(check_ipv4("1.2.3"), Err(Ipv4Error::NotFourOctets));
    assert_eq!(check_ipv4("999.x"), Err(Ipv4Error::OctetTooLarge));
    assert_eq!(check_ipv4("1.2.\u{e9}.4"), Err(Ipv4Error::InvalidCharacter));
}

#[test]
fn configuration_keeps_its_parts() {
    let config = NetworkConfig::new(
        WifiCredentials::new("lab", "secret"),
        Ipv4Address::new([10, 0, 0, 2]),
        Ipv4Address::new([10, 0, 0, 1]),
    );
    assert_eq!(config.credentials().ssid(), "lab");
    assert_eq!(config.credentials().password(), "secret");
    assert_eq!(config.address().octets(), [10, 0, 0, 2]);
    assert_eq!(config.gateway().octets(), [10, 0, 0, 1]);
    assert_eq!(config.subnet_prefix(), 24);
}

#[test]
fn configuration_is_read_from_text() {
    let config = NetworkConfig::from_text("lab", "secret", "192.168.1.100", "192.168.1.1");
    let config = config.unwrap_or_else(|error| panic!("{:?}", error));
    assert_eq!(config.address().octets(), [192, 168, 1, 100]);
    assert_eq!(config.gateway().octets(), [192, 168, 1, 1]);
    assert_eq!(config.subnet_prefix(), 24);
    assert!(matches!(
        NetworkConfig::from_text("lab", "secret", "300.1.1.1", "x"),
        Err(Ipv4Error::OctetTooLarge)
    ));
    assert!(matches!(
        NetworkConfig::from_text("lab", "secret", "1.1.1.1", "x"),
        Err(Ipv4Error::InvalidCharacter)
    ));
}

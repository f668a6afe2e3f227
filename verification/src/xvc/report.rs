//! What is reported of a streamed shift.

use vstd::prelude::*;

use crate::xvc::stream::CHUNK_BITS;

verus! {

/// Most bytes of the TMS vector that are reported.
pub const TMS_TAIL_BYTES: usize = 4;

/// Bits from one report of progress to the next.
pub const REPORT_EVERY_BITS: usize = 65_536;

/// The last bytes of a byte string, as many as are reported.
pub open spec fn tail_of(bytes: Seq<u8>) -> Seq<u8> {
    if bytes.len() <= TMS_TAIL_BYTES {
        bytes
    } else {
        bytes.skip(bytes.len() - TMS_TAIL_BYTES)
    }
}

/// The last bytes of a byte string that comes in pieces.
pub struct TmsTail {
    bytes: [u8; TMS_TAIL_BYTES],
    count: usize,
}

impl View for TmsTail {
    type V = Seq<u8>;

    closed spec fn view(&self) -> Seq<u8> {
        self.bytes@.take(self.count as int)
    }
}

impl TmsTail {
    /// The bytes lie in their buffer.
    pub closed spec fn wf(&self) -> bool {
        self.count <= TMS_TAIL_BYTES
    }

    /// No bytes yet.
    pub fn new() -> (tail: Self)
        ensures
            tail.wf(),
            tail@ == Seq::<u8>::empty(),
    {
        TmsTail { bytes: [0; TMS_TAIL_BYTES], count: 0 }
    }

    /// The last bytes.
    pub fn last_bytes(&self) -> (bytes: &[u8])
        requires
            self.wf(),
        ensures
            bytes@ == self@,
    {
        vstd::slice::slice_subrange(self.bytes.as_slice(), 0, self.count)
    }

    /// One byte more.
    fn push(&mut self, byte: u8)
        requires
            old(self).wf(),
        ensures
            final(self).wf(),
            final(self)@ == tail_of(old(self)@.push(byte)),
    {
        if self.count < TMS_TAIL_BYTES {
            self.bytes[self.count] = byte;
            self.count = self.count + 1;
        } else {
            self.bytes = [self.bytes[1], self.bytes[2], self.bytes[3], byte];
        }
        assert(self@ =~= tail_of(old(self)@.push(byte)));
    }

    /// Another piece.
    pub fn absorb(&mut self, piece: &[u8])
        requires
            old(self).wf(),
        ensures
            final(self).wf(),
            final(self)@ == tail_of(old(self)@ + piece@),
    {
        let total: usize = piece.len();
        let mut index: usize = 0;
        assert(old(self)@ + piece@.take(0) =~= old(self)@);
        while index < total
            invariant
                index <= total == piece@.len(),
                self.wf(),
                self@ == tail_of(old(self)@ + piece@.take(index as int)),
            decreases total - index,
        {
            proof {
                let so_far = old(self)@ + piece@.take(index as int);
                let byte = piece@[index as int];
                assert(old(self)@ + piece@.take(index + 1) =~= so_far.push(byte));
                lemma_tail_push(so_far, byte);
            }
            self.push(piece[index]);
            index = index + 1;
        }
        assert(piece@.take(index as int) =~= piece@);
    }
}

/// The last bytes after one byte more.
proof fn lemma_tail_push(bytes: Seq<u8>, byte: u8)
    ensures
        tail_of(tail_of(bytes).push(byte)) == tail_of(bytes.push(byte)),
{
    assert(tail_of(tail_of(bytes).push(byte)) =~= tail_of(bytes.push(byte)));
}

/// The last bytes of a byte string are found from the last bytes of its first
/// part and from its second part.
pub proof fn law_tail_comes_in_pieces(first: Seq<u8>, second: Seq<u8>)
    ensures
        tail_of(tail_of(first) + second) == tail_of(first + second),
{
    assert(tail_of(tail_of(first) + second) =~= tail_of(first + second));
}

/// Whether the chunk that ends at `total_processed` bits is one whose end is
/// reported.
pub fn reports_progress(total_processed: usize) -> (reports: bool)
    ensures
        reports == (total_processed % REPORT_EVERY_BITS < CHUNK_BITS),
{
    total_processed % REPORT_EVERY_BITS < CHUNK_BITS
}

/// Bits that were driven in a second, or zero if no time passed.
pub fn bits_per_second(bit_count: usize, elapsed_ms: u64) -> (rate: u64)
    ensures
        elapsed_ms == 0 ==> rate == 0,
        elapsed_ms > 0 ==> rate == (if bit_count * 1_000 > u64::MAX {
            u64::MAX as int
        } else {
            bit_count * 1_000
        }) / elapsed_ms as int,
{
    if elapsed_ms == 0 {
        return 0;
    }
    let scaled: u64 = match (bit_count as u64).checked_mul(1_000) {
        Some(scaled) => scaled,
        None => u64::MAX,
    };
    scaled / elapsed_ms
}

/// What is reported of a byte string is its end: four bytes, or all of them if
/// there are fewer, in their order.
pub proof fn law_tail_is_the_end(bytes: Seq<u8>, i: int)
    requires
        0 <= i < tail_of(bytes).len(),
    ensures
        bytes.len() >= 4 ==> tail_of(bytes).len() == 4,
        bytes.len() < 4 ==> tail_of(bytes).len() == bytes.len(),
        tail_of(bytes)[i] == bytes[bytes.len() - tail_of(bytes).len() + i],
{
}

/// However a byte string is cut into pieces, the last four bytes are kept.
pub proof fn law_absorbing_keeps_the_end(tail: &mut TmsTail, piece: &[u8], i: int)
    requires
        tail.wf(),
        0 <= i < 4,
        i < tail@.len() + piece@.len(),
        call_ensures(TmsTail::absorb, (tail, piece), ()),
    ensures
        ({
            let all = old(tail)@ + piece@;
            let count = final(tail)@.len();
            &&& count == (if all.len() < 4 {
                all.len() as int
            } else {
                4
            })
            &&& i < count ==> final(tail)@[i] == all[all.len() - count + i]
        }),
{
}

/// Progress is reported with the first chunk that ends at or past a multiple of
/// 65536 bits.
pub proof fn law_progress_is_reported_at_intervals(total_processed: usize, reports: bool)
    requires
        call_ensures(reports_progress, (total_processed,), reports),
    ensures
        reports <==> total_processed as int / 65_536 > (total_processed - 2_048) / 65_536,
{
}

/// The rate times the time in seconds is the number of bits, where the rate is
/// rounded down; it is zero if no time passed.
pub proof fn law_rate_is_bits_over_time(bit_count: usize, elapsed_ms: u64, rate: u64)
    requires
        bit_count * 1_000 <= u64::MAX,
        call_ensures(bits_per_second, (bit_count, elapsed_ms), rate),
    ensures
        elapsed_ms == 0 ==> rate == 0,
        elapsed_ms > 0 ==> rate * elapsed_ms <= bit_count * 1_000 < (rate + 1) * elapsed_ms,
{
    if elapsed_ms > 0 {
        let scaled = bit_count * 1_000;
        let time = elapsed_ms as int;
        let quotient = scaled / time;
        assert(quotient * time <= scaled < (quotient + 1) * time) by (nonlinear_arith)
            requires
                time > 0,
                quotient == scaled / time,
        ;
    }
}

} // verus!

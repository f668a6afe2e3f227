//! Moving bytes between buffers.

use vstd::prelude::*;

verus! {

/// `target` with the bytes from `at` on replaced by `source`.
pub open spec fn overwritten(target: Seq<u8>, at: int, source: Seq<u8>) -> Seq<u8> {
    target.take(at) + source + target.skip(at + source.len())
}

/// Copies all of `source` into `target`, from position `at` on.
pub fn copy_at(target: &mut [u8], at: usize, source: &[u8])
    requires
        at + source@.len() <= old(target)@.len(),
    ensures
        final(target)@ == overwritten(old(target)@, at as int, source@),
{
    let ghost before = target@;
    let count: usize = source.len();
    let total: usize = target.len();
    let mut copied: usize = 0;
    while copied < count
        invariant
            copied <= count == source@.len(),
            at + count <= total == before.len(),
            target@.len() == before.len(),
            forall|i: int|
                0 <= i < before.len() ==> #[trigger] target@[i] == if at <= i < at + copied {
                    source@[i - at]
                } else {
                    before[i]
                },
        decreases count - copied,
    {
        target[at + copied] = source[copied];
        copied = copied + 1;
    }
    assert(target@ =~= overwritten(before, at as int, source@));
}

/// Moves `count` bytes at `from` to the front of `bytes`.
pub fn move_to_front(bytes: &mut [u8], from: usize, count: usize)
    requires
        from + count <= old(bytes)@.len(),
    ensures
        final(bytes)@ == overwritten(
            old(bytes)@,
            0,
            old(bytes)@.subrange(from as int, from + count),
        ),
{
    let ghost before = bytes@;
    let total: usize = bytes.len();
    let mut moved: usize = 0;
    while moved < count
        invariant
            moved <= count,
            from + count <= total == before.len(),
            bytes@.len() == before.len(),
            forall|i: int|
                0 <= i < before.len() ==> #[trigger] bytes@[i] == if i < moved {
                    before[from + i]
                } else {
                    before[i]
                },
        decreases count - moved,
    {
        bytes[moved] = bytes[from + moved];
        moved = moved + 1;
    }
    assert(bytes@ =~= overwritten(before, 0, before.subrange(from as int, from + count)));
}

/// Overwriting replaces as many bytes as there are new ones, from its place on,
/// and leaves all others alone.
pub proof fn law_overwriting_is_local(target: Seq<u8>, at: int, source: Seq<u8>, i: int)
    requires
        0 <= at,
        at + source.len() <= target.len(),
        0 <= i < target.len(),
    ensures
        overwritten(target, at, source).len() == target.len(),
        at <= i < at + source.len() ==> overwritten(target, at, source)[i] == source[i - at],
        i < at || i >= at + source.len() ==> overwritten(target, at, source)[i] == target[i],
{
}

/// `copy_at` puts byte `i` of the source `at` places further into the target,
/// and leaves all other bytes alone.
pub proof fn law_copy_goes_to_its_place(target: &mut [u8], at: usize, source: &[u8], i: int)
    requires
        at + source@.len() <= target@.len(),
        call_ensures(copy_at, (target, at, source), ()),
    ensures
        final(target)@.len() == old(target)@.len(),
        0 <= i < source@.len() ==> final(target)@[at + i] == source@[i],
        0 <= i < at || at + source@.len() <= i < old(target)@.len() ==> final(target)@[i] == old(
            target,
        )@[i],
{
}

/// `move_to_front` puts byte `from + i` at place `i`, and leaves the bytes
/// behind the moved ones alone.
pub proof fn law_move_goes_to_the_front(bytes: &mut [u8], from: usize, count: usize, i: int)
    requires
        from + count <= bytes@.len(),
        call_ensures(move_to_front, (bytes, from, count), ()),
    ensures
        final(bytes)@.len() == old(bytes)@.len(),
        0 <= i < count ==> final(bytes)@[i] == old(bytes)@[from + i],
        count <= i < old(bytes)@.len() ==> final(bytes)@[i] == old(bytes)@[i],
{
}

} // verus!

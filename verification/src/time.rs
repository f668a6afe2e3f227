//! Clock arithmetic that stops at the ends of the clock's range.

use vstd::prelude::*;

verus! {

/// The clock reading nearest to `ticks`.
pub open spec fn clamped(ticks: int) -> i64 {
    if ticks > i64::MAX {
        i64::MAX
    } else if ticks < i64::MIN {
        i64::MIN
    } else {
        ticks as i64
    }
}

/// The reading `span` after `instant`.
pub fn later(instant: i64, span: i64) -> (reading: i64)
    ensures
        reading == clamped(instant + span),
{
    clamp(instant as i128 + span as i128)
}

/// The time from `earlier` to `instant`.
pub fn elapsed(instant: i64, earlier: i64) -> (span: i64)
    ensures
        span == clamped(instant - earlier),
{
    clamp(instant as i128 - earlier as i128)
}

/// The clock reading nearest to `ticks`.
fn clamp(ticks: i128) -> (reading: i64)
    ensures
        reading == clamped(ticks as int),
{
    if ticks > i64::MAX as i128 {
        i64::MAX
    } else if ticks < i64::MIN as i128 {
        i64::MIN
    } else {
        ticks as i64
    }
}

/// `later` adds a span to an instant, and stops at the ends of the clock.
pub proof fn law_later_adds(instant: i64, span: i64, reading: i64)
    requires
        call_ensures(later, (instant, span), reading),
    ensures
        i64::MIN <= instant + span <= i64::MAX ==> reading == instant + span,
        instant + span > i64::MAX ==> reading == i64::MAX,
        instant + span < i64::MIN ==> reading == i64::MIN,
{
}

/// `elapsed` is the difference of two instants, and stops at the ends of the
/// clock.
pub proof fn law_elapsed_subtracts(instant: i64, earlier: i64, span: i64)
    requires
        call_ensures(elapsed, (instant, earlier), span),
    ensures
        i64::MIN <= instant - earlier <= i64::MAX ==> span == instant - earlier,
        instant - earlier > i64::MAX ==> span == i64::MAX,
        instant - earlier < i64::MIN ==> span == i64::MIN,
{
}

/// The nearest reading of a time within the clock's range is that time, and no
/// reading leaves the range.
pub proof fn law_clamping_keeps_the_range(ticks: int)
    ensures
        i64::MIN <= ticks <= i64::MAX ==> clamped(ticks) == ticks,
        ticks > i64::MAX ==> clamped(ticks) == i64::MAX,
        ticks < i64::MIN ==> clamped(ticks) == i64::MIN,
{
}

} // verus!

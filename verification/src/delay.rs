//! Delays that let other tasks run.

use vstd::prelude::*;

verus! {

/// Delays from this length on are cut into chunks.
pub const CHUNKED_FROM_US: u32 = 2_000;

/// Longest chunk.
pub const CHUNK_US: u32 = 250;

/// The chunks that a long delay is cut into.
pub open spec fn chunks(us: nat) -> Seq<u32>
    decreases us,
{
    if us == 0 {
        Seq::empty()
    } else if us < CHUNK_US {
        seq![us as u32]
    } else {
        seq![CHUNK_US] + chunks((us - CHUNK_US) as nat)
    }
}

/// The waits of a delay.
pub open spec fn delay_waits(us: u32) -> Seq<u32> {
    if us >= CHUNKED_FROM_US {
        chunks(us as nat)
    } else if us > 0 {
        seq![us]
    } else {
        Seq::empty()
    }
}

/// The time that a list of waits takes.
pub open spec fn total(waits: Seq<u32>) -> nat
    decreases waits.len(),
{
    if waits.len() == 0 {
        0
    } else {
        waits[0] as nat + total(waits.drop_first())
    }
}

/// One step of a delay.
#[derive(Debug, Clone, Copy, PartialEq, Eq, Structural)]
pub enum DelayStep {
    /// Wait busily for this time, let other tasks run if `yields`, step again.
    Wait { us: u32, yields: bool },
    /// The delay is over.
    Over,
}

/// A delay in progress.
pub struct CooperativeDelay {
    remaining_us: u32,
    chunked: bool,
}

impl CooperativeDelay {
    /// The waits that are still to come.
    pub closed spec fn remaining(&self) -> Seq<u32> {
        if self.chunked {
            chunks(self.remaining_us as nat)
        } else if self.remaining_us > 0 {
            seq![self.remaining_us]
        } else {
            Seq::empty()
        }
    }

    /// Whether other tasks run after each wait.
    pub closed spec fn yields(&self) -> bool {
        self.chunked
    }

    /// Starts a delay.
    pub fn new(us: u32) -> (delay: Self)
        ensures
            delay.remaining() == delay_waits(us),
            delay.yields() == (us >= CHUNKED_FROM_US),
    {
        CooperativeDelay { remaining_us: us, chunked: us >= CHUNKED_FROM_US }
    }

    /// The next wait, in order.
    pub fn step(&mut self) -> (step: DelayStep)
        ensures
            final(self).yields() == old(self).yields(),
            if old(self).remaining().len() == 0 {
                &&& step == DelayStep::Over
                &&& final(self).remaining() == old(self).remaining()
            } else {
                &&& step == (DelayStep::Wait {
                    us: old(self).remaining()[0],
                    yields: old(self).yields(),
                })
                &&& final(self).remaining() == old(self).remaining().drop_first()
            },
    {
        if self.remaining_us == 0 {
            return DelayStep::Over;
        }
        let us: u32 = if self.chunked && self.remaining_us > CHUNK_US {
            CHUNK_US
        } else {
            self.remaining_us
        };
        let ghost waits = self.remaining();
        self.remaining_us = self.remaining_us - us;
        assert(chunks(0) == Seq::<u32>::empty());
        assert(self.remaining() =~= waits.drop_first());
        DelayStep::Wait { us, yields: self.chunked }
    }
}

/// What is cut into chunks adds up again.
proof fn lemma_chunks(us: nat)
    requires
        us <= u32::MAX,
    ensures
        total(chunks(us)) == us,
        forall|i: int| 0 <= i < chunks(us).len() ==> 0 < #[trigger] chunks(us)[i] <= CHUNK_US,
    decreases us,
{
    if us == 0 {
    } else if us < CHUNK_US {
        assert(chunks(us).drop_first() =~= Seq::<u32>::empty());
        assert(total(Seq::<u32>::empty()) == 0);
    } else {
        let rest = chunks((us - CHUNK_US) as nat);
        lemma_chunks((us - CHUNK_US) as nat);
        assert(chunks(us).drop_first() =~= rest);
        assert forall|i: int| 0 <= i < chunks(us).len() implies 0 < #[trigger] chunks(us)[i]
            <= CHUNK_US by {
            if i > 0 {
                assert(chunks(us)[i] == rest[i - 1]);
            }
        }
    }
}

/// A delay takes exactly as long as it was asked to, and other tasks never wait
/// for longer than a short delay or one chunk.
pub proof fn law_delay_is_exact(us: u32)
    ensures
        total(delay_waits(us)) == us,
        forall|i: int|
            0 <= i < delay_waits(us).len() ==> 0 < #[trigger] delay_waits(us)[i] < CHUNKED_FROM_US,
        us >= CHUNKED_FROM_US ==> forall|i: int|
            0 <= i < delay_waits(us).len() ==> #[trigger] delay_waits(us)[i] <= CHUNK_US,
{
    lemma_chunks(us as nat);
    if 0 < us < CHUNKED_FROM_US {
        assert(delay_waits(us).drop_first() =~= Seq::<u32>::empty());
        assert(total(Seq::<u32>::empty()) == 0);
    }
}

/// The chunks of a long delay, by their place.
proof fn lemma_chunk_at(us: nat, i: int)
    requires
        us <= u32::MAX,
        0 <= i < chunks(us).len(),
    ensures
        chunks(us)[i] == if us - 250 * i >= 250 {
            250int
        } else {
            us - 250 * i
        },
    decreases us,
{
    if us >= CHUNK_US && i > 0 {
        lemma_chunk_at((us - CHUNK_US) as nat, i - 1);
        assert(chunks(us)[i] == chunks((us - CHUNK_US) as nat)[i - 1]);
    }
}

/// Number of the chunks of a long delay.
proof fn lemma_chunk_count(us: nat)
    ensures
        chunks(us).len() == (us + 249) / 250,
    decreases us,
{
    if us >= CHUNK_US {
        lemma_chunk_count((us - CHUNK_US) as nat);
    }
}

/// A delay of two milliseconds or more waits for 250 microseconds at a time and
/// at last for what is left; a shorter one waits once, and none not at all.
pub proof fn law_delay_is_cut_evenly(us: u32, i: int)
    requires
        0 <= i < delay_waits(us).len(),
    ensures
        us >= 2_000 ==> delay_waits(us).len() == (us + 249) / 250,
        us >= 2_000 && i < delay_waits(us).len() - 1 ==> delay_waits(us)[i] == 250,
        us >= 2_000 && i == delay_waits(us).len() - 1 ==> delay_waits(us)[i] == us - 250 * i,
        us < 2_000 ==> delay_waits(us).len() == 1 && delay_waits(us)[0] == us,
        us > 0,
{
    if us >= 2_000 {
        lemma_chunk_count(us as nat);
        lemma_chunk_at(us as nat, i);
    }
}

/// A delay of no time has no waits, and every other one has some.
pub proof fn law_only_no_time_needs_no_wait(us: u32)
    ensures
        delay_waits(us).len() == 0 <==> us == 0,
{
    lemma_chunk_count(us as nat);
}

/// A new delay lets other tasks run exactly if it is of two milliseconds or
/// more, and its first step waits for the first of its waits.
pub proof fn law_long_delays_yield(us: u32, delay: CooperativeDelay)
    requires
        call_ensures(CooperativeDelay::new, (us,), delay),
    ensures
        delay.yields() <==> us >= 2_000,
        total(delay.remaining()) == us,
        delay.remaining().len() == (if us >= 2_000 {
            (us + 249) / 250
        } else if us > 0 {
            1
        } else {
            0
        }),
{
    law_delay_is_exact(us);
    lemma_chunk_count(us as nat);
}

/// A delay waits for its waits one by one, lets other tasks run after each if it
/// is a long one, and is over when none is left.
pub proof fn law_waits_come_one_by_one(delay: &mut CooperativeDelay, step: DelayStep)
    requires
        call_ensures(CooperativeDelay::step, (delay,), step),
    ensures
        old(delay).remaining().len() == 0 <==> step is Over,
        old(delay).remaining().len() > 0 ==> {
            &&& step == (DelayStep::Wait {
                us: old(delay).remaining()[0],
                yields: old(delay).yields(),
            })
            &&& final(delay).remaining() == old(delay).remaining().drop_first()
            &&& total(final(delay).remaining()) + old(delay).remaining()[0] == total(
                old(delay).remaining(),
            )
        },
        final(delay).yields() == old(delay).yields(),
{
}

} // verus!

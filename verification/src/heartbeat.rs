//! A sign of life, and proof that tasks really do run concurrently.
use vstd::prelude::*;

use crate::blink::{period_after, reaction, Reaction, Wake, PERIOD_FAST};

verus! {

/// How often the heartbeat reports in, in microseconds.
pub const PERIOD: u64 = 5_000_000;

/// The blink period that is asked for.
pub open spec fn asked(fast: bool) -> u64 {
    if fast {
        PERIOD_FAST
    } else {
        crate::blink::PERIOD
    }
}

/// Whether the LED blinks fast after this many beats.
pub open spec fn fast_after(beats: nat) -> bool
    decreases beats,
{
    if beats == 0 {
        false
    } else {
        !fast_after((beats - 1) as nat)
    }
}

/// Alternates the blink rate.
///
/// Its only real job is to prove concurrency: it sleeps for seconds at a time
/// without ever holding up the blinking.
#[derive(Clone, Copy, PartialEq, Eq, Debug)]
pub struct Heartbeat {
    /// Whether the fast period was asked for last.
    pub fast: bool,
}

impl Heartbeat {
    /// A heartbeat that has yet to beat.
    #[must_use]
    pub fn new() -> (heartbeat: Self)
        ensures
            heartbeat.fast == fast_after(0),
    {
        Heartbeat { fast: false }
    }

    /// Beats, and returns the blink period to ask for.
    pub fn beat(&mut self) -> (period: u64)
        ensures
            final(self).fast == !old(self).fast,
            period == asked(final(self).fast),
    {
        self.fast = !self.fast;
        if self.fast {
            PERIOD_FAST
        } else {
            crate::blink::PERIOD
        }
    }
}

impl Default for Heartbeat {
    fn default() -> (heartbeat: Self)
        ensures
            heartbeat.fast == fast_after(0),
    {
        Self::new()
    }
}

/// The blink rate alternates: fast after every odd beat, slow after every even
/// one.
pub proof fn law_beats_alternate(beats: nat)
    ensures
        fast_after(beats) == (beats % 2 == 1),
    decreases beats,
{
    if beats > 0 {
        law_beats_alternate((beats - 1) as nat);
    }
}

/// Every beat retunes the LED: with nobody else asking, it blinks at what the
/// last beat asked for, and the next one asks for something new.
pub proof fn law_every_beat_retunes(beats: nat)
    ensures
        asked(fast_after(0)) == crate::blink::PERIOD,
        ({
            let period = asked(fast_after(beats));
            let next = asked(fast_after(beats + 1));
            &&& period_after(period, Wake::Tick) == period
            &&& reaction(period, Wake::Request(next)) == Reaction::Retune(next)
            &&& period_after(period, Wake::Request(next)) == next
        }),
{
    law_beats_alternate(beats);
    law_beats_alternate(beats + 1);
}

/// What a beat asks for: a tenth of a second while fast, half a second while
/// not.
pub proof fn law_beats_ask_for_two_periods(fast: bool)
    ensures
        asked(fast) == if fast {
            100_000int
        } else {
            500_000
        },
        PERIOD == 5_000_000,
{
}

} // verus!

//! Blinking an LED, at a rate another task can change while it runs.
//!
//! Periods are in microseconds, the resolution of the clock they are kept by.
use vstd::prelude::*;

verus! {

/// How long the LED stays in each state.
pub const PERIOD: u64 = 500_000;

/// Blink period [`crate::heartbeat`] switches to, to demonstrate retuning a
/// running task from another one.
pub const PERIOD_FAST: u64 = 100_000;

/// What a waiting task was woken by.
#[derive(Clone, Copy, PartialEq, Eq, Debug, Structural)]
pub enum Wake {
    /// The period has passed.
    Tick,
    /// Another task asked for this period.
    Request(u64),
}

/// What to do about having been woken.
#[derive(Clone, Copy, PartialEq, Eq, Debug, Structural)]
pub enum Reaction {
    /// Toggle the LED.
    Toggle,
    /// Start the clock afresh, with this period.
    Retune(u64),
    /// Wait on.
    Wait,
}

/// The period after having been woken, if it was `period` before.
pub open spec fn period_after(period: u64, wake: Wake) -> u64 {
    match wake {
        Wake::Tick => period,
        Wake::Request(asked) => asked,
    }
}

/// What to do about having been woken while blinking at `period`: toggle the
/// LED when it is time, and on a request start afresh only if it asks for
/// something new.
pub open spec fn reaction(period: u64, wake: Wake) -> Reaction {
    match wake {
        Wake::Tick => Reaction::Toggle,
        Wake::Request(asked) => if asked != period {
            Reaction::Retune(asked)
        } else {
            Reaction::Wait
        },
    }
}

/// Blinks an LED, at whatever period was last requested.
#[derive(Clone, Copy, PartialEq, Eq, Debug)]
pub struct Blinker {
    /// The period that the LED blinks at.
    pub period: u64,
}

impl Blinker {
    /// Blinks at [`PERIOD`] until asked otherwise.
    #[must_use]
    pub fn new() -> (blinker: Self)
        ensures
            blinker.period == PERIOD,
    {
        Blinker { period: PERIOD }
    }

    /// Decides what to do about having been woken.
    ///
    /// Waiting for ticks and requests at once means a new period takes effect
    /// immediately rather than after the current tick has expired.
    pub fn wake(&mut self, wake: Wake) -> (r: Reaction)
        ensures
            r == reaction(old(self).period, wake),
            final(self).period == period_after(old(self).period, wake),
    {
        match wake {
            Wake::Tick => Reaction::Toggle,
            Wake::Request(asked) => {
                if asked != self.period {
                    self.period = asked;
                    Reaction::Retune(asked)
                } else {
                    Reaction::Wait
                }
            },
        }
    }
}

impl Default for Blinker {
    fn default() -> (blinker: Self)
        ensures
            blinker.period == PERIOD,
    {
        Self::new()
    }
}

/// What to call an LED whose pin was read as `high`. One that cannot be read is
/// taken to be off.
#[must_use]
pub fn state_name(high: Option<bool>) -> (name: &'static str)
    ensures
        name@ == if high == Some(true) {
            "on"@
        } else {
            "off"@
        },
{
    match high {
        Some(true) => "on",
        _ => "off",
    }
}

/// A period in milliseconds, rounded down.
#[must_use]
pub fn as_millis(period: u64) -> (millis: u64)
    ensures
        millis == period / 1000,
{
    period / 1000
}

/// A tick toggles the LED and leaves the period. A request sets the period, and
/// starts the clock afresh if, and only if, that is a change; so asking for the
/// same period twice is the same as asking once.
pub proof fn law_requests_take_effect_at_once(period: u64, asked: u64)
    ensures
        reaction(period, Wake::Tick) is Toggle,
        period_after(period, Wake::Tick) == period,
        period_after(period, Wake::Request(asked)) == asked,
        asked != period ==> (reaction(period, Wake::Request(asked)) matches Reaction::Retune(p) && p
            == asked),
        asked == period ==> reaction(period, Wake::Request(asked)) is Wait,
        reaction(period_after(period, Wake::Request(asked)), Wake::Request(asked)) is Wait,
        PERIOD == 500_000,
        PERIOD_FAST == 100_000,
{
}

} // verus!

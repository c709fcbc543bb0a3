//! Simulation-time countdowns, advanced by the tick length.
use vstd::prelude::*;

verus! {

/// Whether a timer stops once it has run out or starts over.
#[derive(Clone, Copy, Debug, PartialEq, Eq, Structural)]
pub enum TimerMode {
    Once,
    Repeating,
}

/// A countdown in nanoseconds of simulation time.
#[derive(Clone, Copy, Debug, PartialEq, Eq, Structural)]
pub struct Timer {
    pub duration_ns: u64,
    pub elapsed_ns: u64,
    pub mode: TimerMode,
    /// Whether the last tick ran the timer out.
    pub just_finished: bool,
}

/// The timer after a tick of `delta_ns` nanoseconds. A one-shot timer that
/// has run out stays run out and reports nothing more; a repeating one keeps
/// the time past its duration (a zero duration runs out on every tick).
pub open spec fn tick_spec(t: Timer, delta_ns: int) -> Timer {
    match t.mode {
        TimerMode::Once => {
            if t.elapsed_ns >= t.duration_ns {
                Timer { just_finished: false, ..t }
            } else if t.elapsed_ns + delta_ns >= t.duration_ns {
                Timer { elapsed_ns: t.duration_ns, just_finished: true, ..t }
            } else {
                Timer { elapsed_ns: (t.elapsed_ns + delta_ns) as u64, just_finished: false, ..t }
            }
        },
        TimerMode::Repeating => {
            if t.duration_ns == 0 {
                Timer { just_finished: true, ..t }
            } else {
                Timer {
                    elapsed_ns: ((t.elapsed_ns + delta_ns) % (t.duration_ns as int)) as u64,
                    just_finished: t.elapsed_ns + delta_ns >= t.duration_ns,
                    ..t
                }
            }
        },
    }
}

impl Timer {
    pub open spec fn wf(&self) -> bool {
        match self.mode {
            TimerMode::Once => self.elapsed_ns <= self.duration_ns,
            TimerMode::Repeating => self.duration_ns == 0 || self.elapsed_ns < self.duration_ns,
        }
    }

    /// A fresh one-shot timer of the given duration.
    pub open spec fn new_spec(duration_ns: u64) -> Timer {
        Timer { duration_ns, elapsed_ns: 0, mode: TimerMode::Once, just_finished: false }
    }

    /// A fresh timer of the given duration.
    pub fn new(duration_ns: u64, mode: TimerMode) -> (r: Timer)
        ensures
            r == (Timer { duration_ns, elapsed_ns: 0, mode, just_finished: false }),
            r.wf(),
    {
        Timer { duration_ns, elapsed_ns: 0, mode, just_finished: false }
    }

    /// Advances the timer by `delta_ns` nanoseconds; returns whether it ran
    /// out on this tick.
    pub fn tick(&mut self, delta_ns: u64) -> (r: bool)
        requires
            old(self).wf(),
        ensures
            *final(self) == tick_spec(*old(self), delta_ns as int),
            r == final(self).just_finished,
            final(self).wf(),
    {
        match self.mode {
            TimerMode::Once => {
                if self.elapsed_ns >= self.duration_ns {
                    self.just_finished = false;
                } else if delta_ns >= self.duration_ns - self.elapsed_ns {
                    self.elapsed_ns = self.duration_ns;
                    self.just_finished = true;
                } else {
                    self.elapsed_ns = self.elapsed_ns + delta_ns;
                    self.just_finished = false;
                }
            },
            TimerMode::Repeating => {
                if self.duration_ns == 0 {
                    self.just_finished = true;
                } else {
                    let total: u128 = self.elapsed_ns as u128 + delta_ns as u128;
                    self.just_finished = total >= self.duration_ns as u128;
                    self.elapsed_ns = (total % self.duration_ns as u128) as u64;
                }
            },
        }
        self.just_finished
    }

    /// Gives the timer a new duration and starts it over.
    pub fn restart(&mut self, duration_ns: u64)
        ensures
            *final(self) == (Timer { duration_ns, elapsed_ns: 0, mode: old(self).mode, just_finished: old(self).just_finished }),
            final(self).wf(),
    {
        self.duration_ns = duration_ns;
        self.elapsed_ns = 0;
    }
}

} // verus!

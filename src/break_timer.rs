use crate::time::{Duration, Timestamp};
use vstd::prelude::*;
use vstd::string::*;

verus! {

/// The phase of the work/break cycle.
#[derive(Clone, Copy, Debug, PartialEq, Eq, Structural)]
pub enum BreakTimer {
    /// Free use until the work period ends.
    Unlocked { until: Timestamp },
    /// On a break until it ends.
    Locked { until: Timestamp },
    /// The break is over; the user may unlock.
    Unlockable,
}

/// Why a break-timer action was refused.
#[derive(Clone, Copy, Debug, PartialEq, Eq, Structural)]
pub enum BreakTimerError {
    /// Unlocking during a break.
    Locked,
    /// Unlocking during a work period.
    AlreadyUnlocked,
    /// Locking outside a work period.
    NotUnlocked,
}

impl BreakTimerError {
    pub open spec fn message_spec(self) -> Seq<char> {
        match self {
            BreakTimerError::Locked => "Break timer is locked."@,
            BreakTimerError::AlreadyUnlocked => "Break timer is already unlocked."@,
            BreakTimerError::NotUnlocked => "Break timer is not unlocked."@,
        }
    }

    /// The user-visible text of the refusal.
    pub fn message(&self) -> (r: String)
        ensures
            r@ == self.message_spec(),
    {
        match self {
            BreakTimerError::Locked => String::from_str("Break timer is locked."),
            BreakTimerError::AlreadyUnlocked => String::from_str("Break timer is already unlocked."),
            BreakTimerError::NotUnlocked => String::from_str("Break timer is not unlocked."),
        }
    }
}

/// The phase after the automatic transitions due by `t`: a work period
/// that has ended becomes a break of `brk` from its end, and a break that
/// has ended becomes unlockable.
pub open spec fn advance(timer: BreakTimer, t: Timestamp, brk: Duration) -> BreakTimer {
    let first = match timer {
        BreakTimer::Unlocked { until } => if t.0 >= until.0 {
            BreakTimer::Locked { until: until.plus(brk) }
        } else {
            timer
        },
        _ => timer,
    };
    match first {
        BreakTimer::Locked { until } => if t.0 >= until.0 {
            BreakTimer::Unlockable
        } else {
            first
        },
        _ => first,
    }
}

/// A work period in progress turns into a break starting at `t`.
pub open spec fn locked_if_unlocked(timer: BreakTimer, t: Timestamp, brk: Duration) -> BreakTimer {
    if timer is Unlocked {
        BreakTimer::Locked { until: t.plus(brk) }
    } else {
        timer
    }
}

/// The break-timer machine with its two durations.
pub struct BreakTimerManager {
    pub timer: BreakTimer,
    pub work_period_duration: Duration,
    pub break_duration: Duration,
}

impl BreakTimerManager {
    /// A work period that ends may be followed by a break without overflow.
    pub open spec fn wf(&self) -> bool {
        self.timer matches BreakTimer::Unlocked { until } ==> until.can_add(self.break_duration)
    }

    /// The time `t` leaves room for a full work period and break after it.
    pub open spec fn time_fits(&self, t: Timestamp) -> bool {
        &&& t.can_add(self.break_duration)
        &&& t.can_add(self.work_period_duration)
        &&& t.plus(self.work_period_duration).can_add(self.break_duration)
    }

    pub open spec fn advanced(&self, t: Timestamp) -> BreakTimer {
        advance(self.timer, t, self.break_duration)
    }

    pub fn new(work_period_duration: Duration, break_duration: Duration) -> (r: BreakTimerManager)
        ensures
            r.timer == BreakTimer::Unlockable,
            r.work_period_duration == work_period_duration,
            r.break_duration == break_duration,
            r.wf(),
    {
        BreakTimerManager { timer: BreakTimer::Unlockable, work_period_duration, break_duration }
    }

    /// Applies the automatic transitions due by `current_time`.
    pub fn refresh(&mut self, current_time: Timestamp)
        requires
            old(self).wf(),
        ensures
            final(self).timer == old(self).advanced(current_time),
            final(self).work_period_duration == old(self).work_period_duration,
            final(self).break_duration == old(self).break_duration,
            final(self).wf(),
    {
        if let BreakTimer::Unlocked { until } = self.timer {
            if current_time.0 >= until.0 {
                self.timer = BreakTimer::Locked { until: until.add(self.break_duration) };
            }
        }
        if let BreakTimer::Locked { until } = self.timer {
            if current_time.0 >= until.0 {
                self.timer = BreakTimer::Unlockable;
            }
        }
    }

    /// Starts a work period; only an unlockable timer can be unlocked.
    pub fn unlock(&mut self, current_time: Timestamp) -> (r: Result<(), BreakTimerError>)
        requires
            old(self).wf(),
            old(self).time_fits(current_time),
        ensures
            final(self).work_period_duration == old(self).work_period_duration,
            final(self).break_duration == old(self).break_duration,
            final(self).wf(),
            match old(self).advanced(current_time) {
                BreakTimer::Unlockable => r is Ok && final(self).timer == BreakTimer::Unlocked {
                    until: current_time.plus(old(self).work_period_duration),
                },
                BreakTimer::Locked { .. } => r == Err::<(), BreakTimerError>(BreakTimerError::Locked)
                    && final(self).timer == old(self).advanced(current_time),
                BreakTimer::Unlocked { .. } => r == Err::<(), BreakTimerError>(
                    BreakTimerError::AlreadyUnlocked,
                ) && final(self).timer == old(self).advanced(current_time),
            },
    {
        self.refresh(current_time);
        match self.timer {
            BreakTimer::Unlockable => {
                self.timer = BreakTimer::Unlocked {
                    until: current_time.add(self.work_period_duration),
                };
                Ok(())
            },
            BreakTimer::Locked { until: _ } => Err(BreakTimerError::Locked),
            BreakTimer::Unlocked { until: _ } => Err(BreakTimerError::AlreadyUnlocked),
        }
    }

    /// Starts a break at once; only a timer in a work period can be locked.
    pub fn lock(&mut self, current_time: Timestamp) -> (r: Result<(), BreakTimerError>)
        requires
            old(self).wf(),
            old(self).time_fits(current_time),
        ensures
            final(self).work_period_duration == old(self).work_period_duration,
            final(self).break_duration == old(self).break_duration,
            final(self).wf(),
            old(self).advanced(current_time) is Unlocked ==> r is Ok && final(self).timer
                == (BreakTimer::Locked { until: current_time.plus(old(self).break_duration) }),
            !(old(self).advanced(current_time) is Unlocked) ==> r == Err::<(), BreakTimerError>(
                BreakTimerError::NotUnlocked,
            ) && final(self).timer == old(self).advanced(current_time),
    {
        self.refresh(current_time);
        match self.timer {
            BreakTimer::Unlocked { until: _ } => {
                self.timer = BreakTimer::Locked { until: current_time.add(self.break_duration) };
                Ok(())
            },
            _ => Err(BreakTimerError::NotUnlocked),
        }
    }

    /// Locks if in a work period; otherwise only refreshes.
    pub fn lock_if_unlocked(&mut self, current_time: Timestamp)
        requires
            old(self).wf(),
            old(self).time_fits(current_time),
        ensures
            final(self).work_period_duration == old(self).work_period_duration,
            final(self).break_duration == old(self).break_duration,
            final(self).wf(),
            !(final(self).timer is Unlocked),
            final(self).timer == locked_if_unlocked(
                old(self).advanced(current_time),
                current_time,
                old(self).break_duration,
            ),
    {
        let _ = self.lock(current_time);
    }
}

} // verus!

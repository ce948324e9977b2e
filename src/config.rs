use crate::time::{Duration, HourMinute};
use vstd::prelude::*;

verus! {

/// A daily requirement: its name and the local time it falls due.
#[derive(Clone, Debug)]
pub struct RequirementConfig {
    pub name: String,
    pub due: HourMinute,
}

/// A daily locked range; an absent bound leaves that side open.
#[derive(Clone, Copy, Debug, PartialEq, Eq, Structural)]
pub struct LockedTimeRangeConfig {
    pub start: Option<HourMinute>,
    pub end: Option<HourMinute>,
}

/// The server's settings as the user writes them.
#[derive(Clone, Debug)]
pub struct DiagonatorConfig {
    pub diagonator_path: String,
    pub diagonator_args: Vec<String>,
    pub socket_path: String,
    pub bind_on: String,
    pub requirements: Vec<RequirementConfig>,
    pub locked_time_ranges: Vec<LockedTimeRangeConfig>,
    pub work_period_minutes: i64,
    pub break_minutes: i64,
}

/// What the manager is built from.
pub struct DiagonatorManagerConfig {
    pub diagonator_command: (String, Vec<String>),
    pub requirements: Vec<RequirementConfig>,
    pub locked_time_ranges: Vec<LockedTimeRangeConfig>,
    pub work_period_duration: Duration,
    pub break_duration: Duration,
}

/// A bound of a range template is absent or a valid time of day.
pub open spec fn bound_valid(hm: Option<HourMinute>) -> bool {
    hm matches Some(h) ==> h.wf()
}

fn bound_is_valid(hm: &Option<HourMinute>) -> (r: bool)
    ensures
        r == bound_valid(*hm),
{
    match hm {
        Some(h) => h.hour <= 23 && h.minute <= 59,
        None => true,
    }
}

impl DiagonatorManagerConfig {
    /// Every time of day in the templates is valid.
    pub open spec fn templates_valid(&self) -> bool {
        &&& forall|k: int|
            0 <= k < self.requirements@.len() ==> (#[trigger] self.requirements@[k]).due.wf()
        &&& forall|k: int|
            0 <= k < self.locked_time_ranges@.len() ==> bound_valid(
                (#[trigger] self.locked_time_ranges@[k]).start,
            ) && bound_valid(self.locked_time_ranges@[k].end)
    }

    /// Whether every time of day in the templates is valid.
    pub fn has_valid_templates(&self) -> (r: bool)
        ensures
            r == self.templates_valid(),
    {
        let mut i: usize = 0;
        while i < self.requirements.len()
            invariant
                i <= self.requirements@.len(),
                forall|k: int| 0 <= k < i ==> (#[trigger] self.requirements@[k]).due.wf(),
            decreases self.requirements@.len() - i,
        {
            let due = self.requirements[i].due;
            if due.hour > 23 || due.minute > 59 {
                return false;
            }
            i = i + 1;
        }
        let mut j: usize = 0;
        while j < self.locked_time_ranges.len()
            invariant
                j <= self.locked_time_ranges@.len(),
                forall|k: int| 0 <= k < self.requirements@.len() ==> (#[trigger] self.requirements@[k]).due.wf(),
                forall|k: int|
                    0 <= k < j ==> bound_valid((#[trigger] self.locked_time_ranges@[k]).start)
                        && bound_valid(self.locked_time_ranges@[k].end),
            decreases self.locked_time_ranges@.len() - j,
        {
            let template = self.locked_time_ranges[j];
            if !bound_is_valid(&template.start) || !bound_is_valid(&template.end) {
                return false;
            }
            j = j + 1;
        }
        true
    }
}

pub open spec fn minutes_fit(minutes: i64) -> bool {
    i64::MIN <= Duration::minutes_spec(minutes as int) <= i64::MAX
}

impl DiagonatorConfig {
    /// The manager's settings, with the durations in seconds; `None`
    /// where a duration in seconds does not fit in 64 bits.
    pub fn into_manager_config(self) -> (r: Option<DiagonatorManagerConfig>)
        ensures
            (minutes_fit(self.work_period_minutes) && minutes_fit(self.break_minutes)) == r is Some,
            r matches Some(c) ==> {
                &&& c.diagonator_command.0 == self.diagonator_path
                &&& c.diagonator_command.1@ == self.diagonator_args@
                &&& c.requirements@ == self.requirements@
                &&& c.locked_time_ranges@ == self.locked_time_ranges@
                &&& c.work_period_duration.0 == 60 * self.work_period_minutes
                &&& c.break_duration.0 == 60 * self.break_minutes
            },
    {
        if self.work_period_minutes < -153722867280912930 || self.work_period_minutes
            > 153722867280912930 || self.break_minutes < -153722867280912930 || self.break_minutes
            > 153722867280912930 {
            return None;
        }
        Some(
            DiagonatorManagerConfig {
                diagonator_command: (self.diagonator_path, self.diagonator_args),
                requirements: self.requirements,
                locked_time_ranges: self.locked_time_ranges,
                work_period_duration: Duration::from_minutes(self.work_period_minutes),
                break_duration: Duration::from_minutes(self.break_minutes),
            },
        )
    }
}

} // verus!

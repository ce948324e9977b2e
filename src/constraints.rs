use crate::break_timer::{BreakTimer, BreakTimerManager};
use crate::simulator::{
    simulate, CurrentState, CurrentStateReason, SimulatorError, SimulatorResult, Simulator,
    StateChange, StateChangeKind,
};
use crate::text::{decimal_text, push_decimal};
use crate::time::Timestamp;
use vstd::prelude::*;
use vstd::string::*;

verus! {

/// A task that locks the session once it is due and not complete.
#[derive(Clone, Debug, PartialEq, Eq)]
pub struct Requirement {
    pub id: u64,
    pub name: String,
    pub due: Timestamp,
    pub complete: bool,
}

/// A window during which the session is locked. An absent start means
/// the start of the timeline; an absent end means no scheduled end.
#[derive(Clone, Copy, Debug, PartialEq, Eq, Structural)]
pub struct TimeRange {
    pub id: u64,
    pub start: Option<Timestamp>,
    pub end: Option<Timestamp>,
}

/// What a refresh reports: the session state, when it next changes, why,
/// and a snapshot of the constraints.
#[derive(Clone, Debug)]
pub struct CurrentInfo {
    pub state: CurrentState,
    pub until: Option<Timestamp>,
    pub reason: CurrentStateReason,
    pub locked_time_ranges: Vec<TimeRange>,
    pub requirements: Vec<Requirement>,
}

impl CurrentInfo {
    pub open spec fn summary(&self) -> SimulatorResult {
        SimulatorResult { target_state: self.state, until: self.until, reason: self.reason }
    }
}

/// Why completing a requirement was refused.
#[derive(Clone, Copy, Debug, PartialEq, Eq, Structural)]
pub enum ConstraintError {
    NotFound(u64),
    AlreadyCompleted(u64),
}

impl ConstraintError {
    pub open spec fn message_spec(self) -> Seq<char> {
        match self {
            ConstraintError::NotFound(id) => "Requirement "@ + decimal_text(id as nat)
                + " not found."@,
            ConstraintError::AlreadyCompleted(id) => "Requirement "@ + decimal_text(id as nat)
                + " has already been completed."@,
        }
    }

    /// The user-visible text of the refusal.
    pub fn message(&self) -> (r: String)
        ensures
            r@ == self.message_spec(),
    {
        let mut s = String::from_str("Requirement ");
        match self {
            ConstraintError::NotFound(id) => {
                push_decimal(&mut s, *id);
                s.append(" not found.");
            },
            ConstraintError::AlreadyCompleted(id) => {
                push_decimal(&mut s, *id);
                s.append(" has already been completed.");
            },
        }
        s
    }
}

impl Requirement {
    /// An identical copy.
    pub fn duplicate(&self) -> (r: Requirement)
        ensures
            r == *self,
    {
        Requirement { id: self.id, name: self.name.clone(), due: self.due, complete: self.complete }
    }
}

/// The lock events of the incomplete requirements, in registry order.
pub open spec fn requirement_changes(reqs: Seq<Requirement>) -> Seq<StateChange>
    decreases reqs.len(),
{
    if reqs.len() == 0 {
        Seq::empty()
    } else {
        let last = reqs.last();
        let rest = requirement_changes(reqs.drop_last());
        if last.complete {
            rest
        } else {
            rest.push(StateChange { kind: StateChangeKind::RequirementLocked(last.id), time: last.due })
        }
    }
}

/// The events of one range: locked at its start (or the start of the
/// timeline), unlocked at its end if it has one.
pub open spec fn one_range_changes(r: TimeRange) -> Seq<StateChange> {
    let start = match r.start {
        Some(s) => s,
        None => Timestamp(0),
    };
    let locked = seq![StateChange { kind: StateChangeKind::RangeLocked(r.id), time: start }];
    match r.end {
        Some(e) => locked.push(StateChange { kind: StateChangeKind::RangeUnlocked(r.id), time: e }),
        None => locked,
    }
}

/// The events of the ranges, in registry order.
pub open spec fn range_changes(ranges: Seq<TimeRange>) -> Seq<StateChange>
    decreases ranges.len(),
{
    if ranges.len() == 0 {
        Seq::empty()
    } else {
        range_changes(ranges.drop_last()) + one_range_changes(ranges.last())
    }
}

/// The events of the break timer's phase.
pub open spec fn timer_changes(timer: BreakTimer) -> Seq<StateChange> {
    match timer {
        BreakTimer::Unlocked { until } => seq![
            StateChange { kind: StateChangeKind::BreakTimerLocked, time: until },
        ],
        BreakTimer::Locked { until } => seq![
            StateChange { kind: StateChangeKind::BreakTimerLocked, time: Timestamp(0) },
            StateChange { kind: StateChangeKind::BreakTimerUnlockable, time: until },
        ],
        BreakTimer::Unlockable => seq![
            StateChange { kind: StateChangeKind::BreakTimerUnlockable, time: Timestamp(0) },
        ],
    }
}

/// The whole feed: requirements first, ranges second, the break timer
/// last, which is the priority of reasons among events at the same time.
pub open spec fn feed_of(reqs: Seq<Requirement>, ranges: Seq<TimeRange>, timer: BreakTimer) -> Seq<
    StateChange,
> {
    requirement_changes(reqs) + range_changes(ranges) + timer_changes(timer)
}

/// `i` is the first position of a requirement with this id.
pub open spec fn first_with_id(reqs: Seq<Requirement>, id: u64, i: int) -> bool {
    0 <= i < reqs.len() && reqs[i].id == id && forall|k: int| 0 <= k < i ==> reqs[k].id != id
}

/// The result of completing requirement `id` in `reqs`.
pub open spec fn completion(reqs: Seq<Requirement>, id: u64) -> Result<Seq<Requirement>, ConstraintError> {
    if exists|i: int| first_with_id(reqs, id, i) {
        let i = choose|i: int| first_with_id(reqs, id, i);
        if reqs[i].complete {
            Err(ConstraintError::AlreadyCompleted(id))
        } else {
            Ok(reqs.update(i, Requirement { complete: true, ..reqs[i] }))
        }
    } else {
        Err(ConstraintError::NotFound(id))
    }
}

/// The day's requirements and locked ranges, with the break timer.
pub struct Constraints {
    pub break_timer: BreakTimerManager,
    pub requirements: Vec<Requirement>,
    pub locked_time_ranges: Vec<TimeRange>,
}

fn copy_requirements(v: &Vec<Requirement>) -> (r: Vec<Requirement>)
    ensures
        r@ == v@,
{
    let mut out: Vec<Requirement> = Vec::new();
    let mut i: usize = 0;
    while i < v.len()
        invariant
            i <= v@.len(),
            out@ == v@.subrange(0, i as int),
        decreases v@.len() - i,
    {
        out.push(v[i].duplicate());
        i = i + 1;
    }
    assert(out@ =~= v@);
    out
}

fn copy_ranges(v: &Vec<TimeRange>) -> (r: Vec<TimeRange>)
    ensures
        r@ == v@,
{
    let mut out: Vec<TimeRange> = Vec::new();
    let mut i: usize = 0;
    while i < v.len()
        invariant
            i <= v@.len(),
            out@ == v@.subrange(0, i as int),
        decreases v@.len() - i,
    {
        out.push(v[i]);
        i = i + 1;
    }
    assert(out@ =~= v@);
    out
}

impl Constraints {
    /// Refreshes the break timer, then simulates the constraints at
    /// `current_time`.
    pub fn get_current_info(&mut self, current_time: Timestamp) -> (r: Result<
        CurrentInfo,
        SimulatorError,
    >)
        requires
            old(self).break_timer.wf(),
        ensures
            final(self).break_timer.timer == old(self).break_timer.advanced(current_time),
            final(self).break_timer.work_period_duration
                == old(self).break_timer.work_period_duration,
            final(self).break_timer.break_duration == old(self).break_timer.break_duration,
            final(self).break_timer.wf(),
            final(self).requirements@ == old(self).requirements@,
            final(self).locked_time_ranges@ == old(self).locked_time_ranges@,
            match simulate(
                feed_of(
                    old(self).requirements@,
                    old(self).locked_time_ranges@,
                    final(self).break_timer.timer,
                ),
                current_time.0,
            ) {
                Ok(res) => r matches Ok(info) && info.summary() == res && info.requirements@ == old(
                    self,
                ).requirements@ && info.locked_time_ranges@ == old(self).locked_time_ranges@,
                Err(e) => r == Err::<CurrentInfo, SimulatorError>(e),
            },
    {
        self.break_timer.refresh(current_time);
        let mut simulator = Simulator::new();
        let ghost reqs = self.requirements@;
        let ghost ranges = self.locked_time_ranges@;
        let mut i: usize = 0;
        while i < self.requirements.len()
            invariant
                reqs == self.requirements@,
                i <= reqs.len(),
                simulator.view() == requirement_changes(reqs.subrange(0, i as int)),
            decreases reqs.len() - i,
        {
            let requirement = &self.requirements[i];
            proof {
                assert(reqs.subrange(0, i as int + 1).drop_last() =~= reqs.subrange(0, i as int));
            }
            if !requirement.complete {
                simulator.push(
                    StateChange {
                        kind: StateChangeKind::RequirementLocked(requirement.id),
                        time: requirement.due,
                    },
                );
            }
            i = i + 1;
        }
        proof {
            assert(reqs.subrange(0, reqs.len() as int) =~= reqs);
            assert(ranges.subrange(0, 0) =~= Seq::<TimeRange>::empty());
            assert(requirement_changes(reqs) + range_changes(Seq::<TimeRange>::empty())
                =~= requirement_changes(reqs));
        }
        let mut j: usize = 0;
        while j < self.locked_time_ranges.len()
            invariant
                reqs == self.requirements@,
                ranges == self.locked_time_ranges@,
                j <= ranges.len(),
                simulator.view() == requirement_changes(reqs) + range_changes(
                    ranges.subrange(0, j as int),
                ),
            decreases ranges.len() - j,
        {
            let ltr = self.locked_time_ranges[j];
            let start = match ltr.start {
                Some(s) => s,
                None => Timestamp::zero(),
            };
            simulator.push(StateChange { kind: StateChangeKind::RangeLocked(ltr.id), time: start });
            if let Some(ltr_end) = ltr.end {
                simulator.push(
                    StateChange { kind: StateChangeKind::RangeUnlocked(ltr.id), time: ltr_end },
                );
            }
            proof {
                assert(ranges.subrange(0, j as int + 1).drop_last() =~= ranges.subrange(
                    0,
                    j as int,
                ));
                assert(simulator.view() =~= requirement_changes(reqs) + range_changes(
                    ranges.subrange(0, j as int + 1),
                ));
            }
            j = j + 1;
        }
        proof {
            assert(ranges.subrange(0, ranges.len() as int) =~= ranges);
        }
        let ghost before_timer = simulator.view();
        match self.break_timer.timer {
            BreakTimer::Unlocked { until } => {
                simulator.push(StateChange { kind: StateChangeKind::BreakTimerLocked, time: until });
            },
            BreakTimer::Locked { until } => {
                simulator.push(
                    StateChange { kind: StateChangeKind::BreakTimerLocked, time: Timestamp::zero() },
                );
                simulator.push(
                    StateChange { kind: StateChangeKind::BreakTimerUnlockable, time: until },
                );
            },
            BreakTimer::Unlockable => {
                simulator.push(
                    StateChange {
                        kind: StateChangeKind::BreakTimerUnlockable,
                        time: Timestamp::zero(),
                    },
                );
            },
        }
        proof {
            assert(simulator.view() =~= feed_of(reqs, ranges, self.break_timer.timer));
        }
        let result = simulator.run(current_time);
        match result {
            Ok(res) => Ok(
                CurrentInfo {
                    state: res.target_state,
                    until: res.until,
                    reason: res.reason,
                    locked_time_ranges: copy_ranges(&self.locked_time_ranges),
                    requirements: copy_requirements(&self.requirements),
                },
            ),
            Err(e) => Err(e),
        }
    }

    /// Marks requirement `id` complete; an unknown or already complete
    /// requirement is refused.
    pub fn complete_requirement(&mut self, id: u64) -> (r: Result<(), ConstraintError>)
        ensures
            final(self).break_timer == old(self).break_timer,
            final(self).locked_time_ranges@ == old(self).locked_time_ranges@,
            match completion(old(self).requirements@, id) {
                Ok(reqs) => r is Ok && final(self).requirements@ == reqs,
                Err(e) => r == Err::<(), ConstraintError>(e) && final(self).requirements@ == old(
                    self,
                ).requirements@,
            },
    {
        let ghost reqs = self.requirements@;
        let mut i: usize = 0;
        while i < self.requirements.len()
            invariant
                reqs == self.requirements@,
                reqs == old(self).requirements@,
                self.break_timer == old(self).break_timer,
                self.locked_time_ranges@ == old(self).locked_time_ranges@,
                i <= reqs.len(),
                forall|k: int| 0 <= k < i ==> reqs[k].id != id,
            decreases reqs.len() - i,
        {
            if self.requirements[i].id == id {
                proof {
                    assert(first_with_id(reqs, id, i as int));
                    let c = choose|c: int| first_with_id(reqs, id, c);
                    assert(c == i as int);
                }
                if !self.requirements[i].complete {
                    self.requirements[i].complete = true;
                    proof {
                        assert(self.requirements@ =~= reqs.update(
                            i as int,
                            Requirement { complete: true, ..reqs[i as int] },
                        ));
                    }
                    return Ok(());
                } else {
                    return Err(ConstraintError::AlreadyCompleted(id));
                }
            }
            i = i + 1;
        }
        assert(!exists|c: int| first_with_id(reqs, id, c));
        Err(ConstraintError::NotFound(id))
    }
}


/// The requirement at `j` is incomplete and due by `t`.
pub open spec fn overdue(reqs: Seq<Requirement>, j: int, t: i64) -> bool {
    0 <= j < reqs.len() && !reqs[j].complete && reqs[j].due.0 <= t
}

proof fn lemma_requirement_changes(reqs: Seq<Requirement>)
    ensures
        forall|k: int|
            0 <= k < requirement_changes(reqs).len() ==> exists|j: int|
                0 <= j < reqs.len() && !reqs[j].complete && (#[trigger] requirement_changes(
                    reqs,
                )[k]) == (StateChange {
                    kind: StateChangeKind::RequirementLocked(reqs[j].id),
                    time: reqs[j].due,
                }),
        forall|j: int|
            0 <= j < reqs.len() && !(#[trigger] reqs[j]).complete ==> requirement_changes(
                reqs,
            ).contains(
                (StateChange {
                    kind: StateChangeKind::RequirementLocked(reqs[j].id),
                    time: reqs[j].due,
                }),
            ),
    decreases reqs.len(),
{
    if reqs.len() > 0 {
        let p = reqs.drop_last();
        lemma_requirement_changes(p);
        let rest = requirement_changes(p);
        let all = requirement_changes(reqs);
        assert forall|k: int| 0 <= k < all.len() implies exists|j: int|
            0 <= j < reqs.len() && !reqs[j].complete && (#[trigger] all[k]) == (StateChange {
                kind: StateChangeKind::RequirementLocked(reqs[j].id),
                time: reqs[j].due,
            }) by {
            if k < rest.len() {
                assert(all[k] == rest[k]);
                let j = choose|j: int|
                    0 <= j < p.len() && !p[j].complete && (#[trigger] rest[k]) == (StateChange {
                        kind: StateChangeKind::RequirementLocked(p[j].id),
                        time: p[j].due,
                    });
                assert(reqs[j] == p[j]);
            } else {
                assert(!reqs.last().complete);
                assert(reqs[reqs.len() - 1] == reqs.last());
            }
        }
        assert forall|j: int| 0 <= j < reqs.len() && !(#[trigger] reqs[j]).complete implies all.contains(
            (StateChange {
                kind: StateChangeKind::RequirementLocked(reqs[j].id),
                time: reqs[j].due,
            }),
        ) by {
            let c = StateChange { kind: StateChangeKind::RequirementLocked(reqs[j].id), time: reqs[j].due };
            if j < p.len() {
                assert(reqs[j] == p[j]);
                assert(rest.contains(c));
                let k = choose|k: int| 0 <= k < rest.len() && rest[k] == c;
                assert(all[k] == c);
            } else {
                assert(all[all.len() - 1] == c);
            }
        }
    }
}

proof fn lemma_range_changes_have_no_requirements(ranges: Seq<TimeRange>)
    ensures
        forall|k: int|
            0 <= k < range_changes(ranges).len() ==> ((#[trigger] range_changes(ranges)[k]).kind is RangeLocked
                || range_changes(ranges)[k].kind is RangeUnlocked),
    decreases ranges.len(),
{
    if ranges.len() > 0 {
        lemma_range_changes_have_no_requirements(ranges.drop_last());
        let rest = range_changes(ranges.drop_last());
        let one = one_range_changes(ranges.last());
        assert forall|k: int| 0 <= k < range_changes(ranges).len() implies ((#[trigger] range_changes(
            ranges,
        )[k]).kind is RangeLocked || range_changes(ranges)[k].kind is RangeUnlocked) by {
            if k < rest.len() {
                assert(range_changes(ranges)[k] == rest[k]);
            } else {
                assert(range_changes(ranges)[k] == one[k - rest.len()]);
            }
        }
    }
}

/// When an incomplete requirement is due by `t` and the simulation of the
/// registry succeeds, the session is locked with no scheduled change, and
/// the reason is an unmet requirement that is incomplete and due by `t`:
/// the first requirement lock in time order. Neither a range nor the
/// break timer is credited.
pub proof fn lemma_overdue_requirement_is_reason(
    reqs: Seq<Requirement>,
    ranges: Seq<TimeRange>,
    timer: BreakTimer,
    t: i64,
)
    requires
        exists|j: int| overdue(reqs, j, t),
        simulate(feed_of(reqs, ranges, timer), t) is Ok,
    ensures
        ({
            let r = simulate(feed_of(reqs, ranges, timer), t)->Ok_0;
            &&& r.target_state == CurrentState::Locked
            &&& r.until is None
            &&& r.reason is RequirementNotMet
            &&& exists|j: int|
                overdue(reqs, j, t) && reqs[j].id == r.reason->RequirementNotMet_id
        }),
        crate::simulator::credits_first_requirement(
            simulate(feed_of(reqs, ranges, timer), t),
            crate::simulator::sort_by_time(feed_of(reqs, ranges, timer)),
        ),
{
    let feed = feed_of(reqs, ranges, timer);
    let rc = requirement_changes(reqs);
    let gc = range_changes(ranges);
    let tc = timer_changes(timer);
    lemma_requirement_changes(reqs);
    lemma_range_changes_have_no_requirements(ranges);
    let j = choose|j: int| overdue(reqs, j, t);
    let c = StateChange { kind: StateChangeKind::RequirementLocked(reqs[j].id), time: reqs[j].due };
    assert(rc.contains(c));
    let k = choose|k: int| 0 <= k < rc.len() && rc[k] == c;
    assert(feed[k] == c);
    assert(feed[k].kind is RequirementLocked && feed[k].time.0 <= t);
    assert(crate::simulator::some_requirement_due_by(feed, t));
    crate::simulator::lemma_due_requirement_is_reason(feed, t);
    let r = simulate(feed, t)->Ok_0;
    let id = r.reason->RequirementNotMet_id;
    let m = choose|m: int|
        0 <= m < feed.len() && #[trigger] feed[m].kind == StateChangeKind::RequirementLocked(id)
            && feed[m].time.0 <= t;
    if m < rc.len() {
        assert(feed[m] == rc[m]);
        let j2 = choose|j2: int|
            0 <= j2 < reqs.len() && !reqs[j2].complete && (#[trigger] rc[m]) == (StateChange {
                kind: StateChangeKind::RequirementLocked(reqs[j2].id),
                time: reqs[j2].due,
            });
        assert(overdue(reqs, j2, t));
    } else if m < rc.len() + gc.len() {
        assert(feed[m] == gc[m - rc.len()]);
    } else {
        assert(feed[m] == tc[m - rc.len() - gc.len()]);
    }
}

/// Completing a requirement succeeds at most once: after a success, the
/// same id is refused as already completed.
pub proof fn lemma_completion_once(reqs: Seq<Requirement>, id: u64)
    requires
        completion(reqs, id) is Ok,
    ensures
        completion(completion(reqs, id)->Ok_0, id) == Err::<Seq<Requirement>, ConstraintError>(
            ConstraintError::AlreadyCompleted(id),
        ),
{
    let i = choose|i: int| first_with_id(reqs, id, i);
    let after = completion(reqs, id)->Ok_0;
    assert(first_with_id(after, id, i));
    let c = choose|c: int| first_with_id(after, id, c);
    if c < i {
        assert(after[c] == reqs[c]);
    } else if c > i {
        assert(after[i].id == id);
    }
}


/// A break timer that is not unlockable, and whose break (if any) ends
/// after `t`, cannot leave the session unlockable at `t`: an unlockable
/// session has an unlockable break timer.
pub proof fn lemma_unlockable_session_has_unlockable_timer(
    reqs: Seq<Requirement>,
    ranges: Seq<TimeRange>,
    timer: BreakTimer,
    t: i64,
)
    requires
        timer matches BreakTimer::Locked { until } ==> until.0 > t,
        simulate(feed_of(reqs, ranges, timer), t) matches Ok(r) && r.target_state
            == CurrentState::Unlockable,
    ensures
        timer is Unlockable,
{
    if !(timer is Unlockable) {
        let feed = feed_of(reqs, ranges, timer);
        let rc = requirement_changes(reqs);
        let gc = range_changes(ranges);
        let tc = timer_changes(timer);
        lemma_requirement_changes(reqs);
        lemma_range_changes_have_no_requirements(ranges);
        assert forall|k: int|
            0 <= k < feed.len() && (#[trigger] feed[k].kind) == StateChangeKind::BreakTimerUnlockable
                implies feed[k].time.0 > t by {
            if k < rc.len() {
                assert(feed[k] == rc[k]);
                let j = choose|j: int|
                    0 <= j < reqs.len() && !reqs[j].complete && (#[trigger] rc[k]) == (StateChange {
                        kind: StateChangeKind::RequirementLocked(reqs[j].id),
                        time: reqs[j].due,
                    });
            } else if k < rc.len() + gc.len() {
                assert(feed[k] == gc[k - rc.len()]);
            } else {
                assert(feed[k] == tc[k - rc.len() - gc.len()]);
            }
        }
        crate::simulator::lemma_unlockable_needs_event(feed, t);
    }
}

/// At a time not before the start of the timeline, an unlocked session
/// has a break timer in a work period.
pub proof fn lemma_unlocked_session_has_unlocked_timer(
    reqs: Seq<Requirement>,
    ranges: Seq<TimeRange>,
    timer: BreakTimer,
    t: i64,
)
    requires
        t >= 0,
        simulate(feed_of(reqs, ranges, timer), t) matches Ok(r) && r.target_state
            == CurrentState::Unlocked,
    ensures
        timer is Unlocked,
{
    if !(timer is Unlocked) {
        let feed = feed_of(reqs, ranges, timer);
        let n = (requirement_changes(reqs).len() + range_changes(ranges).len()) as int;
        assert(feed[n] == timer_changes(timer)[0]);
        assert(feed[n].kind is BreakTimerLocked || feed[n].kind is BreakTimerUnlockable);
        crate::simulator::lemma_timer_event_not_unlocked(feed, t);
    }
}

} // verus!

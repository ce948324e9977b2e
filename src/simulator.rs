use crate::time::Timestamp;
use vstd::prelude::*;

verus! {

/// The session state as the user sees it.
#[derive(Clone, Copy, Debug, PartialEq, Eq, Structural)]
pub enum CurrentState {
    Unlocked,
    Locked,
    Unlockable,
}

/// The one constraint credited for the session state.
#[derive(Clone, Copy, Debug, PartialEq, Eq, Structural)]
pub enum CurrentStateReason {
    BreakTimer,
    RequirementNotMet { id: u64 },
    LockedTimeRange { id: u64 },
    NoConstraints,
}

/// What happens at a state change.
#[derive(Clone, Copy, Debug, PartialEq, Eq, Structural)]
pub enum StateChangeKind {
    BreakTimerUnlockable,
    BreakTimerLocked,
    RangeLocked(u64),
    RangeUnlocked(u64),
    RequirementLocked(u64),
}

/// A timestamped event of the simulation.
#[derive(Clone, Copy, Debug, PartialEq, Eq, Structural)]
pub struct StateChange {
    pub kind: StateChangeKind,
    pub time: Timestamp,
}

/// An inconsistent event feed.
#[derive(Clone, Copy, Debug, PartialEq, Eq, Structural)]
pub enum SimulatorError {
    /// A range was unlocked that was not locked.
    LockNotFound(u64),
    /// A range or requirement was locked twice.
    DuplicateLock(u64),
}

/// The state at the target time, when it next changes, and why.
#[derive(Clone, Copy, Debug, PartialEq, Eq, Structural)]
pub struct SimulatorResult {
    pub target_state: CurrentState,
    pub until: Option<Timestamp>,
    pub reason: CurrentStateReason,
}

/// The active locks of one kind, in the order they were taken.
pub struct Locks {
    locks: Vec<u64>,
}

/// The sequence without the first occurrence of `id`.
pub open spec fn without(s: Seq<u64>, id: u64) -> Seq<u64>
    decreases s.len(),
{
    if s.len() == 0 {
        s
    } else if s[0] == id {
        s.drop_first()
    } else {
        seq![s[0]].add(without(s.drop_first(), id))
    }
}

proof fn lemma_without_at(s: Seq<u64>, id: u64, i: int)
    requires
        0 <= i < s.len(),
        s[i] == id,
        forall|k: int| 0 <= k < i ==> s[k] != id,
    ensures
        without(s, id) == s.remove(i),
    decreases s.len(),
{
    if i == 0 {
        assert(s.remove(0) =~= s.drop_first());
    } else {
        let t = s.drop_first();
        assert forall|k: int| 0 <= k < i - 1 implies t[k] != id by {
            assert(t[k] == s[k + 1]);
        }
        lemma_without_at(t, id, i - 1);
        assert(s.remove(i) =~= seq![s[0]].add(t.remove(i - 1)));
    }
}

impl Locks {
    pub closed spec fn view(&self) -> Seq<u64> {
        self.locks@
    }

    pub fn new() -> (r: Locks)
        ensures
            r.view() == Seq::<u64>::empty(),
    {
        Locks { locks: Vec::new() }
    }

    fn position(&self, id: u64) -> (r: Option<usize>)
        ensures
            r matches Some(i) ==> i < self.view().len() && self.view()[i as int] == id && forall|
                k: int,
            | 0 <= k < i ==> self.view()[k] != id,
            r is None ==> !self.view().contains(id),
    {
        let mut i: usize = 0;
        while i < self.locks.len()
            invariant
                i <= self.locks@.len(),
                forall|k: int| 0 <= k < i ==> self.locks@[k] != id,
            decreases self.locks@.len() - i,
        {
            if self.locks[i] == id {
                return Some(i);
            }
            i = i + 1;
        }
        None
    }

    /// Takes the lock `id`; an id that is already held is refused.
    pub fn add_lock(&mut self, id: u64) -> (r: Result<(), SimulatorError>)
        ensures
            old(self).view().contains(id) ==> r == Err::<(), SimulatorError>(
                SimulatorError::DuplicateLock(id),
            ) && final(self).view() == old(self).view(),
            !old(self).view().contains(id) ==> r is Ok && final(self).view() == old(
                self,
            ).view().push(id),
    {
        match self.position(id) {
            Some(_) => Err(SimulatorError::DuplicateLock(id)),
            None => {
                self.locks.push(id);
                Ok(())
            },
        }
    }

    /// Releases the lock `id`; an id that is not held is refused.
    pub fn unlock(&mut self, id: u64) -> (r: Result<(), SimulatorError>)
        ensures
            !old(self).view().contains(id) ==> r == Err::<(), SimulatorError>(
                SimulatorError::LockNotFound(id),
            ) && final(self).view() == old(self).view(),
            old(self).view().contains(id) ==> r is Ok && final(self).view() == without(
                old(self).view(),
                id,
            ),
    {
        match self.position(id) {
            Some(i) => {
                proof {
                    lemma_without_at(self.locks@, id, i as int);
                }
                self.locks.remove(i);
                Ok(())
            },
            None => Err(SimulatorError::LockNotFound(id)),
        }
    }

    pub fn is_empty(&self) -> (r: bool)
        ensures
            r == (self.view().len() == 0),
    {
        self.locks.len() == 0
    }

    /// The lock taken earliest among those still held.
    pub fn first(&self) -> (r: Option<u64>)
        ensures
            r == (if self.view().len() == 0 {
                None
            } else {
                Some(self.view()[0])
            }),
    {
        if self.locks.len() == 0 {
            None
        } else {
            Some(self.locks[0])
        }
    }
}

/// The three parallel sub-states of the simulation.
pub struct SimState {
    pub ranges: Seq<u64>,
    pub requirements: Seq<u64>,
    pub timer: CurrentState,
}

pub open spec fn initial_sim_state() -> SimState {
    SimState { ranges: Seq::empty(), requirements: Seq::empty(), timer: CurrentState::Unlocked }
}

/// Any active range or requirement locks the session; otherwise the break
/// timer decides.
pub open spec fn composed(ranges_empty: bool, requirements_empty: bool, timer: CurrentState) -> CurrentState {
    if ranges_empty && requirements_empty {
        timer
    } else {
        CurrentState::Locked
    }
}

pub open spec fn composed_state(st: SimState) -> CurrentState {
    composed(st.ranges.len() == 0, st.requirements.len() == 0, st.timer)
}

/// The effect of one event on the sub-states.
pub open spec fn apply_change(st: SimState, kind: StateChangeKind) -> Result<SimState, SimulatorError> {
    match kind {
        StateChangeKind::BreakTimerUnlockable => Ok(SimState { timer: CurrentState::Unlockable, ..st }),
        StateChangeKind::BreakTimerLocked => Ok(SimState { timer: CurrentState::Locked, ..st }),
        StateChangeKind::RangeLocked(id) => if st.ranges.contains(id) {
            Err(SimulatorError::DuplicateLock(id))
        } else {
            Ok(SimState { ranges: st.ranges.push(id), ..st })
        },
        StateChangeKind::RangeUnlocked(id) => if st.ranges.contains(id) {
            Ok(SimState { ranges: without(st.ranges, id), ..st })
        } else {
            Err(SimulatorError::LockNotFound(id))
        },
        StateChangeKind::RequirementLocked(id) => if st.requirements.contains(id) {
            Err(SimulatorError::DuplicateLock(id))
        } else {
            Ok(SimState { requirements: st.requirements.push(id), ..st })
        },
    }
}

/// The reason credited to an event that changes the state.
pub open spec fn reason_of_kind(kind: StateChangeKind) -> CurrentStateReason {
    match kind {
        StateChangeKind::BreakTimerUnlockable | StateChangeKind::BreakTimerLocked => {
            CurrentStateReason::BreakTimer
        },
        StateChangeKind::RangeLocked(id) | StateChangeKind::RangeUnlocked(id) => {
            CurrentStateReason::LockedTimeRange { id }
        },
        StateChangeKind::RequirementLocked(id) => CurrentStateReason::RequirementNotMet { id },
    }
}

/// The reason for a state with no scheduled change.
pub open spec fn settled_reason(st: SimState, state: CurrentState) -> CurrentStateReason {
    match state {
        CurrentState::Unlocked => CurrentStateReason::NoConstraints,
        CurrentState::Unlockable => CurrentStateReason::BreakTimer,
        CurrentState::Locked => if st.requirements.len() > 0 {
            CurrentStateReason::RequirementNotMet { id: st.requirements[0] }
        } else if st.ranges.len() > 0 {
            CurrentStateReason::LockedTimeRange { id: st.ranges[0] }
        } else {
            CurrentStateReason::BreakTimer
        },
    }
}

/// Walks time-ordered events from index `i`, with sub-states `st` and the
/// state `observed` as of the target time, up to the first event after the
/// target time that changes the state.
pub open spec fn scan(
    evs: Seq<StateChange>,
    i: int,
    st: SimState,
    observed: CurrentState,
    target: i64,
) -> Result<SimulatorResult, SimulatorError>
    decreases evs.len() - i,
{
    if i < 0 || i >= evs.len() {
        Ok(SimulatorResult { target_state: observed, until: None, reason: settled_reason(st, observed) })
    } else {
        match apply_change(st, evs[i].kind) {
            Err(e) => Err(e),
            Ok(next) => {
                let after = composed_state(next);
                if observed != after && evs[i].time.0 > target {
                    Ok(
                        SimulatorResult {
                            target_state: observed,
                            until: Some(evs[i].time),
                            reason: reason_of_kind(evs[i].kind),
                        },
                    )
                } else {
                    scan(evs, i + 1, next, after, target)
                }
            },
        }
    }
}

/// Places `c` after every event of `sorted` that is not later than it.
pub open spec fn insert_by_time(sorted: Seq<StateChange>, c: StateChange) -> Seq<StateChange>
    decreases sorted.len(),
{
    if sorted.len() == 0 {
        seq![c]
    } else if sorted.last().time.0 <= c.time.0 {
        sorted.push(c)
    } else {
        insert_by_time(sorted.drop_last(), c).push(sorted.last())
    }
}

/// The events ordered by time, events of equal time kept in feed order.
pub open spec fn sort_by_time(s: Seq<StateChange>) -> Seq<StateChange>
    decreases s.len(),
{
    if s.len() == 0 {
        s
    } else {
        insert_by_time(sort_by_time(s.drop_last()), s.last())
    }
}

pub open spec fn time_ordered(s: Seq<StateChange>) -> bool {
    forall|i: int, j: int| 0 <= i < j < s.len() ==> s[i].time.0 <= s[j].time.0
}

/// The simulation of a feed at a target time.
pub open spec fn simulate(feed: Seq<StateChange>, target: i64) -> Result<SimulatorResult, SimulatorError> {
    scan(sort_by_time(feed), 0, initial_sim_state(), CurrentState::Unlocked, target)
}

proof fn lemma_insert_at(s: Seq<StateChange>, c: StateChange, j: int)
    requires
        0 <= j <= s.len(),
        forall|k: int| j <= k < s.len() ==> s[k].time.0 > c.time.0,
        j == 0 || s[j - 1].time.0 <= c.time.0,
    ensures
        insert_by_time(s, c) == s.insert(j, c),
    decreases s.len(),
{
    if s.len() == 0 {
        assert(s.insert(0, c) =~= seq![c]);
    } else if s.last().time.0 <= c.time.0 {
        assert(s.insert(j, c) =~= s.push(c));
    } else {
        lemma_insert_at(s.drop_last(), c, j);
        assert(s.insert(j, c) =~= s.drop_last().insert(j, c).push(s.last()));
    }
}

proof fn lemma_insert_keeps_order(s: Seq<StateChange>, c: StateChange)
    requires
        time_ordered(s),
    ensures
        time_ordered(insert_by_time(s, c)),
        insert_by_time(s, c).to_multiset() == s.to_multiset().insert(c),
        insert_by_time(s, c).len() == s.len() + 1,
    decreases s.len(),
{
    broadcast use vstd::seq_lib::group_to_multiset_ensures;

    if s.len() == 0 {
        assert(seq![c] =~= Seq::<StateChange>::empty().push(c));
    } else if s.last().time.0 <= c.time.0 {
    } else {
        let p = s.drop_last();
        lemma_insert_keeps_order(p, c);
        let q = insert_by_time(p, c);
        assert(s =~= p.push(s.last()));
        assert forall|i: int, j: int| 0 <= i < j < q.len() + 1 implies q.push(s.last())[i].time.0
            <= q.push(s.last())[j].time.0 by {
            if j == q.len() {
                // every element of q is an element of p or c, and none is later than s.last()
                assert(q.to_multiset().count(q[i]) > 0);
                assert(p.to_multiset().insert(c).count(q[i]) > 0);
                if q[i] != c {
                    assert(p.to_multiset().count(q[i]) > 0);
                    assert(p.contains(q[i]));
                    let k = choose|k: int| 0 <= k < p.len() && p[k] == q[i];
                    assert(s[k] == p[k]);
                }
            }
        }
    }
}

/// The sorted feed is ordered by time and holds the same events.
pub proof fn lemma_sort_by_time(s: Seq<StateChange>)
    ensures
        time_ordered(sort_by_time(s)),
        sort_by_time(s).to_multiset() == s.to_multiset(),
        sort_by_time(s).len() == s.len(),
    decreases s.len(),
{
    broadcast use vstd::seq_lib::group_to_multiset_ensures;

    if s.len() > 0 {
        lemma_sort_by_time(s.drop_last());
        lemma_insert_keeps_order(sort_by_time(s.drop_last()), s.last());
        assert(s =~= s.drop_last().push(s.last()));
    }
}

proof fn lemma_scan_until_after(
    evs: Seq<StateChange>,
    i: int,
    st: SimState,
    observed: CurrentState,
    target: i64,
)
    ensures
        scan(evs, i, st, observed, target) matches Ok(r) ==> (r.until matches Some(u) ==> u.0
            > target),
    decreases evs.len() - i,
{
    if 0 <= i < evs.len() {
        if let Ok(next) = apply_change(st, evs[i].kind) {
            lemma_scan_until_after(evs, i + 1, next, composed_state(next), target);
        }
    }
}

/// A scheduled change always lies strictly after the target time.
pub proof fn lemma_until_after_target(feed: Seq<StateChange>, target: i64)
    ensures
        simulate(feed, target) matches Ok(r) ==> (r.until matches Some(u) ==> u.0 > target),
{
    lemma_scan_until_after(sort_by_time(feed), 0, initial_sim_state(), CurrentState::Unlocked, target);
}

proof fn lemma_scan_stable(
    evs: Seq<StateChange>,
    i: int,
    st: SimState,
    observed: CurrentState,
    target: i64,
    later: i64,
)
    requires
        scan(evs, i, st, observed, target) matches Ok(r) && r.until matches Some(u) && target
            <= later < u.0,
    ensures
        scan(evs, i, st, observed, later) == scan(evs, i, st, observed, target),
    decreases evs.len() - i,
{
    if 0 <= i < evs.len() {
        if let Ok(next) = apply_change(st, evs[i].kind) {
            let after = composed_state(next);
            if !(observed != after && evs[i].time.0 > target) {
                lemma_scan_stable(evs, i + 1, next, after, target, later);
            }
        }
    }
}

/// Until the scheduled change, evaluating the same feed at any later
/// target time gives the same result: the same state, change time and
/// reason.
pub proof fn lemma_stable_until_change(feed: Seq<StateChange>, target: i64, later: i64)
    requires
        simulate(feed, target) matches Ok(r) && r.until matches Some(u) && target <= later < u.0,
    ensures
        simulate(feed, later) == simulate(feed, target),
{
    lemma_scan_stable(sort_by_time(feed), 0, initial_sim_state(), CurrentState::Unlocked, target, later);
}

/// The feed holds a requirement lock for `id` that falls due by `target`.
pub open spec fn requirement_due_by(feed: Seq<StateChange>, id: u64, target: i64) -> bool {
    exists|k: int|
        0 <= k < feed.len() && #[trigger] feed[k].kind == StateChangeKind::RequirementLocked(id)
            && feed[k].time.0 <= target
}

pub open spec fn some_requirement_due_by(feed: Seq<StateChange>, target: i64) -> bool {
    exists|k: int|
        0 <= k < feed.len() && (#[trigger] feed[k].kind) is RequirementLocked && feed[k].time.0
            <= target
}

/// The session is locked, crediting a requirement due by the target time.
pub open spec fn credits_due_requirement(
    res: Result<SimulatorResult, SimulatorError>,
    feed: Seq<StateChange>,
    target: i64,
) -> bool {
    match res {
        Ok(r) => r.target_state == CurrentState::Locked && match r.reason {
            CurrentStateReason::RequirementNotMet { id } => requirement_due_by(feed, id, target),
            _ => false,
        },
        Err(_) => false,
    }
}

/// The first requirement lock of the time-ordered events is the one for `id`.
pub open spec fn first_requirement_lock(evs: Seq<StateChange>, id: u64) -> bool {
    exists|j: int|
        0 <= j < evs.len() && #[trigger] evs[j].kind == StateChangeKind::RequirementLocked(id)
            && forall|k: int| 0 <= k < j ==> !((#[trigger] evs[k].kind) is RequirementLocked)
}

/// No change is scheduled, and the credited requirement is the first
/// requirement lock of the time-ordered events.
pub open spec fn credits_first_requirement(
    res: Result<SimulatorResult, SimulatorError>,
    evs: Seq<StateChange>,
) -> bool {
    match res {
        Ok(r) => r.until is None && match r.reason {
            CurrentStateReason::RequirementNotMet { id } => first_requirement_lock(evs, id),
            _ => false,
        },
        Err(_) => false,
    }
}

proof fn lemma_scan_requirement_first(
    evs: Seq<StateChange>,
    i: int,
    st: SimState,
    observed: CurrentState,
    target: i64,
)
    requires
        0 <= i <= evs.len(),
        time_ordered(evs),
        scan(evs, i, st, observed, target) is Ok,
        ({
            ||| st.requirements.len() > 0 && observed == CurrentState::Locked
                && requirement_due_by(evs, st.requirements[0], target)
                && first_requirement_lock(evs, st.requirements[0])
            ||| st.requirements.len() == 0 && (exists|k: int|
                i <= k < evs.len() && (#[trigger] evs[k].kind) is RequirementLocked
                    && evs[k].time.0 <= target) && (forall|k: int|
                0 <= k < i ==> !((#[trigger] evs[k].kind) is RequirementLocked))
        }),
    ensures
        credits_due_requirement(scan(evs, i, st, observed, target), evs, target),
        credits_first_requirement(scan(evs, i, st, observed, target), evs),
    decreases evs.len() - i,
{
    if i < evs.len() {
        let next = apply_change(st, evs[i].kind)->Ok_0;
        let after = composed_state(next);
        if st.requirements.len() > 0 {
            assert(next.requirements.len() > 0 && next.requirements[0] == st.requirements[0]);
            lemma_scan_requirement_first(evs, i + 1, next, after, target);
        } else {
            let k = choose|k: int|
                i <= k < evs.len() && (#[trigger] evs[k].kind) is RequirementLocked
                    && evs[k].time.0 <= target;
            assert(evs[i].time.0 <= evs[k].time.0);
            if evs[i].kind is RequirementLocked {
                let id = evs[i].kind->RequirementLocked_0;
                assert(next.requirements =~= seq![id]);
                assert(requirement_due_by(evs, id, target));
                assert(first_requirement_lock(evs, id));
            } else {
                assert(k != i);
                assert forall|k2: int| 0 <= k2 < i + 1 implies !((#[trigger] evs[k2].kind) is RequirementLocked) by {
                    if k2 < i {
                    }
                }
            }
            lemma_scan_requirement_first(evs, i + 1, next, after, target);
        }
    }
}

/// When a requirement lock in the feed falls due by the target time and
/// the simulation succeeds, the session is locked and the reason is an
/// unmet requirement that is itself due by the target time: the first
/// requirement lock in time order (feed order among equal times), with no
/// change scheduled.
pub proof fn lemma_due_requirement_is_reason(feed: Seq<StateChange>, target: i64)
    requires
        some_requirement_due_by(feed, target),
        simulate(feed, target) is Ok,
    ensures
        credits_due_requirement(simulate(feed, target), feed, target),
        credits_first_requirement(simulate(feed, target), sort_by_time(feed)),
{
    let evs = sort_by_time(feed);
    lemma_sort_by_time(feed);
    let k = choose|k: int|
        0 <= k < feed.len() && (#[trigger] feed[k].kind) is RequirementLocked && feed[k].time.0
            <= target;
    // the due lock is also in the sorted feed
    assert(feed.to_multiset().count(feed[k]) > 0) by {
        broadcast use vstd::seq_lib::group_to_multiset_ensures;
        assert(feed.contains(feed[k]));
    }
    assert(evs.contains(feed[k])) by {
        broadcast use vstd::seq_lib::group_to_multiset_ensures;
    }
    let k2 = choose|k2: int| 0 <= k2 < evs.len() && evs[k2] == feed[k];
    assert((evs[k2].kind) is RequirementLocked);
    lemma_scan_requirement_first(evs, 0, initial_sim_state(), CurrentState::Unlocked, target);
    let r = simulate(feed, target)->Ok_0;
    let id = r.reason->RequirementNotMet_id;
    // and the credited lock, found in the sorted feed, is in the feed
    let j = choose|j: int|
        0 <= j < evs.len() && #[trigger] evs[j].kind == StateChangeKind::RequirementLocked(id)
            && evs[j].time.0 <= target;
    assert(feed.contains(evs[j])) by {
        broadcast use vstd::seq_lib::group_to_multiset_ensures;
        assert(evs.contains(evs[j]));
        assert(evs.to_multiset().count(evs[j]) > 0);
    }
    let j2 = choose|j2: int| 0 <= j2 < feed.len() && feed[j2] == evs[j];
    assert(feed[j2].kind == StateChangeKind::RequirementLocked(id));
}

/// No event of the feed makes the break timer unlockable by `target`.
pub open spec fn no_unlockable_by(feed: Seq<StateChange>, target: i64) -> bool {
    forall|k: int|
        0 <= k < feed.len() && (#[trigger] feed[k].kind) == StateChangeKind::BreakTimerUnlockable
            ==> feed[k].time.0 > target
}

proof fn lemma_scan_not_unlockable(
    evs: Seq<StateChange>,
    i: int,
    st: SimState,
    observed: CurrentState,
    target: i64,
)
    requires
        0 <= i <= evs.len(),
        time_ordered(evs),
        no_unlockable_by(evs, target),
        observed != CurrentState::Unlockable,
        st.timer == CurrentState::Unlockable ==> forall|k: int|
            i <= k < evs.len() ==> (#[trigger] evs[k]).time.0 > target,
    ensures
        scan(evs, i, st, observed, target) matches Ok(r) ==> r.target_state
            != CurrentState::Unlockable,
    decreases evs.len() - i,
{
    if i < evs.len() {
        if let Ok(next) = apply_change(st, evs[i].kind) {
            let after = composed_state(next);
            if evs[i].time.0 <= target {
                assert(st.timer != CurrentState::Unlockable);
                assert(next.timer != CurrentState::Unlockable);
            } else {
                assert forall|k: int| i + 1 <= k < evs.len() implies (#[trigger] evs[k]).time.0
                    > target by {
                    assert(evs[i].time.0 <= evs[k].time.0);
                }
            }
            if !(observed != after && evs[i].time.0 > target) {
                lemma_scan_not_unlockable(evs, i + 1, next, after, target);
            }
        }
    }
}

/// The session is unlockable at `target` only if some event of the feed
/// makes the break timer unlockable by then.
pub proof fn lemma_unlockable_needs_event(feed: Seq<StateChange>, target: i64)
    requires
        no_unlockable_by(feed, target),
    ensures
        simulate(feed, target) matches Ok(r) ==> r.target_state != CurrentState::Unlockable,
{
    let evs = sort_by_time(feed);
    lemma_sort_by_time(feed);
    assert forall|k: int|
        0 <= k < evs.len() && (#[trigger] evs[k].kind) == StateChangeKind::BreakTimerUnlockable
            implies evs[k].time.0 > target by {
        assert(feed.contains(evs[k])) by {
            broadcast use vstd::seq_lib::group_to_multiset_ensures;
            assert(evs.contains(evs[k]));
            assert(evs.to_multiset().count(evs[k]) > 0);
        }
        let j = choose|j: int| 0 <= j < feed.len() && feed[j] == evs[k];
        assert(feed[j].kind == StateChangeKind::BreakTimerUnlockable);
    }
    lemma_scan_not_unlockable(evs, 0, initial_sim_state(), CurrentState::Unlocked, target);
}

/// Some break-timer event of the feed falls due by `target`.
pub open spec fn timer_event_by(feed: Seq<StateChange>, target: i64) -> bool {
    exists|k: int|
        0 <= k < feed.len() && ((#[trigger] feed[k].kind) is BreakTimerLocked
            || feed[k].kind is BreakTimerUnlockable) && feed[k].time.0 <= target
}

proof fn lemma_scan_not_unlocked(
    evs: Seq<StateChange>,
    i: int,
    st: SimState,
    observed: CurrentState,
    target: i64,
)
    requires
        0 <= i <= evs.len(),
        time_ordered(evs),
        ({
            ||| st.timer != CurrentState::Unlocked && observed != CurrentState::Unlocked
            ||| exists|k: int|
                i <= k < evs.len() && ((#[trigger] evs[k].kind) is BreakTimerLocked
                    || evs[k].kind is BreakTimerUnlockable) && evs[k].time.0 <= target
        }),
    ensures
        scan(evs, i, st, observed, target) matches Ok(r) ==> r.target_state
            != CurrentState::Unlocked,
    decreases evs.len() - i,
{
    if i < evs.len() {
        if let Ok(next) = apply_change(st, evs[i].kind) {
            let after = composed_state(next);
            if st.timer != CurrentState::Unlocked && observed != CurrentState::Unlocked {
                assert(next.timer != CurrentState::Unlocked);
                if !(observed != after && evs[i].time.0 > target) {
                    lemma_scan_not_unlocked(evs, i + 1, next, after, target);
                }
            } else {
                let k = choose|k: int|
                    i <= k < evs.len() && ((#[trigger] evs[k].kind) is BreakTimerLocked
                        || evs[k].kind is BreakTimerUnlockable) && evs[k].time.0 <= target;
                assert(evs[i].time.0 <= evs[k].time.0);
                if evs[i].kind is BreakTimerLocked || evs[i].kind is BreakTimerUnlockable {
                    assert(next.timer != CurrentState::Unlocked);
                } else {
                    assert(k != i);
                }
                lemma_scan_not_unlocked(evs, i + 1, next, after, target);
            }
        }
    } else {
        assert(st.timer != CurrentState::Unlocked && observed != CurrentState::Unlocked);
    }
}

/// Once a break-timer event has fallen due, the session is not unlocked.
pub proof fn lemma_timer_event_not_unlocked(feed: Seq<StateChange>, target: i64)
    requires
        timer_event_by(feed, target),
    ensures
        simulate(feed, target) matches Ok(r) ==> r.target_state != CurrentState::Unlocked,
{
    let evs = sort_by_time(feed);
    lemma_sort_by_time(feed);
    let k = choose|k: int|
        0 <= k < feed.len() && ((#[trigger] feed[k].kind) is BreakTimerLocked
            || feed[k].kind is BreakTimerUnlockable) && feed[k].time.0 <= target;
    assert(evs.contains(feed[k])) by {
        broadcast use vstd::seq_lib::group_to_multiset_ensures;
        assert(feed.contains(feed[k]));
        assert(feed.to_multiset().count(feed[k]) > 0);
    }
    let k2 = choose|k2: int| 0 <= k2 < evs.len() && evs[k2] == feed[k];
    assert(evs[k2].kind is BreakTimerLocked || evs[k2].kind is BreakTimerUnlockable);
    lemma_scan_not_unlocked(evs, 0, initial_sim_state(), CurrentState::Unlocked, target);
}

/// Feeds events to the simulation and runs it.
pub struct Simulator {
    changes: Vec<StateChange>,
}

impl Simulator {
    pub closed spec fn view(&self) -> Seq<StateChange> {
        self.changes@
    }

    pub fn new() -> (r: Simulator)
        ensures
            r.view() == Seq::<StateChange>::empty(),
    {
        Simulator { changes: Vec::new() }
    }

    pub fn push(&mut self, change: StateChange)
        ensures
            final(self).view() == old(self).view().push(change),
    {
        self.changes.push(change);
    }

    fn sort_changes(&mut self)
        ensures
            final(self).view() == sort_by_time(old(self).view()),
    {
        let n = self.changes.len();
        let mut sorted: Vec<StateChange> = Vec::new();
        let mut i: usize = 0;
        while i < n
            invariant
                n == self.changes@.len(),
                i <= n,
                sorted@ == sort_by_time(self.changes@.subrange(0, i as int)),
            decreases n - i,
        {
            let c = self.changes[i];
            proof {
                lemma_sort_by_time(self.changes@.subrange(0, i as int));
            }
            let mut j: usize = sorted.len();
            while j > 0 && sorted[j - 1].time.0 > c.time.0
                invariant
                    j <= sorted@.len(),
                    forall|k: int| j <= k < sorted@.len() ==> sorted@[k].time.0 > c.time.0,
                decreases j,
            {
                j = j - 1;
            }
            proof {
                lemma_insert_at(sorted@, c, j as int);
                let pre = self.changes@.subrange(0, i as int + 1);
                assert(pre.drop_last() =~= self.changes@.subrange(0, i as int));
            }
            sorted.insert(j, c);
            i = i + 1;
        }
        proof {
            assert(self.changes@.subrange(0, n as int) =~= self.changes@);
        }
        self.changes = sorted;
    }

    fn calc_state(locked_ranges: &Locks, locked_requirements: &Locks, break_timer_state: CurrentState) -> (r: CurrentState)
        ensures
            r == composed(
                locked_ranges.view().len() == 0,
                locked_requirements.view().len() == 0,
                break_timer_state,
            ),
    {
        if locked_ranges.is_empty() && locked_requirements.is_empty() {
            break_timer_state
        } else {
            CurrentState::Locked
        }
    }

    /// Orders the events by time (keeping feed order among equal times)
    /// and simulates them up to the first change after `target_time`.
    pub fn run(&mut self, target_time: Timestamp) -> (r: Result<SimulatorResult, SimulatorError>)
        ensures
            r == simulate(old(self).view(), target_time.0),
            final(self).view() == sort_by_time(old(self).view()),
    {
        let ghost feed = self.changes@;
        self.sort_changes();
        let ghost evs = self.changes@;
        let ghost total = scan(evs, 0, initial_sim_state(), CurrentState::Unlocked, target_time.0);
        let mut locked_ranges = Locks::new();
        let mut locked_requirements = Locks::new();
        let mut break_timer_state = CurrentState::Unlocked;
        let mut simulator_state = CurrentState::Unlocked;
        let n = self.changes.len();
        let mut i: usize = 0;
        while i < n
            invariant
                evs == self.changes@,
                evs == sort_by_time(feed),
                feed == old(self).view(),
                total == simulate(feed, target_time.0),
                n == evs.len(),
                i <= n,
                scan(
                    evs,
                    i as int,
                    SimState {
                        ranges: locked_ranges.view(),
                        requirements: locked_requirements.view(),
                        timer: break_timer_state,
                    },
                    simulator_state,
                    target_time.0,
                ) == total,
            decreases n - i,
        {
            let change = self.changes[i];
            let step = match change.kind {
                StateChangeKind::BreakTimerUnlockable => {
                    break_timer_state = CurrentState::Unlockable;
                    Ok(())
                },
                StateChangeKind::BreakTimerLocked => {
                    break_timer_state = CurrentState::Locked;
                    Ok(())
                },
                StateChangeKind::RangeLocked(id) => locked_ranges.add_lock(id),
                StateChangeKind::RangeUnlocked(id) => locked_ranges.unlock(id),
                StateChangeKind::RequirementLocked(id) => locked_requirements.add_lock(id),
            };
            if let Err(e) = step {
                return Err(e);
            }
            let state_after_change = Self::calc_state(
                &locked_ranges,
                &locked_requirements,
                break_timer_state,
            );
            if simulator_state != state_after_change {
                if change.time.0 > target_time.0 {
                    return Ok(
                        SimulatorResult {
                            target_state: simulator_state,
                            until: Some(change.time),
                            reason: match change.kind {
                                StateChangeKind::BreakTimerUnlockable
                                | StateChangeKind::BreakTimerLocked => CurrentStateReason::BreakTimer,
                                StateChangeKind::RangeLocked(id)
                                | StateChangeKind::RangeUnlocked(id) => {
                                    CurrentStateReason::LockedTimeRange { id }
                                },
                                StateChangeKind::RequirementLocked(id) => {
                                    CurrentStateReason::RequirementNotMet { id }
                                },
                            },
                        },
                    );
                } else {
                    simulator_state = state_after_change;
                }
            }
            i = i + 1;
        }
        let reason = match simulator_state {
            CurrentState::Unlocked => CurrentStateReason::NoConstraints,
            CurrentState::Unlockable => CurrentStateReason::BreakTimer,
            CurrentState::Locked => {
                if let Some(id) = locked_requirements.first() {
                    CurrentStateReason::RequirementNotMet { id }
                } else if let Some(id) = locked_ranges.first() {
                    CurrentStateReason::LockedTimeRange { id }
                } else {
                    CurrentStateReason::BreakTimer
                }
            },
        };
        Ok(SimulatorResult { target_state: simulator_state, until: None, reason })
    }
}

} // verus!

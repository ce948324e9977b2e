use crate::break_timer::{advance, locked_if_unlocked, BreakTimer, BreakTimerManager};
use crate::config::DiagonatorManagerConfig;
use crate::registry::{build_ranges, build_registry, build_requirements, lift_bound, lift_time, lifted_for};
use crate::constraints::{completion, feed_of, Constraints, CurrentInfo, Requirement, TimeRange};
use crate::simulator::{
    insert_by_time, simulate, sort_by_time, CurrentState, SimulatorError, SimulatorResult, StateChange,
    StateChangeKind,
};
use crate::time::{HourMinute, LocalDate, Timestamp};
use vstd::prelude::*;
use vstd::string::*;

verus! {

/// The answer to a client request.
#[derive(Debug)]
pub enum Response {
    Success,
    Error { msg: String },
    Info { info: CurrentInfo },
}

/// A request that could not be handled.
#[derive(Clone, Copy, Debug, PartialEq, Eq, Structural)]
pub enum ClientHandlingError {
    /// The constraints gave an inconsistent event feed.
    SimulatorError(SimulatorError),
    /// The 64-bit id counter has run out.
    IdsExhausted,
}

/// What to do with the enforcer process.
#[derive(Clone, Copy, Debug, PartialEq, Eq, Structural)]
pub enum EnforcerAction {
    Start,
    Stop,
    Keep,
}

/// Converges the enforcer process on what the last refresh requires.
pub fn reconcile(running: bool, required: bool) -> (r: EnforcerAction)
    ensures
        r == (if running == required {
            EnforcerAction::Keep
        } else if required {
            EnforcerAction::Start
        } else {
            EnforcerAction::Stop
        }),
{
    if running == required {
        EnforcerAction::Keep
    } else if required {
        EnforcerAction::Start
    } else {
        EnforcerAction::Stop
    }
}

/// Hands out ids 1, 2, 3, ...; an id is never handed out twice.
pub struct IdGenerator {
    pub last_id: u64,
}

impl IdGenerator {
    pub fn new() -> (r: IdGenerator)
        ensures
            r.last_id == 0,
    {
        IdGenerator { last_id: 0 }
    }

    /// The next id; `None` once every 64-bit id has been handed out.
    pub fn next_id(&mut self) -> (r: Option<u64>)
        ensures
            old(self).last_id < u64::MAX ==> r == Some((old(self).last_id + 1) as u64)
                && final(self).last_id == old(self).last_id + 1,
            old(self).last_id == u64::MAX ==> r is None && final(self).last_id == old(
                self,
            ).last_id,
    {
        if self.last_id == u64::MAX {
            None
        } else {
            self.last_id = self.last_id + 1;
            Some(self.last_id)
        }
    }
}

/// The ids that occur in a registry.
pub open spec fn registry_ids(reqs: Seq<Requirement>, ranges: Seq<TimeRange>) -> Set<u64> {
    Set::new(
        |id: u64|
            (exists|k: int| 0 <= k < reqs.len() && reqs[k].id == id) || (exists|k: int|
                0 <= k < ranges.len() && ranges[k].id == id),
    )
}

/// The version for a client that has seen nothing yet.
pub const NO_CACHE: u64 = 0;

/// The single owner of the constraints, the break timer and the enforcer
/// decision. Every operation runs inside a refresh cycle.
pub struct DiagonatorManager {
    pub config: DiagonatorManagerConfig,
    pub enforcer_required: bool,
    pub constraints: Constraints,
    pub current_date: Option<LocalDate>,
    pub id_generator: IdGenerator,
    pub last_summary: Option<SimulatorResult>,
    pub version: u64,
}

impl DiagonatorManager {
    pub open spec fn reqs(&self) -> Seq<Requirement> {
        self.constraints.requirements@
    }

    pub open spec fn ranges(&self) -> Seq<TimeRange> {
        self.constraints.locked_time_ranges@
    }

    pub open spec fn timer(&self) -> BreakTimer {
        self.constraints.break_timer.timer
    }

    pub open spec fn ids(&self) -> Set<u64> {
        registry_ids(self.reqs(), self.ranges())
    }

    pub open spec fn templates(&self) -> int {
        (self.config.requirements@.len() + self.config.locked_time_ranges@.len()) as int
    }

    pub open spec fn wf(&self) -> bool {
        &&& self.config.templates_valid()
        &&& self.constraints.break_timer.wf()
        &&& self.constraints.break_timer.work_period_duration == self.config.work_period_duration
        &&& self.constraints.break_timer.break_duration == self.config.break_duration
        &&& forall|id: u64| #[trigger] self.ids().contains(id) ==> id <= self.id_generator.last_id
    }

    /// The break timer and the enforcer agree with the last refresh: the
    /// enforcer is required iff the session was not unlocked, and then
    /// the break timer is not in a work period.
    pub open spec fn settled(&self) -> bool {
        self.last_summary matches Some(s) ==> {
            &&& self.enforcer_required == (s.target_state != CurrentState::Unlocked)
            &&& s.target_state != CurrentState::Unlocked ==> !(self.timer() is Unlocked)
        }
    }

    /// `t` leaves room for a work period and a break after it.
    pub open spec fn time_fits(&self, t: Timestamp) -> bool {
        self.constraints.break_timer.time_fits(t)
    }

    /// Every id now in the registry was there before or is newer than
    /// every id handed out before.
    pub open spec fn ids_fresh_since(&self, before: &Self) -> bool {
        &&& self.id_generator.last_id >= before.id_generator.last_id
        &&& forall|id: u64|
            #[trigger] self.ids().contains(id) ==> before.ids().contains(id) || id
                > before.id_generator.last_id
    }

    /// What stays fixed across every operation.
    pub open spec fn same_setup(&self, before: &Self) -> bool {
        &&& self.config == before.config
        &&& self.constraints.break_timer.work_period_duration
            == before.constraints.break_timer.work_period_duration
        &&& self.constraints.break_timer.break_duration
            == before.constraints.break_timer.break_duration
    }

    pub fn new(config: DiagonatorManagerConfig) -> (r: DiagonatorManager)
        requires
            config.templates_valid(),
        ensures
            r.wf(),
            r.timer() == BreakTimer::Unlockable,
            r.reqs().len() == 0,
            r.ranges().len() == 0,
            r.id_generator.last_id == 0,
            !r.enforcer_required,
            r.last_summary is None,
            r.version == NO_CACHE,
            r.settled(),
            r.config == config,
    {
        let break_timer = BreakTimerManager::new(
            config.work_period_duration,
            config.break_duration,
        );
        let current_date = Timestamp::zero().get_date();
        let r = DiagonatorManager {
            config,
            enforcer_required: false,
            constraints: Constraints {
                break_timer,
                requirements: Vec::new(),
                locked_time_ranges: Vec::new(),
            },
            current_date,
            id_generator: IdGenerator::new(),
            last_summary: None,
            version: NO_CACHE,
        };
        assert(r.ids() =~= Set::<u64>::empty());
        r
    }

    /// Whether `t` can be handled: it leaves room for a work period and a
    /// break after it.
    pub fn accepts_time(&self, t: Timestamp) -> (r: bool)
        ensures
            r == self.time_fits(t),
    {
        let w = self.constraints.break_timer.work_period_duration.0 as i128;
        let b = self.constraints.break_timer.break_duration.0 as i128;
        let s = t.0 as i128;
        let lo = i64::MIN as i128;
        let hi = i64::MAX as i128;
        lo <= s + b && s + b <= hi && lo <= s + w && s + w <= hi && lo <= s + w + b && s + w + b
            <= hi
    }


    /// The registry `reqs`, `ranges` with id counter `last_id` is this
    /// registry rebuilt from the templates for a new day: the templates
    /// lifted to that day, in order, with ids after this counter.
    pub open spec fn rebuilt_as(
        &self,
        reqs: Seq<Requirement>,
        ranges: Seq<TimeRange>,
        last_id: u64,
        date: LocalDate,
    ) -> bool {
        exists|dues: Seq<Option<Timestamp>>, starts: Seq<Option<Option<Timestamp>>>, ends: Seq<Option<Option<Timestamp>>>|
            #![trigger lifted_for(date, self.config.requirements@, self.config.locked_time_ranges@, dues, starts, ends)]
            {
                &&& lifted_for(date, self.config.requirements@, self.config.locked_time_ranges@, dues, starts, ends)
                &&& reqs == build_requirements(self.config.requirements@, dues, self.id_generator.last_id as int, dues.len() as int)
                &&& ranges == build_ranges(starts, ends, self.id_generator.last_id + reqs.len(), starts.len() as int)
                &&& last_id == self.id_generator.last_id + reqs.len() + ranges.len()
            }
    }

    /// The registry after the day check of a refresh cycle: kept when the
    /// date is unchanged, rebuilt from the templates when a new date came.
    pub open spec fn adjusted_to(
        &self,
        reqs: Seq<Requirement>,
        ranges: Seq<TimeRange>,
        last_id: u64,
        date: Option<LocalDate>,
    ) -> bool {
        ||| reqs == self.reqs() && ranges == self.ranges() && last_id == self.id_generator.last_id
            && date == self.current_date
        ||| date is Some && date != self.current_date && self.rebuilt_as(
            reqs,
            ranges,
            last_id,
            date->Some_0,
        )
    }

    /// The operation changed nothing: the ids ran out at a rollover.
    pub open spec fn exhausted_from(&self, before: &Self) -> bool {
        &&& self.reqs() == before.reqs()
        &&& self.ranges() == before.ranges()
        &&& self.id_generator == before.id_generator
        &&& self.current_date == before.current_date
        &&& self.timer() == before.timer()
        &&& self.enforcer_required == before.enforcer_required
        &&& self.last_summary == before.last_summary
        &&& self.version == before.version
        &&& before.id_generator.last_id + before.templates() > u64::MAX
    }

    /// The simulation of this registry with the break timer `timer`
    /// advanced to `t`.
    pub open spec fn simulated(&self, timer: BreakTimer, t: Timestamp) -> Result<SimulatorResult, SimulatorError> {
        sim_of(self.reqs(), self.ranges(), timer, self.config.break_duration, t)
    }

    /// The state a refresh cycle leaves when it starts from break timer
    /// `timer0`, published result `prev` and version `version0`, and
    /// simulates `res`.
    pub open spec fn after_cycle(
        &self,
        timer0: BreakTimer,
        prev: Option<SimulatorResult>,
        version0: u64,
        t: Timestamp,
        res: SimulatorResult,
    ) -> bool {
        &&& self.timer() == settled_timer(timer0, t, self.config.break_duration, res.target_state)
        &&& self.enforcer_required == (res.target_state != CurrentState::Unlocked)
        &&& self.last_summary == Some(res)
        &&& self.version == bumped(version0, prev, res)
    }

    /// The state a refresh cycle leaves when its simulation fails: only
    /// the break timer has advanced.
    pub open spec fn after_failed_cycle(
        &self,
        timer0: BreakTimer,
        prev: Option<SimulatorResult>,
        version0: u64,
        enforcer0: bool,
        t: Timestamp,
    ) -> bool {
        &&& self.timer() == advance(timer0, t, self.config.break_duration)
        &&& self.enforcer_required == enforcer0
        &&& self.last_summary == prev
        &&& self.version == version0
    }

    /// Rebuilds the registry for `date` from the configured templates,
    /// each time of day lifted to `date` with `lift_time`.
    fn new_day(&mut self, date: LocalDate) -> (r: Result<(), ClientHandlingError>)
        requires
            old(self).wf(),
        ensures
            final(self).config == old(self).config,
            final(self).constraints.break_timer == old(self).constraints.break_timer,
            final(self).enforcer_required == old(self).enforcer_required,
            final(self).last_summary == old(self).last_summary,
            final(self).version == old(self).version,
            final(self).current_date == old(self).current_date,
            r is Ok ==> old(self).rebuilt_as(final(self).reqs(), final(self).ranges(), final(self).id_generator.last_id, date),
            r is Err ==> r == Err::<(), ClientHandlingError>(ClientHandlingError::IdsExhausted)
                && final(self).reqs() == old(self).reqs() && final(self).ranges() == old(self).ranges()
                && final(self).id_generator == old(self).id_generator
                && old(self).id_generator.last_id + old(self).templates() > u64::MAX,
    {
        let n = self.config.requirements.len();
        let mut dues: Vec<Option<Timestamp>> = Vec::new();
        let mut i: usize = 0;
        while i < n
            invariant
                n == self.config.requirements@.len(),
                i <= n,
                dues@.len() == i,
                forall|k: int|
                    0 <= k < i ==> ((#[trigger] dues@[k] is Some) <==> self.config.requirements@[k].due.wf())
                        && (dues@[k] matches Some(t) ==> crate::registry::lifted_near(
                        date,
                        self.config.requirements@[k].due,
                        t,
                    )),
            decreases n - i,
        {
            dues.push(lift_time(&date, &self.config.requirements[i].due));
            i = i + 1;
        }
        let m = self.config.locked_time_ranges.len();
        let mut starts: Vec<Option<Option<Timestamp>>> = Vec::new();
        let mut ends: Vec<Option<Option<Timestamp>>> = Vec::new();
        let mut j: usize = 0;
        while j < m
            invariant
                m == self.config.locked_time_ranges@.len(),
                j <= m,
                starts@.len() == j,
                ends@.len() == j,
                forall|k: int|
                    0 <= k < j ==> crate::registry::bound_lifted(
                        date,
                        self.config.locked_time_ranges@[k].start,
                        #[trigger] starts@[k],
                    ),
                forall|k: int|
                    0 <= k < j ==> crate::registry::bound_lifted(
                        date,
                        self.config.locked_time_ranges@[k].end,
                        #[trigger] ends@[k],
                    ),
            decreases m - j,
        {
            let template = self.config.locked_time_ranges[j];
            starts.push(lift_bound(&date, &template.start));
            ends.push(lift_bound(&date, &template.end));
            j = j + 1;
        }
        proof {
            assert(lifted_for(date, self.config.requirements@, self.config.locked_time_ranges@, dues@, starts@, ends@));
        }
        let last_id = self.id_generator.last_id;
        match build_registry(&self.config.requirements, &dues, &starts, &ends, last_id) {
            Some((reqs, ranges)) => {
                self.id_generator.last_id = last_id + reqs.len() as u64 + ranges.len() as u64;
                self.constraints.requirements = reqs;
                self.constraints.locked_time_ranges = ranges;
                Ok(())
            },
            None => {
                proof {
                    crate::registry::lemma_build_requirements_len(self.config.requirements@, dues@, last_id as int, n as int);
                    crate::registry::lemma_build_ranges_len(starts@, ends@, last_id + build_requirements(self.config.requirements@, dues@, last_id as int, n as int).len(), m as int);
                }
                Err(ClientHandlingError::IdsExhausted)
            },
        }
    }
}

/// The simulation of a registry with the break timer `timer` advanced to
/// `t` by a break of `brk`.
pub open spec fn sim_of(
    reqs: Seq<Requirement>,
    ranges: Seq<TimeRange>,
    timer: BreakTimer,
    brk: crate::time::Duration,
    t: Timestamp,
) -> Result<SimulatorResult, SimulatorError> {
    simulate(feed_of(reqs, ranges, advance(timer, t, brk)), t.0)
}

/// The version after publishing `res`: unchanged when it equals what was
/// published before.
pub open spec fn bumped(version: u64, prev: Option<SimulatorResult>, res: SimulatorResult) -> u64 {
    if prev == Some(res) {
        version
    } else {
        next_version(version)
    }
}

/// The version after a change is published: the next one, skipping the
/// version of a client that has seen nothing.
pub open spec fn next_version(v: u64) -> u64 {
    if v == u64::MAX {
        1
    } else {
        (v + 1) as u64
    }
}

/// The break timer after the refresh cycle that reported `state`.
pub open spec fn settled_timer(timer: BreakTimer, t: Timestamp, brk: crate::time::Duration, state: CurrentState) -> BreakTimer {
    if state != CurrentState::Unlocked {
        locked_if_unlocked(advance(timer, t, brk), t, brk)
    } else {
        advance(timer, t, brk)
    }
}

/// A rebuilt registry holds only ids newer than the counter before it, and
/// the counter advances by at most the number of templates.
proof fn lemma_rebuilt_ids(m: &DiagonatorManager, reqs: Seq<Requirement>, ranges: Seq<TimeRange>, last_id: u64, date: LocalDate)
    requires
        m.rebuilt_as(reqs, ranges, last_id, date),
    ensures
        m.id_generator.last_id <= last_id <= m.id_generator.last_id + m.templates(),
        forall|id: u64|
            #[trigger] registry_ids(reqs, ranges).contains(id) ==> m.id_generator.last_id < id
                <= last_id,
{
    let (dues, starts, ends) = choose|dues: Seq<Option<Timestamp>>, starts: Seq<Option<Option<Timestamp>>>, ends: Seq<Option<Option<Timestamp>>>|
        #![trigger lifted_for(date, m.config.requirements@, m.config.locked_time_ranges@, dues, starts, ends)]
        {
            &&& lifted_for(date, m.config.requirements@, m.config.locked_time_ranges@, dues, starts, ends)
            &&& reqs == build_requirements(m.config.requirements@, dues, m.id_generator.last_id as int, dues.len() as int)
            &&& ranges == build_ranges(starts, ends, m.id_generator.last_id + reqs.len(), starts.len() as int)
            &&& last_id == m.id_generator.last_id + reqs.len() + ranges.len()
        };
    let floor = m.id_generator.last_id as int;
    crate::registry::lemma_build_requirements(m.config.requirements@, dues, floor, dues.len() as int);
    crate::registry::lemma_build_ranges(starts, ends, floor + reqs.len(), starts.len() as int);
    assert forall|id: u64| #[trigger] registry_ids(reqs, ranges).contains(id) implies m.id_generator.last_id < id
        <= last_id by {
        if exists|k: int| 0 <= k < reqs.len() && reqs[k].id == id {
            let k = choose|k: int| 0 <= k < reqs.len() && reqs[k].id == id;
            assert(reqs[k].id == floor + k + 1);
        } else {
            let k = choose|k: int| 0 <= k < ranges.len() && ranges[k].id == id;
            assert(ranges[k].id == floor + reqs.len() + k + 1);
        }
    }
}

proof fn lemma_same_ids(a: &DiagonatorManager, b: &DiagonatorManager)
    requires
        a.reqs() == b.reqs(),
        a.ranges() == b.ranges(),
    ensures
        a.ids() == b.ids(),
{
}

impl DiagonatorManager {
    /// The refresh cycle at `current_time` for `date`, the local date of
    /// that time (`current_time.get_date()`): roll over to a new day if the date changed, simulate, lock a
    /// work period in progress unless the session is unlocked, decide on
    /// the enforcer, and publish a changed result under a new version.
    pub fn refresh(&mut self, current_time: Timestamp, date: Option<LocalDate>) -> (r: Result<
        CurrentInfo,
        ClientHandlingError,
    >)
        requires
            old(self).wf(),
            old(self).time_fits(current_time),
        ensures
            final(self).wf(),
            final(self).same_setup(old(self)),
            final(self).ids_fresh_since(old(self)),
            old(self).settled() ==> final(self).settled(),
            r == Err::<CurrentInfo, ClientHandlingError>(ClientHandlingError::IdsExhausted)
                ==> final(self).exhausted_from(old(self)),
            r != Err::<CurrentInfo, ClientHandlingError>(ClientHandlingError::IdsExhausted)
                ==> old(self).adjusted_to(
                final(self).reqs(),
                final(self).ranges(),
                final(self).id_generator.last_id,
                final(self).current_date,
            ),
            r != Err::<CurrentInfo, ClientHandlingError>(ClientHandlingError::IdsExhausted)
                && date is Some ==> final(self).current_date == date,
            date is None || date == old(self).current_date ==> final(self).current_date == old(
                self,
            ).current_date && r != Err::<CurrentInfo, ClientHandlingError>(
                ClientHandlingError::IdsExhausted,
            ),
            match r {
                Ok(info) => final(self).simulated(old(self).timer(), current_time) == Ok::<
                    SimulatorResult,
                    SimulatorError,
                >(info.summary()) && final(self).after_cycle(
                    old(self).timer(),
                    old(self).last_summary,
                    old(self).version,
                    current_time,
                    info.summary(),
                ) && info.requirements@ == final(self).reqs() && info.locked_time_ranges@ == final(self).ranges() && final(self).settled(),
                Err(ClientHandlingError::SimulatorError(x)) => final(self).simulated(
                    old(self).timer(),
                    current_time,
                ) == Err::<SimulatorResult, SimulatorError>(x) && final(self).after_failed_cycle(
                    old(self).timer(),
                    old(self).last_summary,
                    old(self).version,
                    old(self).enforcer_required,
                    current_time,
                ),
                Err(ClientHandlingError::IdsExhausted) => true,
            },
    {
        if let Some(d) = date {
            let same_day = match self.current_date {
                Some(c) => c == d,
                None => false,
            };
            if !same_day {
                let ghost before = *self;
                if let Err(e) = self.new_day(d) {
                    proof {
                        lemma_same_ids(self, &before);
                    }
                    return Err(e);
                }
                self.current_date = Some(d);
                proof {
                    lemma_rebuilt_ids(&before, self.reqs(), self.ranges(), self.id_generator.last_id, d);
                    assert forall|id: u64| #[trigger] self.ids().contains(id) implies id
                        <= self.id_generator.last_id && id > before.id_generator.last_id by {
                        assert(registry_ids(self.reqs(), self.ranges()).contains(id));
                    }
                }
            }
        }
        let ghost mid = *self;
        let info = match self.constraints.get_current_info(current_time) {
            Ok(info) => info,
            Err(e) => {
                proof {
                    lemma_same_ids(self, &mid);
                }
                return Err(ClientHandlingError::SimulatorError(e));
            },
        };
        let should_run = info.state != CurrentState::Unlocked;
        if should_run {
            self.constraints.break_timer.lock_if_unlocked(current_time);
        }
        self.enforcer_required = should_run;
        let summary = SimulatorResult { target_state: info.state, until: info.until, reason: info.reason };
        let changed = match self.last_summary {
            Some(s) => s != summary,
            None => true,
        };
        if changed {
            self.version = if self.version == u64::MAX {
                1
            } else {
                self.version + 1
            };
        }
        self.last_summary = Some(summary);
        proof {
            lemma_same_ids(self, &mid);
        }
        Ok(info)
    }
}

proof fn lemma_fresh_trans(a: &DiagonatorManager, b: &DiagonatorManager, c: &DiagonatorManager)
    requires
        b.ids_fresh_since(a),
        c.ids_fresh_since(b),
    ensures
        c.ids_fresh_since(a),
{
    assert forall|id: u64| #[trigger] c.ids().contains(id) implies a.ids().contains(id) || id
        > a.id_generator.last_id by {
        if b.ids().contains(id) {
        }
    }
}

/// The user-visible refusal of an unlock outside the unlockable state.
pub open spec fn not_unlockable_text() -> Seq<char> {
    "Session is not unlockable."@
}

/// The user-visible refusal of a due time that does not occur today.
pub open spec fn no_such_time_text() -> Seq<char> {
    "The due time does not occur on the current day."@
}

/// The answer is a refusal with the text `text`.
pub open spec fn refused_with(r: Result<Response, ClientHandlingError>, text: Seq<char>) -> bool {
    match r {
        Ok(Response::Error { msg }) => msg@ == text,
        _ => false,
    }
}

/// A second refresh cycle, from break timer `timer1` after a first cycle
/// that published `s1` under version `v1`, answers `Success` or fails with
/// the simulation's error.
pub open spec fn second_cycle(
    after: &DiagonatorManager,
    timer1: BreakTimer,
    s1: SimulatorResult,
    v1: u64,
    t: Timestamp,
    r: Result<Response, ClientHandlingError>,
) -> bool {
    match after.simulated(timer1, t) {
        Err(x) => r == Err::<Response, ClientHandlingError>(ClientHandlingError::SimulatorError(x))
            && after.after_failed_cycle(timer1, Some(s1), v1, s1.target_state != CurrentState::Unlocked, t),
        Ok(s2) => r == Ok::<Response, ClientHandlingError>(Response::Success) && after.after_cycle(
            timer1,
            Some(s1),
            v1,
            t,
            s2,
        ),
    }
}

/// A first refresh cycle failed with the simulation's error.
pub open spec fn first_cycle_failed(
    after: &DiagonatorManager,
    before: &DiagonatorManager,
    t: Timestamp,
    x: SimulatorError,
    r: Result<Response, ClientHandlingError>,
) -> bool {
    r == Err::<Response, ClientHandlingError>(ClientHandlingError::SimulatorError(x))
        && after.after_failed_cycle(before.timer(), before.last_summary, before.version, before.enforcer_required, t)
}

/// What `unlock_timer` does once the day is checked.
pub open spec fn unlock_outcome(
    after: &DiagonatorManager,
    before: &DiagonatorManager,
    t: Timestamp,
    r: Result<Response, ClientHandlingError>,
) -> bool {
    match after.simulated(before.timer(), t) {
        Err(x) => first_cycle_failed(after, before, t, x, r),
        Ok(s1) => if s1.target_state == CurrentState::Unlockable {
            second_cycle(
                after,
                BreakTimer::Unlocked { until: t.plus(before.config.work_period_duration) },
                s1,
                bumped(before.version, before.last_summary, s1),
                t,
                r,
            )
        } else {
            refused_with(r, not_unlockable_text()) && after.after_cycle(
                before.timer(),
                before.last_summary,
                before.version,
                t,
                s1,
            )
        },
    }
}

/// What `lock_timer` does once the day is checked.
pub open spec fn lock_outcome(
    after: &DiagonatorManager,
    before: &DiagonatorManager,
    t: Timestamp,
    r: Result<Response, ClientHandlingError>,
) -> bool {
    match after.simulated(before.timer(), t) {
        Err(x) => first_cycle_failed(after, before, t, x, r),
        Ok(s1) => {
            let brk = before.config.break_duration;
            let timer1 = settled_timer(before.timer(), t, brk, s1.target_state);
            let v1 = bumped(before.version, before.last_summary, s1);
            if advance(timer1, t, brk) is Unlocked {
                second_cycle(after, BreakTimer::Locked { until: t.plus(brk) }, s1, v1, t, r)
            } else {
                &&& refused_with(r, crate::break_timer::BreakTimerError::NotUnlocked.message_spec())
                &&& after.timer() == advance(timer1, t, brk)
                &&& after.enforcer_required == (s1.target_state != CurrentState::Unlocked)
                &&& after.last_summary == Some(s1)
                &&& after.version == v1
            }
        },
    }
}

/// What `complete_requirement` does, given the requirements `reqs1` after
/// the day check.
pub open spec fn completion_outcome(
    after: &DiagonatorManager,
    before: &DiagonatorManager,
    t: Timestamp,
    id: u64,
    r: Result<Response, ClientHandlingError>,
    reqs1: Seq<Requirement>,
) -> bool {
    let brk = before.config.break_duration;
    match sim_of(reqs1, after.ranges(), before.timer(), brk, t) {
        Err(x) => after.reqs() == reqs1 && first_cycle_failed(after, before, t, x, r),
        Ok(s1) => {
            let timer1 = settled_timer(before.timer(), t, brk, s1.target_state);
            let v1 = bumped(before.version, before.last_summary, s1);
            match completion(reqs1, id) {
                Err(e) => after.reqs() == reqs1 && refused_with(r, e.message_spec())
                    && after.after_cycle(before.timer(), before.last_summary, before.version, t, s1),
                Ok(reqs2) => after.reqs() == reqs2 && second_cycle(after, timer1, s1, v1, t, r),
            }
        },
    }
}

/// What `add_requirement` does with the time of day `hm`, given the
/// requirements `reqs1` and id counter `last1` after the day check, and
/// `due`, that time as `lift_time` lifted it to the current day.
pub open spec fn addition_outcome(
    after: &DiagonatorManager,
    before: &DiagonatorManager,
    t: Timestamp,
    name: String,
    hm: HourMinute,
    r: Result<Response, ClientHandlingError>,
    reqs1: Seq<Requirement>,
    last1: u64,
    due: Option<Timestamp>,
) -> bool {
    let brk = before.config.break_duration;
    match sim_of(reqs1, after.ranges(), before.timer(), brk, t) {
        Err(x) => after.reqs() == reqs1 && after.id_generator.last_id == last1
            && first_cycle_failed(after, before, t, x, r),
        Ok(s1) => {
            let timer1 = settled_timer(before.timer(), t, brk, s1.target_state);
            let v1 = bumped(before.version, before.last_summary, s1);
            let first = after.after_cycle(before.timer(), before.last_summary, before.version, t, s1);
            &&& match after.current_date {
                None => due is None,
                Some(d) => (due is Some <==> hm.wf()) && (due matches Some(x) ==> crate::registry::lifted_near(d, hm, x)),
            }
            &&& match due {
                None => after.reqs() == reqs1 && after.id_generator.last_id == last1 && refused_with(
                    r,
                    no_such_time_text(),
                ) && first,
                Some(d) => if last1 == u64::MAX {
                    after.reqs() == reqs1 && after.id_generator.last_id == last1 && r == Err::<
                        Response,
                        ClientHandlingError,
                    >(ClientHandlingError::IdsExhausted) && first
                } else {
                    &&& after.reqs() == reqs1.push(
                        Requirement { id: (last1 + 1) as u64, name, due: d, complete: false },
                    )
                    &&& after.id_generator.last_id == last1 + 1
                    &&& second_cycle(after, timer1, s1, v1, t, r)
                },
            }
        },
    }
}

/// The answer of `get_info_if_changed` after a cycle that published `s1`.
pub open spec fn changed_answer(
    after: &DiagonatorManager,
    s1: SimulatorResult,
    last_version: u64,
    r: Result<Option<(CurrentInfo, u64)>, ClientHandlingError>,
) -> bool {
    match r {
        Ok(Some((info, v))) => after.version != last_version && v == after.version && info.summary()
            == s1 && info.requirements@ == after.reqs() && info.locked_time_ranges@ == after.ranges(),
        Ok(None) => after.version == last_version,
        Err(_) => false,
    }
}

impl DiagonatorManager {
    /// Reports the session state at `current_time`.
    pub fn get_info(&mut self, current_time: Timestamp) -> (r: Result<Response, ClientHandlingError>)
        requires
            old(self).wf(),
            old(self).time_fits(current_time),
        ensures
            final(self).wf(),
            final(self).same_setup(old(self)),
            final(self).ids_fresh_since(old(self)),
            r is Ok ==> final(self).settled(),
            r == Err::<Response, ClientHandlingError>(ClientHandlingError::IdsExhausted) ==> final(
                self).exhausted_from(old(self)),
            r != Err::<Response, ClientHandlingError>(ClientHandlingError::IdsExhausted) ==> old(
                self,
            ).adjusted_to(
                final(self).reqs(),
                final(self).ranges(),
                final(self).id_generator.last_id,
                final(self).current_date,
            ) && match final(self).simulated(old(self).timer(), current_time) {
                Err(x) => first_cycle_failed(final(self), old(self), current_time, x, r),
                Ok(s1) => final(self).after_cycle(
                    old(self).timer(),
                    old(self).last_summary,
                    old(self).version,
                    current_time,
                    s1,
                ) && match r {
                    Ok(Response::Info { info }) => info.summary() == s1 && info.requirements@
                        == final(self).reqs() && info.locked_time_ranges@ == final(self).ranges(),
                    _ => false,
                },
            },
    {
        let date = current_time.get_date();
        match self.refresh(current_time, date) {
            Ok(info) => Ok(Response::Info { info }),
            Err(e) => Err(e),
        }
    }

    /// Reports the session state at `current_time` if it changed since
    /// the client saw `last_version`, with the version to remember.
    pub fn get_info_if_changed(&mut self, last_version: u64, current_time: Timestamp) -> (r: Result<
        Option<(CurrentInfo, u64)>,
        ClientHandlingError,
    >)
        requires
            old(self).wf(),
            old(self).time_fits(current_time),
        ensures
            final(self).wf(),
            final(self).same_setup(old(self)),
            final(self).ids_fresh_since(old(self)),
            r is Ok ==> final(self).settled(),
            r == Err::<Option<(CurrentInfo, u64)>, ClientHandlingError>(ClientHandlingError::IdsExhausted)
                ==> final(self).exhausted_from(old(self)),
            r != Err::<Option<(CurrentInfo, u64)>, ClientHandlingError>(ClientHandlingError::IdsExhausted)
                ==> old(self).adjusted_to(
                final(self).reqs(),
                final(self).ranges(),
                final(self).id_generator.last_id,
                final(self).current_date,
            ) && match final(self).simulated(old(self).timer(), current_time) {
                Err(x) => r == Err::<Option<(CurrentInfo, u64)>, ClientHandlingError>(
                    ClientHandlingError::SimulatorError(x),
                ) && final(self).after_failed_cycle(
                    old(self).timer(),
                    old(self).last_summary,
                    old(self).version,
                    old(self).enforcer_required,
                    current_time,
                ),
                Ok(s1) => final(self).after_cycle(
                    old(self).timer(),
                    old(self).last_summary,
                    old(self).version,
                    current_time,
                    s1,
                ) && changed_answer(final(self), s1, last_version, r),
            },
    {
        let date = current_time.get_date();
        match self.refresh(current_time, date) {
            Ok(info) => {
                if self.version != last_version {
                    Ok(Some((info, self.version)))
                } else {
                    Ok(None)
                }
            },
            Err(e) => Err(e),
        }
    }

    /// Starts a work period; only an unlockable session can be unlocked.
    pub fn unlock_timer(&mut self, current_time: Timestamp) -> (r: Result<Response, ClientHandlingError>)
        requires
            old(self).wf(),
            old(self).time_fits(current_time),
        ensures
            final(self).wf(),
            final(self).same_setup(old(self)),
            final(self).ids_fresh_since(old(self)),
            r is Ok ==> final(self).settled(),
            r == Err::<Response, ClientHandlingError>(ClientHandlingError::IdsExhausted) ==> final(
                self).exhausted_from(old(self)),
            r != Err::<Response, ClientHandlingError>(ClientHandlingError::IdsExhausted) ==> old(
                self,
            ).adjusted_to(
                final(self).reqs(),
                final(self).ranges(),
                final(self).id_generator.last_id,
                final(self).current_date,
            ) && unlock_outcome(final(self), old(self), current_time, r),
    {
        let date = current_time.get_date();
        let first = self.refresh(current_time, date);
        let ghost mid = *self;
        match first {
            Err(e) => Err(e),
            Ok(info) => {
                if info.state == CurrentState::Unlockable {
                    proof {
                        crate::constraints::lemma_unlockable_session_has_unlockable_timer(
                            self.reqs(),
                            self.ranges(),
                            advance(old(self).timer(), current_time, self.config.break_duration),
                            current_time.0,
                        );
                    }
                    match self.constraints.break_timer.unlock(current_time) {
                        Ok(()) => {
                            proof {
                                lemma_same_ids(self, &mid);
                            }
                            let ghost mid2 = *self;
                            let second = self.refresh(current_time, date);
                            proof {
                                lemma_fresh_trans(old(self), &mid2, self);
                            }
                            match second {
                                Ok(_) => Ok(Response::Success),
                                Err(e) => Err(e),
                            }
                        },
                        Err(e) => Ok(Response::Error { msg: e.message() }),
                    }
                } else {
                    Ok(Response::Error { msg: String::from_str("Session is not unlockable.") })
                }
            },
        }
    }

    /// Starts a break at once; only a session in a work period can be
    /// locked.
    pub fn lock_timer(&mut self, current_time: Timestamp) -> (r: Result<Response, ClientHandlingError>)
        requires
            old(self).wf(),
            old(self).time_fits(current_time),
        ensures
            final(self).wf(),
            final(self).same_setup(old(self)),
            final(self).ids_fresh_since(old(self)),
            r is Ok ==> final(self).settled(),
            r == Err::<Response, ClientHandlingError>(ClientHandlingError::IdsExhausted) ==> final(
                self).exhausted_from(old(self)),
            r != Err::<Response, ClientHandlingError>(ClientHandlingError::IdsExhausted) ==> old(
                self,
            ).adjusted_to(
                final(self).reqs(),
                final(self).ranges(),
                final(self).id_generator.last_id,
                final(self).current_date,
            ) && lock_outcome(final(self), old(self), current_time, r),
    {
        let date = current_time.get_date();
        let first = self.refresh(current_time, date);
        let ghost mid = *self;
        match first {
            Err(e) => Err(e),
            Ok(_) => match self.constraints.break_timer.lock(current_time) {
                Ok(()) => {
                    proof {
                        lemma_same_ids(self, &mid);
                    }
                    let ghost mid2 = *self;
                    let second = self.refresh(current_time, date);
                    proof {
                        lemma_fresh_trans(old(self), &mid2, self);
                    }
                    match second {
                        Ok(_) => Ok(Response::Success),
                        Err(e) => Err(e),
                    }
                },
                Err(e) => {
                    proof {
                        lemma_same_ids(self, &mid);
                    }
                    Ok(Response::Error { msg: e.message() })
                },
            },
        }
    }
}

impl DiagonatorManager {
    /// Marks requirement `requirement_id` complete.
    pub fn complete_requirement(&mut self, current_time: Timestamp, requirement_id: u64) -> (r: Result<
        Response,
        ClientHandlingError,
    >)
        requires
            old(self).wf(),
            old(self).time_fits(current_time),
        ensures
            final(self).wf(),
            final(self).same_setup(old(self)),
            final(self).ids_fresh_since(old(self)),
            r is Ok ==> final(self).settled(),
            r == Err::<Response, ClientHandlingError>(ClientHandlingError::IdsExhausted) ==> final(
                self).exhausted_from(old(self)),
            r != Err::<Response, ClientHandlingError>(ClientHandlingError::IdsExhausted) ==> exists|
                reqs1: Seq<Requirement>,
            |
                #[trigger] old(self).adjusted_to(
                    reqs1,
                    final(self).ranges(),
                    final(self).id_generator.last_id,
                    final(self).current_date,
                ) && completion_outcome(final(self), old(self), current_time, requirement_id, r, reqs1),
    {
        let date = current_time.get_date();
        let first = self.refresh(current_time, date);
        let ghost mid = *self;
        match first {
            Err(e) => Err(e),
            Ok(_) => match self.constraints.complete_requirement(requirement_id) {
                Ok(()) => {
                    proof {
                        assert(self.ids() =~= mid.ids()) by {
                            assert forall|id: u64| self.ids().contains(id) <==> mid.ids().contains(id) by {
                                if exists|k: int| 0 <= k < self.reqs().len() && self.reqs()[k].id == id {
                                    let k = choose|k: int| 0 <= k < self.reqs().len() && self.reqs()[k].id == id;
                                    assert(mid.reqs()[k].id == id);
                                }
                                if exists|k: int| 0 <= k < mid.reqs().len() && mid.reqs()[k].id == id {
                                    let k = choose|k: int| 0 <= k < mid.reqs().len() && mid.reqs()[k].id == id;
                                    assert(self.reqs()[k].id == id);
                                }
                            }
                        }
                    }
                    let ghost mid2 = *self;
                    let second = self.refresh(current_time, date);
                    proof {
                        lemma_fresh_trans(old(self), &mid2, self);
                    }
                    match second {
                        Ok(_) => Ok(Response::Success),
                        Err(e) => Err(e),
                    }
                },
                Err(e) => {
                    proof {
                        lemma_same_ids(self, &mid);
                    }
                    Ok(Response::Error { msg: e.message() })
                },
            },
        }
    }

    /// Adds a requirement due at `due` on the current day, with a fresh id.
    pub fn add_requirement(&mut self, current_time: Timestamp, name: String, due: HourMinute) -> (r: Result<
        Response,
        ClientHandlingError,
    >)
        requires
            old(self).wf(),
            old(self).time_fits(current_time),
        ensures
            final(self).wf(),
            final(self).same_setup(old(self)),
            final(self).ids_fresh_since(old(self)),
            r is Ok ==> final(self).settled(),
            r == Err::<Response, ClientHandlingError>(ClientHandlingError::IdsExhausted) ==> old(
                self,
            ).id_generator.last_id + old(self).templates() + 1 > u64::MAX,
            r == Err::<Response, ClientHandlingError>(ClientHandlingError::IdsExhausted) && final(
                self).exhausted_from(old(self)) || exists|
                reqs1: Seq<Requirement>,
                last1: u64,
                lifted: Option<Timestamp>,
            |
                old(self).adjusted_to(reqs1, final(self).ranges(), last1, final(self).current_date)
                    && #[trigger] addition_outcome(final(self), old(self), current_time, name, due, r, reqs1, last1, lifted),
    {
        let date = current_time.get_date();
        let first = self.refresh(current_time, date);
        let ghost mid = *self;
        proof {
            if first is Ok {
                if self.current_date != old(self).current_date {
                    lemma_rebuilt_ids(old(self), self.reqs(), self.ranges(), self.id_generator.last_id, self.current_date->Some_0);
                }
            }
        }
        match first {
            Err(e) => {
                let result = Err(e);
                proof {
                    if e != ClientHandlingError::IdsExhausted {
                        assert(addition_outcome(self, old(self), current_time, name, due, result, self.reqs(), self.id_generator.last_id, None));
                    }
                }
                result
            },
            Ok(_) => {
                let lifted = match self.current_date {
                    Some(d) => lift_time(&d, &due),
                    None => None,
                };
                match lifted {
                    None => {
                        let result = Ok(Response::Error {
                            msg: String::from_str("The due time does not occur on the current day."),
                        });
                        proof {
                            assert(addition_outcome(self, old(self), current_time, name, due, result, mid.reqs(), mid.id_generator.last_id, lifted));
                        }
                        result
                    },
                    Some(due_time) => match self.id_generator.next_id() {
                        None => {
                            let result = Err(ClientHandlingError::IdsExhausted);
                            proof {
                                assert(addition_outcome(self, old(self), current_time, name, due, result, mid.reqs(), mid.id_generator.last_id, lifted));
                            }
                            result
                        },
                        Some(id) => {
                            self.constraints.requirements.push(
                                Requirement { id, name: name.clone(), due: due_time, complete: false },
                            );
                            proof {
                                assert forall|x: u64| #[trigger] self.ids().contains(x) implies x
                                    <= self.id_generator.last_id && (mid.ids().contains(x) || x
                                    == id) by {
                                    if exists|k: int| 0 <= k < self.reqs().len() && self.reqs()[k].id == x {
                                        let k = choose|k: int| 0 <= k < self.reqs().len() && self.reqs()[k].id == x;
                                        if k < mid.reqs().len() {
                                            assert(mid.reqs()[k].id == x);
                                            assert(mid.ids().contains(x));
                                        }
                                    } else {
                                        let k = choose|k: int| 0 <= k < self.ranges().len() && self.ranges()[k].id == x;
                                        assert(mid.ranges()[k].id == x);
                                        assert(mid.ids().contains(x));
                                    }
                                }
                            }
                            let ghost mid2 = *self;
                            let second = self.refresh(current_time, date);
                            let result = match second {
                                Ok(_) => Ok(Response::Success),
                                Err(e) => Err(e),
                            };
                            proof {
                                lemma_fresh_trans(old(self), &mid2, self);
                                assert(addition_outcome(self, old(self), current_time, name, due, result, mid.reqs(), mid.id_generator.last_id, lifted));
                            }
                            result
                        },
                    },
                }
            },
        }
    }
}

proof fn lemma_no_requirement_changes(reqs: Seq<Requirement>)
    requires
        forall|k: int| 0 <= k < reqs.len() ==> (#[trigger] reqs[k]).complete,
    ensures
        crate::constraints::requirement_changes(reqs) == Seq::<crate::simulator::StateChange>::empty(),
    decreases reqs.len(),
{
    if reqs.len() > 0 {
        let p = reqs.drop_last();
        assert forall|k: int| 0 <= k < p.len() implies (#[trigger] p[k]).complete by {
            assert(p[k] == reqs[k]);
        }
        lemma_no_requirement_changes(p);
        assert(reqs[reqs.len() - 1].complete);
    }
}

/// A work period and the break after it, with no constraint in force
/// (every requirement complete, no locked range): after an unlock at `t`
/// that ends the work period at `t + w`, the session reads Unlocked until
/// `t + w` and a refresh leaves the timer as it is; at `t + w` it reads
/// Locked for the break timer until `t + w + brk`.
pub proof fn lemma_work_period_then_break(
    reqs: Seq<Requirement>,
    ranges: Seq<TimeRange>,
    w: crate::time::Duration,
    brk: crate::time::Duration,
    t: Timestamp,
    t1: Timestamp,
)
    requires
        forall|k: int| 0 <= k < reqs.len() ==> (#[trigger] reqs[k]).complete,
        ranges.len() == 0,
        w.0 > 0,
        brk.0 > 0,
        t.0 >= 0,
        t.can_add(w),
        t.plus(w).can_add(brk),
        t.0 <= t1.0 < t.0 + w.0,
    ensures
        ({
            let working = BreakTimer::Unlocked { until: t.plus(w) };
            &&& sim_of(reqs, ranges, working, brk, t1) == Ok::<SimulatorResult, SimulatorError>(
                SimulatorResult {
                    target_state: CurrentState::Unlocked,
                    until: Some(t.plus(w)),
                    reason: crate::simulator::CurrentStateReason::BreakTimer,
                },
            )
            &&& settled_timer(working, t1, brk, CurrentState::Unlocked) == working
            &&& sim_of(reqs, ranges, working, brk, t.plus(w)) == Ok::<SimulatorResult, SimulatorError>(
                SimulatorResult {
                    target_state: CurrentState::Locked,
                    until: Some(t.plus(w).plus(brk)),
                    reason: crate::simulator::CurrentStateReason::BreakTimer,
                },
            )
        }),
{
    lemma_no_requirement_changes(reqs);
    let u = t.plus(w);
    let working = BreakTimer::Unlocked { until: u };
    // before the end of the work period: one event, the lock at `u`
    let a = StateChange { kind: StateChangeKind::BreakTimerLocked, time: u };
    let f1 = feed_of(reqs, ranges, advance(working, t1, brk));
    assert(advance(working, t1, brk) == working);
    assert(crate::constraints::range_changes(ranges) == Seq::<StateChange>::empty());
    assert(f1 =~= seq![a]);
    assert(sort_by_time(seq![a].drop_last()) == Seq::<StateChange>::empty());
    assert(seq![a].drop_last() =~= Seq::<StateChange>::empty());
    assert(insert_by_time(Seq::<StateChange>::empty(), a) == seq![a]);
    assert(sort_by_time(f1) == seq![a]);
    let init = crate::simulator::initial_sim_state();
    let locked = crate::simulator::SimState { timer: CurrentState::Locked, ..init };
    assert(crate::simulator::apply_change(init, a.kind) == Ok::<crate::simulator::SimState, SimulatorError>(locked));
    assert(crate::simulator::composed_state(locked) == CurrentState::Locked);
    assert(crate::simulator::scan(seq![a], 0, init, CurrentState::Unlocked, t1.0) == Ok::<SimulatorResult, SimulatorError>(
        SimulatorResult {
            target_state: CurrentState::Unlocked,
            until: Some(u),
            reason: crate::simulator::CurrentStateReason::BreakTimer,
        },
    ));
    assert(settled_timer(working, t1, brk, CurrentState::Unlocked) == working);
    // at the end of the work period: locked from the start, unlockable at `u + brk`
    let v = u.plus(brk);
    assert(advance(working, u, brk) == (BreakTimer::Locked { until: v }));
    let b0 = StateChange { kind: StateChangeKind::BreakTimerLocked, time: Timestamp(0) };
    let b1 = StateChange { kind: StateChangeKind::BreakTimerUnlockable, time: v };
    let f2 = feed_of(reqs, ranges, advance(working, u, brk));
    assert(f2 =~= seq![b0, b1]);
    assert(f2.drop_last() =~= seq![b0]);
    assert(seq![b0].drop_last() =~= Seq::<StateChange>::empty());
    assert(insert_by_time(Seq::<StateChange>::empty(), b0) == seq![b0]);
    assert(sort_by_time(seq![b0]) == seq![b0]);
    assert(insert_by_time(seq![b0], b1) == seq![b0].push(b1));
    assert(seq![b0].push(b1) =~= seq![b0, b1]);
    assert(sort_by_time(f2) == seq![b0, b1]);
    let ev = seq![b0, b1];
    let unlockable = crate::simulator::SimState { timer: CurrentState::Unlockable, ..init };
    assert(crate::simulator::apply_change(init, b0.kind) == Ok::<crate::simulator::SimState, SimulatorError>(locked));
    assert(crate::simulator::apply_change(locked, b1.kind) == Ok::<crate::simulator::SimState, SimulatorError>(unlockable));
    assert(crate::simulator::composed_state(unlockable) == CurrentState::Unlockable);
    assert(ev[0] == b0 && ev[1] == b1);
    assert(crate::simulator::scan(ev, 1, locked, CurrentState::Locked, u.0) == Ok::<SimulatorResult, SimulatorError>(
        SimulatorResult {
            target_state: CurrentState::Locked,
            until: Some(v),
            reason: crate::simulator::CurrentStateReason::BreakTimer,
        },
    ));
    assert(crate::simulator::scan(ev, 0, init, CurrentState::Unlocked, u.0) == crate::simulator::scan(ev, 1, locked, CurrentState::Locked, u.0));
}

/// A day's rebuild from valid templates keeps every template: with `k`
/// the id counter before it, requirement `i` comes from template `i`, with
/// its name, id `k + i + 1`, incomplete, due at its time lifted to `date`;
/// range `i` comes from range template `i`, with id `k + R + i + 1` and
/// each bound absent exactly when the template's is, else lifted to
/// `date`; and the counter ends at `k + R + G`.
pub proof fn lemma_rebuild_keeps_every_template(
    m: &DiagonatorManager,
    reqs: Seq<Requirement>,
    ranges: Seq<TimeRange>,
    last_id: u64,
    date: LocalDate,
)
    requires
        m.config.templates_valid(),
        m.rebuilt_as(reqs, ranges, last_id, date),
    ensures
        ({
            let k = m.id_generator.last_id as int;
            let templates = m.config.requirements@;
            let range_templates = m.config.locked_time_ranges@;
            &&& reqs.len() == templates.len()
            &&& ranges.len() == range_templates.len()
            &&& last_id == k + templates.len() + range_templates.len()
            &&& forall|i: int|
                0 <= i < reqs.len() ==> {
                    let r = #[trigger] reqs[i];
                    &&& r.id == k + i + 1
                    &&& r.name == templates[i].name
                    &&& !r.complete
                    &&& crate::registry::lifted_near(date, templates[i].due, r.due)
                }
            &&& forall|i: int|
                0 <= i < ranges.len() ==> {
                    let g = #[trigger] ranges[i];
                    &&& g.id == k + templates.len() + i + 1
                    &&& (g.start is None <==> range_templates[i].start is None)
                    &&& (g.end is None <==> range_templates[i].end is None)
                    &&& g.start matches Some(s) ==> crate::registry::lifted_near(
                        date,
                        range_templates[i].start->0,
                        s,
                    )
                    &&& g.end matches Some(e) ==> crate::registry::lifted_near(
                        date,
                        range_templates[i].end->0,
                        e,
                    )
                }
        }),
{
    let (dues, starts, ends) = choose|dues: Seq<Option<Timestamp>>, starts: Seq<Option<Option<Timestamp>>>, ends: Seq<Option<Option<Timestamp>>>|
        #![trigger lifted_for(date, m.config.requirements@, m.config.locked_time_ranges@, dues, starts, ends)]
        {
            &&& lifted_for(date, m.config.requirements@, m.config.locked_time_ranges@, dues, starts, ends)
            &&& reqs == build_requirements(m.config.requirements@, dues, m.id_generator.last_id as int, dues.len() as int)
            &&& ranges == build_ranges(starts, ends, m.id_generator.last_id + reqs.len(), starts.len() as int)
            &&& last_id == m.id_generator.last_id + reqs.len() + ranges.len()
        };
    let templates = m.config.requirements@;
    let range_templates = m.config.locked_time_ranges@;
    assert forall|i: int| 0 <= i < dues.len() implies (#[trigger] dues[i]) is Some by {
        assert(templates[i].due.wf());
    }
    assert forall|i: int| 0 <= i < starts.len() implies (#[trigger] starts[i]) is Some && ends[i] is Some by {
        assert(crate::config::bound_valid(range_templates[i].start));
        assert(crate::registry::bound_lifted(date, range_templates[i].start, starts[i]));
        assert(crate::registry::bound_lifted(date, range_templates[i].end, ends[i]));
    }
    crate::registry::lemma_build_requirements_all(templates, dues, m.id_generator.last_id as int, dues.len() as int);
    crate::registry::lemma_build_ranges_all(starts, ends, m.id_generator.last_id + reqs.len(), starts.len() as int);
    let k = m.id_generator.last_id as int;
    assert forall|i: int| 0 <= i < reqs.len() implies {
        let r = #[trigger] reqs[i];
        &&& r.id == k + i + 1
        &&& r.name == templates[i].name
        &&& !r.complete
        &&& crate::registry::lifted_near(date, templates[i].due, r.due)
    } by {
        assert(dues[i] is Some);
    }
    assert forall|i: int| 0 <= i < ranges.len() implies {
        let g = #[trigger] ranges[i];
        &&& g.id == k + templates.len() + i + 1
        &&& (g.start is None <==> range_templates[i].start is None)
        &&& (g.end is None <==> range_templates[i].end is None)
        &&& g.start matches Some(s) ==> crate::registry::lifted_near(date, range_templates[i].start->0, s)
        &&& g.end matches Some(e) ==> crate::registry::lifted_near(date, range_templates[i].end->0, e)
    } by {
        assert(crate::registry::bound_lifted(date, range_templates[i].start, starts[i]));
        assert(crate::registry::bound_lifted(date, range_templates[i].end, ends[i]));
    }
}

} // verus!

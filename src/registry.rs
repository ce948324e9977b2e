use crate::config::{LockedTimeRangeConfig, RequirementConfig};
use crate::constraints::{Requirement, TimeRange};
use crate::time::{near_reading, HourMinute, LocalDate, Timestamp};
use vstd::prelude::*;

verus! {

/// The requirements built from the first `n` templates with their due
/// times on the day: one per template whose time occurs, in template
/// order, incomplete, with consecutive ids after `floor`.
pub open spec fn build_requirements(
    templates: Seq<RequirementConfig>,
    dues: Seq<Option<Timestamp>>,
    floor: int,
    n: int,
) -> Seq<Requirement>
    decreases n,
{
    if n <= 0 {
        Seq::empty()
    } else {
        let prev = build_requirements(templates, dues, floor, n - 1);
        match dues[n - 1] {
            Some(due) => prev.push(
                Requirement {
                    id: (floor + prev.len() + 1) as u64,
                    name: templates[n - 1].name,
                    due,
                    complete: false,
                },
            ),
            None => prev,
        }
    }
}

/// The ranges built from the first `n` range templates with their bounds
/// on the day (`Some(None)` for an absent bound, `None` for a bound whose
/// time does not occur): one per template whose bounds both occur, in
/// template order, with consecutive ids after `floor`.
pub open spec fn build_ranges(
    starts: Seq<Option<Option<Timestamp>>>,
    ends: Seq<Option<Option<Timestamp>>>,
    floor: int,
    n: int,
) -> Seq<TimeRange>
    decreases n,
{
    if n <= 0 {
        Seq::empty()
    } else {
        let prev = build_ranges(starts, ends, floor, n - 1);
        match (starts[n - 1], ends[n - 1]) {
            (Some(start), Some(end)) => prev.push(
                TimeRange { id: (floor + prev.len() + 1) as u64, start, end },
            ),
            _ => prev,
        }
    }
}

/// The times of the templates as lifted to `date` by `lift_time` and
/// `lift_bound`: one per template, a valid due time always lifted, an
/// absent bound absent.
pub open spec fn lifted_for(
    date: LocalDate,
    requirement_templates: Seq<RequirementConfig>,
    range_templates: Seq<LockedTimeRangeConfig>,
    dues: Seq<Option<Timestamp>>,
    starts: Seq<Option<Option<Timestamp>>>,
    ends: Seq<Option<Option<Timestamp>>>,
) -> bool {
    &&& dues.len() == requirement_templates.len()
    &&& starts.len() == range_templates.len()
    &&& ends.len() == range_templates.len()
    &&& forall|k: int|
        0 <= k < dues.len() ==> ((#[trigger] dues[k] is Some) <==> requirement_templates[k].due.wf())
            && (dues[k] matches Some(t) ==> lifted_near(date, requirement_templates[k].due, t))
    &&& forall|k: int|
        0 <= k < starts.len() ==> bound_lifted(date, range_templates[k].start, #[trigger] starts[k])
    &&& forall|k: int|
        0 <= k < ends.len() ==> bound_lifted(date, range_templates[k].end, #[trigger] ends[k])
}

pub proof fn lemma_build_requirements(
    templates: Seq<RequirementConfig>,
    dues: Seq<Option<Timestamp>>,
    floor: int,
    n: int,
)
    requires
        0 <= n <= dues.len(),
        n <= templates.len(),
        0 <= floor,
        floor + build_requirements(templates, dues, floor, n).len() <= u64::MAX,
    ensures
        build_requirements(templates, dues, floor, n).len() <= n,
        forall|k: int|
            0 <= k < build_requirements(templates, dues, floor, n).len() ==> {
                let r = #[trigger] build_requirements(templates, dues, floor, n)[k];
                &&& r.id == floor + k + 1
                &&& !r.complete
                &&& exists|j: int| 0 <= j < n && templates[j].name == r.name
            },
    decreases n,
{
    if n > 0 {
        lemma_build_requirements(templates, dues, floor, n - 1);
        let prev = build_requirements(templates, dues, floor, n - 1);
        let cur = build_requirements(templates, dues, floor, n);
        assert forall|k: int| 0 <= k < cur.len() implies {
            let r = #[trigger] cur[k];
            &&& r.id == floor + k + 1
            &&& !r.complete
            &&& exists|j: int| 0 <= j < n && templates[j].name == r.name
        } by {
            if k < prev.len() {
                assert(cur[k] == prev[k]);
                let j = choose|j: int| 0 <= j < n - 1 && templates[j].name == prev[k].name;
            } else {
                assert(templates[n - 1].name == cur[k].name);
            }
        }
    }
}

pub proof fn lemma_build_ranges(
    starts: Seq<Option<Option<Timestamp>>>,
    ends: Seq<Option<Option<Timestamp>>>,
    floor: int,
    n: int,
)
    requires
        0 <= n <= starts.len(),
        n <= ends.len(),
        0 <= floor,
        floor + build_ranges(starts, ends, floor, n).len() <= u64::MAX,
    ensures
        build_ranges(starts, ends, floor, n).len() <= n,
        forall|k: int|
            0 <= k < build_ranges(starts, ends, floor, n).len() ==> (#[trigger] build_ranges(
                starts,
                ends,
                floor,
                n,
            )[k]).id == floor + k + 1,
    decreases n,
{
    if n > 0 {
        lemma_build_ranges(starts, ends, floor, n - 1);
        let prev = build_ranges(starts, ends, floor, n - 1);
        let cur = build_ranges(starts, ends, floor, n);
        assert forall|k: int| 0 <= k < cur.len() implies (#[trigger] cur[k]).id == floor + k + 1 by {
            if k < prev.len() {
                assert(cur[k] == prev[k]);
            }
        }
    }
}

proof fn lemma_requirements_grow(
    templates: Seq<RequirementConfig>,
    dues: Seq<Option<Timestamp>>,
    floor: int,
    i: int,
    n: int,
)
    requires
        0 <= i <= n,
    ensures
        build_requirements(templates, dues, floor, i).len() <= build_requirements(
            templates,
            dues,
            floor,
            n,
        ).len(),
    decreases n - i,
{
    if i < n {
        lemma_requirements_grow(templates, dues, floor, i, n - 1);
    }
}

proof fn lemma_ranges_grow(
    starts: Seq<Option<Option<Timestamp>>>,
    ends: Seq<Option<Option<Timestamp>>>,
    floor: int,
    i: int,
    n: int,
)
    requires
        0 <= i <= n,
    ensures
        build_ranges(starts, ends, floor, i).len() <= build_ranges(starts, ends, floor, n).len(),
    decreases n - i,
{
    if i < n {
        lemma_ranges_grow(starts, ends, floor, i, n - 1);
    }
}

proof fn lemma_ranges_len_any_floor(
    starts: Seq<Option<Option<Timestamp>>>,
    ends: Seq<Option<Option<Timestamp>>>,
    a: int,
    b: int,
    n: int,
)
    ensures
        build_ranges(starts, ends, a, n).len() == build_ranges(starts, ends, b, n).len(),
    decreases n,
{
    if n > 0 {
        lemma_ranges_len_any_floor(starts, ends, a, b, n - 1);
    }
}

pub proof fn lemma_build_requirements_len(
    templates: Seq<RequirementConfig>,
    dues: Seq<Option<Timestamp>>,
    floor: int,
    n: int,
)
    ensures
        build_requirements(templates, dues, floor, n).len() <= if n < 0 { 0 } else { n },
    decreases n,
{
    if n > 0 {
        lemma_build_requirements_len(templates, dues, floor, n - 1);
    }
}

pub proof fn lemma_build_ranges_len(
    starts: Seq<Option<Option<Timestamp>>>,
    ends: Seq<Option<Option<Timestamp>>>,
    floor: int,
    n: int,
)
    ensures
        build_ranges(starts, ends, floor, n).len() <= if n < 0 { 0 } else { n },
    decreases n,
{
    if n > 0 {
        lemma_build_ranges_len(starts, ends, floor, n - 1);
    }
}

/// When every due time occurs, every template is built, in order.
pub proof fn lemma_build_requirements_all(
    templates: Seq<RequirementConfig>,
    dues: Seq<Option<Timestamp>>,
    floor: int,
    n: int,
)
    requires
        0 <= n <= dues.len(),
        forall|k: int| 0 <= k < n ==> (#[trigger] dues[k]) is Some,
    ensures
        build_requirements(templates, dues, floor, n).len() == n,
        forall|k: int|
            0 <= k < n ==> #[trigger] build_requirements(templates, dues, floor, n)[k] == (
            Requirement {
                id: (floor + k + 1) as u64,
                name: templates[k].name,
                due: dues[k]->0,
                complete: false,
            }),
    decreases n,
{
    if n > 0 {
        lemma_build_requirements_all(templates, dues, floor, n - 1);
        let prev = build_requirements(templates, dues, floor, n - 1);
        let cur = build_requirements(templates, dues, floor, n);
        assert(dues[n - 1] is Some);
        assert forall|k: int| 0 <= k < n implies #[trigger] cur[k] == (Requirement {
            id: (floor + k + 1) as u64,
            name: templates[k].name,
            due: dues[k]->0,
            complete: false,
        }) by {
            if k < n - 1 {
                assert(cur[k] == prev[k]);
            }
        }
    }
}

/// When both bounds of every range template occur, every range is built,
/// in order.
pub proof fn lemma_build_ranges_all(
    starts: Seq<Option<Option<Timestamp>>>,
    ends: Seq<Option<Option<Timestamp>>>,
    floor: int,
    n: int,
)
    requires
        0 <= n <= starts.len(),
        n <= ends.len(),
        forall|k: int| 0 <= k < n ==> (#[trigger] starts[k]) is Some && ends[k] is Some,
    ensures
        build_ranges(starts, ends, floor, n).len() == n,
        forall|k: int|
            0 <= k < n ==> #[trigger] build_ranges(starts, ends, floor, n)[k] == (TimeRange {
                id: (floor + k + 1) as u64,
                start: starts[k]->0,
                end: ends[k]->0,
            }),
    decreases n,
{
    if n > 0 {
        lemma_build_ranges_all(starts, ends, floor, n - 1);
        let prev = build_ranges(starts, ends, floor, n - 1);
        let cur = build_ranges(starts, ends, floor, n);
        assert(starts[n - 1] is Some && ends[n - 1] is Some);
        assert forall|k: int| 0 <= k < n implies #[trigger] cur[k] == (TimeRange {
            id: (floor + k + 1) as u64,
            start: starts[k]->0,
            end: ends[k]->0,
        }) by {
            if k < n - 1 {
                assert(cur[k] == prev[k]);
            }
        }
    }
}

/// Builds a day's registry from the templates and their times on that day,
/// with ids after `last_id`; `None` where the 64-bit ids would run out.
pub fn build_registry(
    templates: &Vec<RequirementConfig>,
    dues: &Vec<Option<Timestamp>>,
    starts: &Vec<Option<Option<Timestamp>>>,
    ends: &Vec<Option<Option<Timestamp>>>,
    last_id: u64,
) -> (r: Option<(Vec<Requirement>, Vec<TimeRange>)>)
    requires
        dues@.len() == templates@.len(),
        starts@.len() == ends@.len(),
    ensures
        ({
            let reqs = build_requirements(templates@, dues@, last_id as int, dues@.len() as int);
            let ranges = build_ranges(
                starts@,
                ends@,
                last_id + reqs.len(),
                starts@.len() as int,
            );
            &&& (last_id + reqs.len() + ranges.len() <= u64::MAX) == r is Some
            &&& r matches Some((a, b)) ==> a@ == reqs && b@ == ranges
        }),
{
    let ghost n = dues@.len() as int;
    let mut reqs: Vec<Requirement> = Vec::new();
    let mut i: usize = 0;
    while i < dues.len()
        invariant
            n == dues@.len(),
            n == templates@.len(),
            i <= n,
            reqs@ == build_requirements(templates@, dues@, last_id as int, i as int),
            last_id + reqs@.len() <= u64::MAX,
        decreases n - i,
    {
        if let Some(due) = dues[i] {
            if reqs.len() as u64 >= u64::MAX - last_id {
                proof {
                    lemma_requirements_grow(templates@, dues@, last_id as int, i as int + 1, n);
                    assert(build_requirements(templates@, dues@, last_id as int, i as int + 1).len()
                        == reqs@.len() + 1);
                }
                return None;
            }
            let id = last_id + reqs.len() as u64 + 1;
            reqs.push(
                Requirement { id, name: templates[i].name.clone(), due, complete: false },
            );
        }
        i = i + 1;
    }
    let ghost floor = last_id + reqs@.len();
    let ghost m = starts@.len() as int;
    let mut ranges: Vec<TimeRange> = Vec::new();
    let mut j: usize = 0;
    while j < starts.len()
        invariant
            m == starts@.len(),
            m == ends@.len(),
            n == dues@.len(),
            j <= m,
            floor == last_id + reqs@.len(),
            floor <= u64::MAX,
            reqs@ == build_requirements(templates@, dues@, last_id as int, n),
            ranges@ == build_ranges(starts@, ends@, floor, j as int),
            floor + ranges@.len() <= u64::MAX,
        decreases m - j,
    {
        if let (Some(start), Some(end)) = (starts[j], ends[j]) {
            if reqs.len() as u64 + ranges.len() as u64 >= u64::MAX - last_id {
                proof {
                    lemma_ranges_grow(starts@, ends@, floor, j as int + 1, m);
                    assert(build_ranges(starts@, ends@, floor, j as int + 1).len() == ranges@.len()
                        + 1);
                }
                return None;
            }
            let id = last_id + reqs.len() as u64 + ranges.len() as u64 + 1;
            ranges.push(TimeRange { id, start, end });
        }
        j = j + 1;
    }
    Some((reqs, ranges))
}

/// `t` is a lifting of `hm` to `date`: within a day of the plain reading
/// of some minute of `date` from `hm` on.
pub open spec fn lifted_near(date: LocalDate, hm: HourMinute, t: Timestamp) -> bool {
    exists|m: int|
        hm.hour * 60 + hm.minute <= m < 1440 && #[trigger] near_reading(date, m, t)
}

/// A bound of a range template lifted to `date`: an absent bound stays
/// absent; a valid one is lifted; an invalid one gives `None`.
pub open spec fn bound_lifted(date: LocalDate, hm: Option<HourMinute>, b: Option<Option<Timestamp>>) -> bool {
    match hm {
        None => b == Some(None::<Timestamp>),
        Some(h) => {
            &&& (b is Some <==> h.wf())
            &&& b != Some(None::<Timestamp>)
            &&& b matches Some(Some(t)) ==> lifted_near(date, h, t)
        },
    }
}

/// The instant at which the local clock first reads a minute of `date`
/// from `hm` on: the instant of `hm` itself unless it falls in a gap in
/// local time, then the first later minute of that day that occurs. Where
/// no minute of the rest of the day occurs, the plain reading of `hm`.
/// `None` only for an invalid time of day.
pub fn lift_time(date: &LocalDate, hm: &HourMinute) -> (r: Option<Timestamp>)
    ensures
        hm.wf() <==> r is Some,
        r matches Some(t) ==> lifted_near(*date, *hm, t),
{
    if hm.hour > 23 || hm.minute > 59 {
        return None;
    }
    let start: u32 = hm.hour * 60 + hm.minute;
    let mut minute_of_day: u32 = start;
    while minute_of_day < 1440
        invariant
            hm.wf(),
            start == hm.hour * 60 + hm.minute,
            start <= minute_of_day,
        decreases 1440 - minute_of_day,
    {
        let probe = HourMinute { hour: minute_of_day / 60, minute: minute_of_day % 60 };
        if let Some(t) = Timestamp::from_date_hm(date, &probe) {
            proof {
                assert(probe.hour * 60 + probe.minute == minute_of_day);
                assert(near_reading(*date, minute_of_day as int, t));
            }
            return Some(t);
        }
        minute_of_day = minute_of_day + 1;
    }
    let t = crate::time::civil_reading(date, start);
    proof {
        assert(near_reading(*date, start as int, t));
    }
    Some(t)
}

/// A bound of a range template lifted to `date` as by `lift_time`.
pub fn lift_bound(date: &LocalDate, hm: &Option<HourMinute>) -> (r: Option<Option<Timestamp>>)
    ensures
        bound_lifted(*date, *hm, r),
{
    match hm {
        Some(hm) => match lift_time(date, hm) {
            Some(t) => Some(Some(t)),
            None => None,
        },
        None => Some(None),
    }
}

} // verus!

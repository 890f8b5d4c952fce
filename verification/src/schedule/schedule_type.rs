//! Types of school days and where a moment falls in one of them.
use vstd::prelude::*;

use crate::datetime::{local_now, time_le, time_lt, Date, LocalDateTime, Time};
use crate::schedule::period::{all_placed_on, placed_on, zone_may_not_place, zone_places, Period, PeriodType};

verus! {

broadcast use vstd::string::group_string_axioms;

/// A type of schedule that can occur.
#[derive(Debug)]
pub struct ScheduleType {
    /// A human-friendly name for the schedule, like "No School" or "E-Learning: Blue Day"
    pub friendly_name: String,
    /// A list of the periods in the day.
    pub periods: Vec<Period>,
    /// The regular expression which calendar entries for this schedule match, as its pattern.
    pub regex: Option<String>,
    /// The color of the schedule as RGB, for use in frontends.
    pub color: Option<[u8; 3]>,
    /// Whether the schedule type should be hidden by frontends.
    pub hide: bool,
}

/// The period is over at `t`: it ends at or before `t`.
pub open spec fn ended_by(p: Period, t: Time) -> bool {
    time_le(p.end, t)
}

/// The period has not begun at `t`: it starts after `t`.
pub open spec fn starts_after(p: Period, t: Time) -> bool {
    time_lt(t, p.start)
}

/// The period is going on at `t`: it is neither over nor yet to begin.
pub open spec fn is_current_at(p: Period, t: Time) -> bool {
    !ended_by(p, t) && !starts_after(p, t)
}

/// The period may be reported as the one before `t`: it is over and not a passing period.
pub open spec fn before_candidate(p: Period, t: Time) -> bool {
    ended_by(p, t) && !(p.kind is Passing)
}

/// The period may be reported as the one after `t`: it has not begun, is not
/// over, and is not a passing period.
pub open spec fn after_candidate(p: Period, t: Time) -> bool {
    !ended_by(p, t) && starts_after(p, t) && !(p.kind is Passing)
}

/// `ps[i]` is the first of the periods over at `t` with the latest end.
pub open spec fn is_latest_before(ps: Seq<Period>, t: Time, i: int) -> bool {
    &&& 0 <= i < ps.len()
    &&& before_candidate(ps[i], t)
    &&& forall|j: int| 0 <= j < ps.len() && before_candidate(#[trigger] ps[j], t) ==> time_le(ps[j].end, ps[i].end)
    &&& forall|j: int| 0 <= j < i && before_candidate(#[trigger] ps[j], t) ==> time_lt(ps[j].end, ps[i].end)
}

/// `ps[i]` is the first of the periods yet to begin at `t` with the earliest start.
pub open spec fn is_earliest_after(ps: Seq<Period>, t: Time, i: int) -> bool {
    &&& 0 <= i < ps.len()
    &&& after_candidate(ps[i], t)
    &&& forall|j: int| 0 <= j < ps.len() && after_candidate(#[trigger] ps[j], t) ==> time_le(ps[i].start, ps[j].start)
    &&& forall|j: int| 0 <= j < i && after_candidate(#[trigger] ps[j], t) ==> time_lt(ps[i].start, ps[j].start)
}

/// The period before `t`: the first, in order, of the non-passing periods over at
/// `t` with the latest end; `None` where there is none.
pub open spec fn latest_before(ps: Seq<Period>, t: Time) -> Option<Period> {
    if exists|i: int| is_latest_before(ps, t, i) {
        Some(ps[choose|i: int| is_latest_before(ps, t, i)])
    } else {
        None
    }
}

/// The period after `t`: the first, in order, of the non-passing periods yet to
/// begin at `t` with the earliest start; `None` where there is none.
pub open spec fn earliest_after(ps: Seq<Period>, t: Time) -> Option<Period> {
    if exists|i: int| is_earliest_after(ps, t, i) {
        Some(ps[choose|i: int| is_earliest_after(ps, t, i)])
    } else {
        None
    }
}

/// The periods going on at `t`, in order.
pub open spec fn current_at(ps: Seq<Period>, t: Time) -> Seq<Period> {
    ps.filter(|p: Period| is_current_at(p, t))
}

/// The test for a period over at `t` that ends at `e`.
pub open spec fn before_ending_at(t: Time, e: Time) -> spec_fn(Period) -> bool {
    |p: Period| before_candidate(p, t) && p.end == e
}

/// The test for a period yet to begin at `t` that starts at `s`.
pub open spec fn after_starting_at(t: Time, s: Time) -> spec_fn(Period) -> bool {
    |p: Period| after_candidate(p, t) && p.start == s
}

/// The periods over at `t` that end when the latest of them ends, in order.
pub open spec fn all_latest_before(ps: Seq<Period>, t: Time) -> Seq<Period> {
    match latest_before(ps, t) {
        Some(b) => ps.filter(before_ending_at(t, b.end)),
        None => Seq::empty(),
    }
}

/// The periods yet to begin at `t` that start when the earliest of them starts, in order.
pub open spec fn all_earliest_after(ps: Seq<Period>, t: Time) -> Seq<Period> {
    match earliest_after(ps, t) {
        Some(n) => ps.filter(after_starting_at(t, n.start)),
        None => Seq::empty(),
    }
}

/// The first period of the list whose kind is `Class(_)`.
pub open spec fn first_class_of(ps: Seq<Period>) -> Option<Period> {
    if exists|i: int| 0 <= i < ps.len() && (#[trigger] ps[i]).kind is Class {
        let i = choose|i: int|
            0 <= i < ps.len() && (#[trigger] ps[i]).kind is Class && forall|j: int|
                0 <= j < i ==> !((#[trigger] ps[j]).kind is Class);
        Some(ps[i])
    } else {
        None
    }
}

/// The two lists hold the same periods in the same order, texts compared by their characters.
pub open spec fn same_periods(a: Seq<Period>, b: Seq<Period>) -> bool {
    a.len() == b.len() && forall|i: int| 0 <= i < a.len() ==> (#[trigger] a[i]).same(b[i])
}

/// The two optional patterns are both absent or both present with the same characters.
pub open spec fn same_pattern(a: Option<String>, b: Option<String>) -> bool {
    match (a, b) {
        (None, None) => true,
        (Some(x), Some(y)) => x@ == y@,
        _ => false,
    }
}

/// `p` is a made-up period with this name, span and kind, and no timestamps.
pub open spec fn is_implicit(p: Period, name: Seq<char>, start: Time, end: Time, kind: PeriodType) -> bool {
    &&& p.friendly_name@ == name
    &&& p.start == start
    &&& p.end == end
    &&& p.start_timestamp == 0
    &&& p.end_timestamp == 0
    &&& p.kind == kind
}

/// What is going on at `t`, given the periods going on, the period before and the
/// period after: the periods going on where there are any; else the passing
/// period between the period before and the period after, the time before school
/// until the period after, or the time after school from the period before.
pub open spec fn fills_current(
    cur: Seq<Period>,
    going_on: Seq<Period>,
    before: Option<Period>,
    after: Option<Period>,
) -> bool {
    if going_on.len() > 0 {
        cur == going_on
    } else {
        match (before, after) {
            (Some(b), Some(n)) => cur.len() == 1 && is_implicit(
                cur[0],
                "Passing Period"@,
                b.end,
                n.start,
                PeriodType::Passing,
            ),
            (None, Some(n)) => cur.len() == 1 && is_implicit(
                cur[0],
                "Before School"@,
                Time { secs: 0, frac: 0 },
                n.start,
                PeriodType::BeforeSchool,
            ),
            (Some(b), None) => cur.len() == 1 && is_implicit(
                cur[0],
                "After School"@,
                b.end,
                Time { secs: 86399, frac: 0 },
                PeriodType::AfterSchool,
            ),
            (None, None) => cur.len() == 0,
        }
    }
}

/// The period before, the periods going on and the period after `t`, unpopulated.
pub open spec fn nearby_at(ps: Seq<Period>, t: Time, r: (Option<Period>, Seq<Period>, Option<Period>)) -> bool {
    if ps.len() == 0 {
        r.0 is None && r.1.len() == 0 && r.2 is None
    } else {
        &&& r.0 == latest_before(ps, t)
        &&& r.2 == earliest_after(ps, t)
        &&& fills_current(r.1, current_at(ps, t), r.0, r.2)
    }
}

/// The periods before, the periods going on and the periods after `t`, unpopulated.
pub open spec fn nearby_all_at(ps: Seq<Period>, t: Time, r: (Seq<Period>, Seq<Period>, Seq<Period>)) -> bool {
    if ps.len() == 0 {
        r.0.len() == 0 && r.1.len() == 0 && r.2.len() == 0
    } else {
        &&& r.0 == all_latest_before(ps, t)
        &&& r.2 == all_earliest_after(ps, t)
        &&& fills_current(r.1, current_at(ps, t), latest_before(ps, t), earliest_after(ps, t))
    }
}

/// Every period starts and ends at a time of day that chrono can hold.
pub open spec fn periods_times_wf(ps: Seq<Period>) -> bool {
    forall|i: int| 0 <= i < ps.len() ==> (#[trigger] ps[i]).start.wf() && ps[i].end.wf()
}

/// Where some period is a class, a first one is.
proof fn lemma_first_class_exists(ps: Seq<Period>, k: int)
    requires
        0 <= k < ps.len(),
        ps[k].kind is Class,
    ensures
        exists|i: int| 0 <= i < ps.len() && (#[trigger] ps[i]).kind is Class && forall|j: int| 0 <= j < i ==> !((#[trigger] ps[j]).kind is Class),
    decreases k,
{
    if exists|j: int| 0 <= j < k && (#[trigger] ps[j]).kind is Class {
        let j = choose|j: int| 0 <= j < k && (#[trigger] ps[j]).kind is Class;
        lemma_first_class_exists(ps, j);
    } else {
        assert(forall|j: int| 0 <= j < k ==> !((#[trigger] ps[j]).kind is Class));
    }
}

/// The first class of a list of periods is a class.
pub proof fn lemma_first_class_is_class(ps: Seq<Period>)
    ensures
        first_class_of(ps) matches Some(p) ==> p.kind is Class,
{
    if exists|i: int| 0 <= i < ps.len() && (#[trigger] ps[i]).kind is Class {
        let k = choose|i: int| 0 <= i < ps.len() && (#[trigger] ps[i]).kind is Class;
        lemma_first_class_exists(ps, k);
    }
}

/// Filtering keeps the times of the periods well formed.
proof fn lemma_filter_times_wf(s: Seq<Period>, pred: spec_fn(Period) -> bool)
    requires
        periods_times_wf(s),
    ensures
        periods_times_wf(s.filter(pred)),
    decreases s.len(),
{
    reveal(Seq::filter);
    if s.len() > 0 {
        lemma_filter_times_wf(s.drop_last(), pred);
        let sub = s.drop_last().filter(pred);
        assert forall|i: int| 0 <= i < s.filter(pred).len() implies (#[trigger] s.filter(pred)[i]).start.wf() && s.filter(pred)[i].end.wf() by {
            if i < sub.len() {
                assert(s.filter(pred)[i] == sub[i]);
            } else {
                assert(s.filter(pred)[i] == s.last());
            }
        }
    }
}

/// The local time zone places every time of these periods, and the first and
/// the last second of the day, on the local day of `at`.
pub open spec fn zone_places_all(at: LocalDateTime, ps: Seq<Period>) -> bool {
    &&& forall|i: int| 0 <= i < ps.len() ==> zone_places(at, #[trigger] ps[i])
    &&& !zone_may_not_place(at, Time { secs: 0, frac: 0 })
    &&& !zone_may_not_place(at, Time { secs: 86399, frac: 0 })
}

/// Every period of the list has both its times placed by the zone.
pub open spec fn all_zone_placed(at: LocalDateTime, ps: Seq<Period>) -> bool {
    forall|i: int| 0 <= i < ps.len() ==> zone_places(at, #[trigger] ps[i])
}

proof fn lemma_filter_zone_placed(s: Seq<Period>, pred: spec_fn(Period) -> bool, at: LocalDateTime)
    requires
        all_zone_placed(at, s),
    ensures
        all_zone_placed(at, s.filter(pred)),
    decreases s.len(),
{
    reveal(Seq::filter);
    if s.len() > 0 {
        lemma_filter_zone_placed(s.drop_last(), pred, at);
        let sub = s.drop_last().filter(pred);
        assert forall|i: int| 0 <= i < s.filter(pred).len() implies zone_places(at, #[trigger] s.filter(pred)[i]) by {
            if i < sub.len() {
                assert(s.filter(pred)[i] == sub[i]);
            } else {
                assert(s.filter(pred)[i] == s.last());
            }
        }
    }
}

/// Where the zone places every time of the periods and of the day's ends, it
/// places every period near `t`: before, going on and after.
pub(crate) proof fn lemma_near_zone_placed(ps: Seq<Period>, t: Time, at: LocalDateTime)
    requires
        zone_places_all(at, ps),
    ensures
        latest_before(ps, t) matches Some(b) ==> zone_places(at, b),
        earliest_after(ps, t) matches Some(n) ==> zone_places(at, n),
        all_zone_placed(at, current_at(ps, t)),
        latest_before(ps, t) matches Some(b) ==> all_zone_placed(at, all_latest_before(ps, t)),
        earliest_after(ps, t) matches Some(n) ==> all_zone_placed(at, all_earliest_after(ps, t)),
{
    if exists|i: int| is_latest_before(ps, t, i) {
        let i = choose|i: int| is_latest_before(ps, t, i);
        assert(zone_places(at, ps[i]));
        lemma_filter_zone_placed(ps, before_ending_at(t, ps[i].end), at);
    }
    if exists|i: int| is_earliest_after(ps, t, i) {
        let i = choose|i: int| is_earliest_after(ps, t, i);
        assert(zone_places(at, ps[i]));
        lemma_filter_zone_placed(ps, after_starting_at(t, ps[i].start), at);
    }
    lemma_filter_zone_placed(ps, |p: Period| is_current_at(p, t), at);
}

/// What is going on, as `fills_current` gives it, has its times placed where
/// the periods going on, the periods next to it and the ends of the day do.
pub(crate) proof fn lemma_fills_current_placed(cur: Seq<Period>, going_on: Seq<Period>, before: Option<Period>, after: Option<Period>, at: LocalDateTime)
    requires
        fills_current(cur, going_on, before, after),
        all_zone_placed(at, going_on),
        before matches Some(b) ==> zone_places(at, b),
        after matches Some(n) ==> zone_places(at, n),
        !zone_may_not_place(at, Time { secs: 0, frac: 0 }),
        !zone_may_not_place(at, Time { secs: 86399, frac: 0 }),
    ensures
        all_zone_placed(at, cur),
{
    if going_on.len() == 0 && cur.len() == 1 {
        assert(zone_places(at, cur[0]));
    }
}

/// `r` is an answer that `at_time_on` may give for the periods `ps` at `t` on
/// the local day of `now`: the period before, what is going on and the period
/// after, with their timestamps set on that day; and an answer there is
/// wherever the zone places the times involved.
pub open spec fn at_time_answer(ps: Seq<Period>, t: Time, now: LocalDateTime, r: Option<(Option<Period>, Vec<Period>, Option<Period>)>) -> bool {
    &&& r matches Some(x) ==> exists|u: (Option<Period>, Seq<Period>, Option<Period>)| {
        &&& nearby_at(ps, t, u)
        &&& opt_populated_from(x.0, u.0)
        &&& all_populated_from(x.1@, u.1)
        &&& opt_populated_from(x.2, u.2)
    }
    &&& zone_places_all(now, ps) ==> r is Some
}

/// `r` is an answer that `at_time_v2_on` may give for the periods `ps` at `t`
/// on the local day of `now`: every period before that ends last, what is
/// going on and every period after that starts first, with their timestamps
/// set on that day; and an answer there is wherever the zone places the times
/// involved.
pub open spec fn at_time_v2_answer(ps: Seq<Period>, t: Time, now: LocalDateTime, r: Option<(Vec<Period>, Vec<Period>, Vec<Period>)>) -> bool {
    &&& r matches Some(x) ==> exists|u: (Seq<Period>, Seq<Period>, Seq<Period>)| {
        &&& nearby_all_at(ps, t, u)
        &&& all_populated_from(x.0@, u.0)
        &&& all_populated_from(x.1@, u.1)
        &&& all_populated_from(x.2@, u.2)
    }
    &&& zone_places_all(now, ps) ==> r is Some
}

/// `r` is an answer that `populate_type` may give for `st` on the local day of
/// `date`: the schedule type with the timestamps of its periods set on that
/// day; and an answer there is wherever the zone places every time of its periods.
pub open spec fn populate_type_answer(st: ScheduleType, date: LocalDateTime, r: Option<ScheduleType>) -> bool {
    &&& r matches Some(x) ==> populated_type(x, st) && all_placed_on(x.periods@, date.date)
    &&& all_zone_placed(date, st.periods@) ==> r is Some
}

/// Populating a schedule type answers whenever the zone places every time of
/// its periods, however many periods it has: the answer keeps the name,
/// pattern, color and visibility, and has each period in its place with its
/// name, times and kind, and its timestamps set on the day.
pub proof fn law_populate_type_answers(st: ScheduleType, date: LocalDateTime, r: Option<ScheduleType>)
    requires
        populate_type_answer(st, date, r),
        all_zone_placed(date, st.periods@),
    ensures
        r matches Some(x) && {
            &&& x.friendly_name == st.friendly_name
            &&& x.regex == st.regex
            &&& x.color == st.color
            &&& x.hide == st.hide
            &&& x.periods@.len() == st.periods@.len()
            &&& forall|i: int| 0 <= i < st.periods@.len() ==> {
                &&& summary(#[trigger] x.periods@[i]) == summary(st.periods@[i])
                &&& placed_on(x.periods@[i], date.date)
            }
        },
{
    let x = r->0;
    assert forall|i: int| 0 <= i < st.periods@.len() implies {
        &&& summary(#[trigger] x.periods@[i]) == summary(st.periods@[i])
        &&& placed_on(x.periods@[i], date.date)
    } by {
        assert(populated_from(x.periods@[i], st.periods@[i]));
    }
}

/// During a period, `at_time_on` answers wherever the zone places the day's
/// times: what it reports as going on are the periods going on at `t`, in
/// order; the period before is the period that ended last before `t`, and the
/// period after is the one that starts first after it; each by its name,
/// times and kind.
pub proof fn law_at_time_answers_during_a_period(
    ps: Seq<Period>,
    t: Time,
    now: LocalDateTime,
    r: Option<(Option<Period>, Vec<Period>, Option<Period>)>,
)
    requires
        at_time_answer(ps, t, now, r),
        zone_places_all(now, ps),
        current_at(ps, t).len() > 0,
    ensures
        r matches Some(x) && {
            &&& x.1@.map_values(|p: Period| summary(p)) == current_at(ps, t).map_values(|p: Period| summary(p))
            &&& x.0 is Some <==> latest_before(ps, t) is Some
            &&& x.0 matches Some(b) ==> summary(b) == summary(latest_before(ps, t)->0)
            &&& x.2 is Some <==> earliest_after(ps, t) is Some
            &&& x.2 matches Some(n) ==> summary(n) == summary(earliest_after(ps, t)->0)
        },
{
    let x = r->0;
    let u = choose|u: (Option<Period>, Seq<Period>, Option<Period>)| {
        &&& nearby_at(ps, t, u)
        &&& opt_populated_from(x.0, u.0)
        &&& all_populated_from(x.1@, u.1)
        &&& opt_populated_from(x.2, u.2)
    };
    assert(ps.len() > 0) by {
        if ps.len() == 0 {
            assert(current_at(ps, t) =~= Seq::<Period>::empty()) by {
                reveal(Seq::filter);
            }
        }
    }
    assert(u.1 == current_at(ps, t));
    lemma_populated_summary(x.1@, u.1);
}

/// During a period, `at_time_v2_on` answers wherever the zone places the
/// day's times, and reports as going on the periods going on at `t`, in order,
/// each by its name, times and kind.
pub proof fn law_at_time_v2_answers_during_a_period(
    ps: Seq<Period>,
    t: Time,
    now: LocalDateTime,
    r: Option<(Vec<Period>, Vec<Period>, Vec<Period>)>,
)
    requires
        at_time_v2_answer(ps, t, now, r),
        zone_places_all(now, ps),
        current_at(ps, t).len() > 0,
    ensures
        r matches Some(x) && x.1@.map_values(|p: Period| summary(p)) == current_at(ps, t).map_values(|p: Period| summary(p)),
{
    let x = r->0;
    let u = choose|u: (Seq<Period>, Seq<Period>, Seq<Period>)| {
        &&& nearby_all_at(ps, t, u)
        &&& all_populated_from(x.0@, u.0)
        &&& all_populated_from(x.1@, u.1)
        &&& all_populated_from(x.2@, u.2)
    };
    assert(ps.len() > 0) by {
        if ps.len() == 0 {
            assert(current_at(ps, t) =~= Seq::<Period>::empty()) by {
                reveal(Seq::filter);
            }
        }
    }
    assert(u.1 == current_at(ps, t));
    lemma_populated_summary(x.1@, u.1);
}

/// What a period shows of itself: its name, start, end and kind.
pub open spec fn summary(p: Period) -> (Seq<char>, Time, Time, PeriodType) {
    (p.friendly_name@, p.start, p.end, p.kind)
}

/// What is going on at `t`, each by its name, start, end and kind: the periods
/// going on where there are any; else the passing period between the period
/// before and the period after, the time before school until the period after,
/// or the time after school from the period before.
pub open spec fn current_summary(ps: Seq<Period>, t: Time) -> Seq<(Seq<char>, Time, Time, PeriodType)> {
    if ps.len() == 0 {
        Seq::empty()
    } else if current_at(ps, t).len() > 0 {
        current_at(ps, t).map_values(|p: Period| summary(p))
    } else {
        match (latest_before(ps, t), earliest_after(ps, t)) {
            (Some(b), Some(n)) => seq![("Passing Period"@, b.end, n.start, PeriodType::Passing)],
            (None, Some(n)) => seq![("Before School"@, Time { secs: 0, frac: 0 }, n.start, PeriodType::BeforeSchool)],
            (Some(b), None) => seq![("After School"@, b.end, Time { secs: 86399, frac: 0 }, PeriodType::AfterSchool)],
            (None, None) => Seq::empty(),
        }
    }
}

/// The periods going on that `nearby_at` admits show what `current_summary` says.
pub proof fn lemma_current_summary(ps: Seq<Period>, t: Time, r: (Option<Period>, Seq<Period>, Option<Period>))
    requires
        nearby_at(ps, t, r),
    ensures
        r.1.map_values(|p: Period| summary(p)) == current_summary(ps, t),
{
    assert(r.1.map_values(|p: Period| summary(p)) =~= current_summary(ps, t));
}

/// Where the periods start and end at well-formed times, so do the period
/// before, the period after and what is going on at `t`.
pub proof fn lemma_nearby_times_wf(ps: Seq<Period>, t: Time)
    requires
        periods_times_wf(ps),
    ensures
        latest_before(ps, t) matches Some(b) ==> b.start.wf() && b.end.wf(),
        earliest_after(ps, t) matches Some(n) ==> n.start.wf() && n.end.wf(),
        forall|i: int| 0 <= i < current_summary(ps, t).len() ==> (#[trigger] current_summary(ps, t)[i]).1.wf()
            && current_summary(ps, t)[i].2.wf(),
{
    if exists|i: int| is_latest_before(ps, t, i) {
        let i = choose|i: int| is_latest_before(ps, t, i);
        assert(ps[i].start.wf() && ps[i].end.wf());
    }
    if exists|i: int| is_earliest_after(ps, t, i) {
        let i = choose|i: int| is_earliest_after(ps, t, i);
        assert(ps[i].start.wf() && ps[i].end.wf());
    }
    lemma_filter_times_wf(ps, |p: Period| is_current_at(p, t));
}

/// Nothing is near `t`: no period before it, nothing going on, no period after
/// it; there is then nothing to populate.
pub open spec fn nothing_near(ps: Seq<Period>, t: Time) -> bool {
    &&& latest_before(ps, t) is None
    &&& current_summary(ps, t).len() == 0
    &&& earliest_after(ps, t) is None
}

/// The periods going on that `nearby_all_at` admits show what `current_summary` says.
pub proof fn lemma_current_summary_all(ps: Seq<Period>, t: Time, r: (Seq<Period>, Seq<Period>, Seq<Period>))
    requires
        nearby_all_at(ps, t, r),
    ensures
        r.1.map_values(|p: Period| summary(p)) == current_summary(ps, t),
{
    assert(r.1.map_values(|p: Period| summary(p)) =~= current_summary(ps, t));
}

/// `q` is `p` with its timestamps set.
pub open spec fn populated_from(q: Period, p: Period) -> bool {
    &&& q.friendly_name == p.friendly_name
    &&& q.start == p.start
    &&& q.end == p.end
    &&& q.kind == p.kind
}

/// Each period of `qs` is the period of `ps` at its place, with its timestamps set.
pub open spec fn all_populated_from(qs: Seq<Period>, ps: Seq<Period>) -> bool {
    qs.len() == ps.len() && forall|i: int| 0 <= i < ps.len() ==> populated_from(#[trigger] qs[i], ps[i])
}

/// `q` is `p` with its timestamps set, both absent or both present.
pub open spec fn opt_populated_from(q: Option<Period>, p: Option<Period>) -> bool {
    match (q, p) {
        (Some(x), Some(y)) => populated_from(x, y),
        (None, None) => true,
        _ => false,
    }
}

/// Populating periods keeps what they show of themselves.
pub proof fn lemma_populated_summary(w: Seq<Period>, v: Seq<Period>)
    requires
        all_populated_from(w, v),
    ensures
        w.map_values(|p: Period| summary(p)) == v.map_values(|p: Period| summary(p)),
{
    assert forall|i: int| 0 <= i < v.len() implies #[trigger] summary(w[i]) == summary(v[i]) by {
        assert(populated_from(w[i], v[i]));
    }
    assert(w.map_values(|p: Period| summary(p)) =~= v.map_values(|p: Period| summary(p)));
}

/// `st` is `orig` with the timestamps of its periods set.
pub open spec fn populated_type(st: ScheduleType, orig: ScheduleType) -> bool {
    &&& st.friendly_name == orig.friendly_name
    &&& all_populated_from(st.periods@, orig.periods@)
    &&& st.regex == orig.regex
    &&& st.color == orig.color
    &&& st.hide == orig.hide
}

/// The schedule type with the timestamps of its periods set from `date`; `None`
/// where a period cannot be placed on that day in the local time zone.
pub fn populate_type(st: ScheduleType, date: &LocalDateTime) -> (r: Option<ScheduleType>)
    ensures
        populate_type_answer(st, *date, r),
        r matches Some(x) ==> populated_type(x, st) && all_placed_on(x.periods@, date.date),
        all_zone_placed(*date, st.periods@) ==> r is Some,
        st.periods@.len() == 0 ==> r is Some,
{
    let ScheduleType { friendly_name, periods, regex, color, hide } = st;
    let periods = populate_all(periods, date)?;
    Some(ScheduleType { friendly_name, periods, regex, color, hide })
}

proof fn lemma_latest_before_unique(ps: Seq<Period>, t: Time, i: int, j: int)
    requires
        is_latest_before(ps, t, i),
        is_latest_before(ps, t, j),
    ensures
        i == j,
{
    assert(before_candidate(ps[j], t));
    assert(before_candidate(ps[i], t));
    if i < j {
        assert(time_lt(ps[i].end, ps[j].end));
        assert(time_le(ps[j].end, ps[i].end));
    } else if j < i {
        assert(time_lt(ps[j].end, ps[i].end));
        assert(time_le(ps[i].end, ps[j].end));
    }
}

proof fn lemma_earliest_after_unique(ps: Seq<Period>, t: Time, i: int, j: int)
    requires
        is_earliest_after(ps, t, i),
        is_earliest_after(ps, t, j),
    ensures
        i == j,
{
    assert(after_candidate(ps[j], t));
    assert(after_candidate(ps[i], t));
    if i < j {
        assert(time_lt(ps[i].start, ps[j].start));
        assert(time_le(ps[j].start, ps[i].start));
    } else if j < i {
        assert(time_lt(ps[j].start, ps[i].start));
        assert(time_le(ps[i].start, ps[j].start));
    }
}

proof fn lemma_latest_before_at(ps: Seq<Period>, t: Time, i: int)
    requires
        is_latest_before(ps, t, i),
    ensures
        latest_before(ps, t) == Some(ps[i]),
{
    let k = choose|k: int| is_latest_before(ps, t, k);
    lemma_latest_before_unique(ps, t, i, k);
}

proof fn lemma_earliest_after_at(ps: Seq<Period>, t: Time, i: int)
    requires
        is_earliest_after(ps, t, i),
    ensures
        earliest_after(ps, t) == Some(ps[i]),
{
    let k = choose|k: int| is_earliest_after(ps, t, k);
    lemma_earliest_after_unique(ps, t, i, k);
}

/// Filtering a sequence with one more element at its end.
proof fn lemma_filter_push(s: Seq<Period>, x: Period, pred: spec_fn(Period) -> bool)
    ensures
        s.push(x).filter(pred) == (if pred(x) { s.filter(pred).push(x) } else { s.filter(pred) }),
{
    reveal(Seq::filter);
    assert(s.push(x).drop_last() =~= s);
}

/// Filtering with a predicate that holds of no element gives nothing.
proof fn lemma_filter_none(s: Seq<Period>, pred: spec_fn(Period) -> bool)
    requires
        forall|i: int| 0 <= i < s.len() ==> !pred(#[trigger] s[i]),
    ensures
        s.filter(pred) == Seq::<Period>::empty(),
    decreases s.len(),
{
    reveal(Seq::filter);
    if s.len() > 0 {
        lemma_filter_none(s.drop_last(), pred);
        assert(!pred(s[s.len() - 1]));
    }
}

/// Two predicates that agree on every element filter alike.
proof fn lemma_filter_agree(s: Seq<Period>, p1: spec_fn(Period) -> bool, p2: spec_fn(Period) -> bool)
    requires
        forall|i: int| 0 <= i < s.len() ==> p1(#[trigger] s[i]) == p2(s[i]),
    ensures
        s.filter(p1) == s.filter(p2),
    decreases s.len(),
{
    reveal(Seq::filter);
    if s.len() > 0 {
        lemma_filter_agree(s.drop_last(), p1, p2);
        assert(p1(s[s.len() - 1]) == p2(s[s.len() - 1]));
    }
}

/// Every element that the filter keeps satisfies the predicate.
proof fn lemma_filter_keeps(s: Seq<Period>, pred: spec_fn(Period) -> bool)
    ensures
        forall|i: int| 0 <= i < s.filter(pred).len() ==> pred(#[trigger] s.filter(pred)[i]),
    decreases s.len(),
{
    reveal(Seq::filter);
    if s.len() > 0 {
        lemma_filter_keeps(s.drop_last(), pred);
        let sub = s.drop_last().filter(pred);
        assert forall|i: int| 0 <= i < s.filter(pred).len() implies pred(#[trigger] s.filter(pred)[i]) by {
            if i < sub.len() {
                assert(s.filter(pred)[i] == sub[i]);
            }
        }
    }
}

/// The first element that the filter keeps is the first element that satisfies the predicate.
proof fn lemma_filter_first(s: Seq<Period>, pred: spec_fn(Period) -> bool, i: int)
    requires
        0 <= i < s.len(),
        pred(s[i]),
        forall|j: int| 0 <= j < i ==> !pred(#[trigger] s[j]),
    ensures
        s.filter(pred).len() > 0,
        s.filter(pred)[0] == s[i],
    decreases s.len(),
{
    reveal(Seq::filter);
    if i < s.len() - 1 {
        lemma_filter_first(s.drop_last(), pred, i);
    } else {
        lemma_filter_none(s.drop_last(), pred);
    }
}

/// Clones a list of periods.
pub fn clone_periods(v: &Vec<Period>) -> (r: Vec<Period>)
    ensures
        r@ == v@,
{
    let mut r: Vec<Period> = Vec::new();
    let mut i: usize = 0;
    while i < v.len()
        invariant
            i <= v.len(),
            r@ == v@.take(i as int),
        decreases v.len() - i,
    {
        r.push(v[i].clone());
        i = i + 1;
        assert(r@ =~= v@.take(i as int));
    }
    assert(v@.take(v.len() as int) =~= v@);
    r
}

/// Populates every period of a list from `date`; `None` where one cannot be populated.
pub fn populate_all(v: Vec<Period>, date: &LocalDateTime) -> (r: Option<Vec<Period>>)
    ensures
        r matches Some(w) ==> all_populated_from(w@, v@) && all_placed_on(w@, date.date),
        all_zone_placed(*date, v@) ==> r is Some,
        v@.len() == 0 ==> r is Some,
{
    let mut r: Vec<Period> = Vec::new();
    let mut i: usize = 0;
    while i < v.len()
        invariant
            i <= v.len(),
            r@.len() == i,
            forall|k: int| 0 <= k < i ==> populated_from(#[trigger] r@[k], v@[k]),
            all_placed_on(r@, date.date),
        decreases v.len() - i,
    {
        match v[i].clone().populate(date) {
            Some(p) => r.push(p),
            None => return None,
        }
        i = i + 1;
    }
    Some(r)
}

/// Populates an optional period from `date`; `None` where it cannot be populated.
fn populate_opt(p: Option<Period>, date: &LocalDateTime) -> (r: Option<Option<Period>>)
    ensures
        r matches Some(q) ==> opt_populated_from(q, p),
        r matches Some(Some(q)) ==> placed_on(q, date.date),
        (p matches Some(x) ==> zone_places(*date, x)) ==> r is Some,
        p is None ==> r == Some(None::<Period>),
{
    match p {
        None => Some(None),
        Some(p) => match p.populate(date) {
            Some(q) => Some(Some(q)),
            None => None,
        },
    }
}

/// Makes a period with this name, span and kind and no timestamps.
fn implicit_period(name: &str, start: Time, end: Time, kind: PeriodType) -> (r: Period)
    ensures
        is_implicit(r, name@, start, end, kind),
{
    Period {
        friendly_name: name.to_string(),
        start,
        start_timestamp: 0,
        end,
        end_timestamp: 0,
        kind,
    }
}

impl ScheduleType {
    /// Returns a tuple of the previous period, the current periods and the next
    /// period at `time`, without timestamps: the previous period is the first of
    /// the non-passing periods over at `time` with the latest end; the next is
    /// the first of the non-passing periods yet to begin with the earliest start;
    /// the current ones are those going on, in order, or else the passing period,
    /// the time before school or the time after school that `time` falls in.
    pub fn nearby_periods(&self, time: Time) -> (r: (Option<Period>, Vec<Period>, Option<Period>))
        ensures
            nearby_at(self.periods@, time, (r.0, r.1@, r.2)),
    {
        let ghost ps = self.periods@;
        if self.periods.len() == 0 {
            return (None, Vec::new(), None);
        }
        let mut before: Option<Period> = None;
        let mut current: Vec<Period> = Vec::new();
        let mut next: Option<Period> = None;
        let ghost mut bi: int = -1;
        let ghost mut ni: int = -1;
        let ghost cur_pred = |p: Period| is_current_at(p, time);
        let mut i: usize = 0;
        while i < self.periods.len()
            invariant
                ps == self.periods@,
                i <= ps.len(),
                cur_pred == (|p: Period| is_current_at(p, time)),
                current@ == ps.take(i as int).filter(cur_pred),
                before is None ==> forall|j: int| 0 <= j < i ==> !before_candidate(#[trigger] ps[j], time),
                before is Some ==> is_latest_before(ps.take(i as int), time, bi) && before == Some(ps[bi]),
                next is None ==> forall|j: int| 0 <= j < i ==> !after_candidate(#[trigger] ps[j], time),
                next is Some ==> is_earliest_after(ps.take(i as int), time, ni) && next == Some(ps[ni]),
            decreases ps.len() - i,
        {
            let period = &self.periods[i];
            let ghost pre = ps.take(i as int);
            let ghost post = ps.take(i + 1);
            assert(post =~= pre.push(ps[i as int]));
            proof {
                lemma_filter_push(pre, ps[i as int], cur_pred);
            }
            if period.end.le(&time) {
                if !period.kind.is_passing() {
                    match &before {
                        Some(b) => {
                            if b.end.lt(&period.end) {
                                before = Some(period.clone());
                                proof {
                                    bi = i as int;
                                }
                            }
                        },
                        None => {
                            before = Some(period.clone());
                            proof {
                                bi = i as int;
                            }
                        },
                    }
                }
            } else if time.lt(&period.start) {
                if !period.kind.is_passing() {
                    match &next {
                        Some(n) => {
                            if period.start.lt(&n.start) {
                                next = Some(period.clone());
                                proof {
                                    ni = i as int;
                                }
                            }
                        },
                        None => {
                            next = Some(period.clone());
                            proof {
                                ni = i as int;
                            }
                        },
                    }
                }
            } else {
                current.push(period.clone());
            }
            i = i + 1;
            proof {
                if before is Some {
                    assert forall|j: int| 0 <= j < post.len() && before_candidate(#[trigger] post[j], time)
                        implies time_le(post[j].end, post[bi].end) by {
                        if j < pre.len() {
                            assert(pre[j] == post[j]);
                        }
                    }
                    assert forall|j: int| 0 <= j < bi && before_candidate(#[trigger] post[j], time)
                        implies time_lt(post[j].end, post[bi].end) by {
                        assert(pre[j] == post[j]);
                    }
                }
                if next is Some {
                    assert forall|j: int| 0 <= j < post.len() && after_candidate(#[trigger] post[j], time)
                        implies time_le(post[ni].start, post[j].start) by {
                        if j < pre.len() {
                            assert(pre[j] == post[j]);
                        }
                    }
                    assert forall|j: int| 0 <= j < ni && after_candidate(#[trigger] post[j], time)
                        implies time_lt(post[ni].start, post[j].start) by {
                        assert(pre[j] == post[j]);
                    }
                }
            }
        }
        proof {
            assert(ps.take(ps.len() as int) =~= ps);
            if before is Some {
                lemma_latest_before_at(ps, time, bi);
            } else {
                assert(!exists|k: int| is_latest_before(ps, time, k));
            }
            if next is Some {
                lemma_earliest_after_at(ps, time, ni);
            } else {
                assert(!exists|k: int| is_earliest_after(ps, time, k));
            }
        }
        if current.len() == 0 {
            match (&before, &next) {
                (Some(b), Some(n)) => {
                    current = vec![implicit_period("Passing Period", b.end, n.start, PeriodType::Passing)];
                },
                (None, Some(n)) => {
                    current = vec![implicit_period("Before School", Time::midnight(), n.start, PeriodType::BeforeSchool)];
                },
                (Some(b), None) => {
                    current = vec![implicit_period("After School", b.end, Time::last_second(), PeriodType::AfterSchool)];
                },
                (None, None) => {},
            }
        }
        (before, current, next)
    }

    /// Returns a tuple of the previous periods, the current periods and the next
    /// periods at `time`, without timestamps: the previous periods are the
    /// non-passing periods over at `time` that end when the latest of them ends;
    /// the next ones are the non-passing periods yet to begin that start when the
    /// earliest of them starts; the current ones are as in `nearby_periods`.
    pub fn all_nearby_periods(&self, time: Time) -> (r: (Vec<Period>, Vec<Period>, Vec<Period>))
        ensures
            nearby_all_at(self.periods@, time, (r.0@, r.1@, r.2@)),
    {
        let ghost ps = self.periods@;
        if self.periods.len() == 0 {
            return (Vec::new(), Vec::new(), Vec::new());
        }
        let mut previous: Vec<Period> = Vec::new();
        let mut current: Vec<Period> = Vec::new();
        let mut future: Vec<Period> = Vec::new();
        let ghost mut bi: int = -1;
        let ghost mut ni: int = -1;
        let ghost cur_pred = |p: Period| is_current_at(p, time);
        let mut i: usize = 0;
        while i < self.periods.len()
            invariant
                ps == self.periods@,
                i <= ps.len(),
                cur_pred == (|p: Period| is_current_at(p, time)),
                current@ == ps.take(i as int).filter(cur_pred),
                previous@.len() == 0 ==> forall|j: int| 0 <= j < i ==> !before_candidate(#[trigger] ps[j], time),
                previous@.len() > 0 ==> is_latest_before(ps.take(i as int), time, bi)
                    && previous@ == ps.take(i as int).filter(before_ending_at(time, ps[bi].end))
                    && previous@[0] == ps[bi],
                future@.len() == 0 ==> forall|j: int| 0 <= j < i ==> !after_candidate(#[trigger] ps[j], time),
                future@.len() > 0 ==> is_earliest_after(ps.take(i as int), time, ni)
                    && future@ == ps.take(i as int).filter(after_starting_at(time, ps[ni].start))
                    && future@[0] == ps[ni],
            decreases ps.len() - i,
        {
            let period = &self.periods[i];
            let ghost pre = ps.take(i as int);
            let ghost post = ps.take(i + 1);
            let ghost x = ps[i as int];
            assert(post =~= pre.push(x));
            proof {
                lemma_filter_push(pre, x, cur_pred);
                if previous@.len() > 0 {
                    lemma_filter_push(pre, x, before_ending_at(time, ps[bi].end));
                }
                if future@.len() > 0 {
                    lemma_filter_push(pre, x, after_starting_at(time, ps[ni].start));
                }
            }
            if period.end.le(&time) {
                if !period.kind.is_passing() {
                    if previous.len() == 0 {
                        previous.push(period.clone());
                        proof {
                            bi = i as int;
                            lemma_filter_none(pre, before_ending_at(time, x.end));
                            lemma_filter_push(pre, x, before_ending_at(time, x.end));
                        }
                    } else if previous[0].end.lt(&period.end) {
                        previous = vec![period.clone()];
                        proof {
                            assert forall|j: int| 0 <= j < pre.len() implies !before_ending_at(time, x.end)(#[trigger] pre[j]) by {
                                if before_candidate(pre[j], time) {
                                    assert(time_le(pre[j].end, pre[bi].end));
                                }
                            }
                            bi = i as int;
                            lemma_filter_none(pre, before_ending_at(time, x.end));
                            lemma_filter_push(pre, x, before_ending_at(time, x.end));
                        }
                    } else if period.end == previous[0].end {
                        previous.push(period.clone());
                    }
                }
            } else if time.lt(&period.start) {
                if !period.kind.is_passing() {
                    if future.len() == 0 {
                        future.push(period.clone());
                        proof {
                            ni = i as int;
                            lemma_filter_none(pre, after_starting_at(time, x.start));
                            lemma_filter_push(pre, x, after_starting_at(time, x.start));
                        }
                    } else if period.start.lt(&future[0].start) {
                        future = vec![period.clone()];
                        proof {
                            assert forall|j: int| 0 <= j < pre.len() implies !after_starting_at(time, x.start)(#[trigger] pre[j]) by {
                                if after_candidate(pre[j], time) {
                                    assert(time_le(pre[ni].start, pre[j].start));
                                }
                            }
                            ni = i as int;
                            lemma_filter_none(pre, after_starting_at(time, x.start));
                            lemma_filter_push(pre, x, after_starting_at(time, x.start));
                        }
                    } else if period.start == future[0].start {
                        future.push(period.clone());
                    }
                }
            } else {
                current.push(period.clone());
            }
            i = i + 1;
            proof {
                if previous@.len() > 0 {
                    assert forall|j: int| 0 <= j < post.len() && before_candidate(#[trigger] post[j], time)
                        implies time_le(post[j].end, post[bi].end) by {
                        if j < pre.len() {
                            assert(pre[j] == post[j]);
                        }
                    }
                    assert forall|j: int| 0 <= j < bi && before_candidate(#[trigger] post[j], time)
                        implies time_lt(post[j].end, post[bi].end) by {
                        assert(pre[j] == post[j]);
                    }
                }
                if future@.len() > 0 {
                    assert forall|j: int| 0 <= j < post.len() && after_candidate(#[trigger] post[j], time)
                        implies time_le(post[ni].start, post[j].start) by {
                        if j < pre.len() {
                            assert(pre[j] == post[j]);
                        }
                    }
                    assert forall|j: int| 0 <= j < ni && after_candidate(#[trigger] post[j], time)
                        implies time_lt(post[ni].start, post[j].start) by {
                        assert(pre[j] == post[j]);
                    }
                }
            }
        }
        proof {
            assert(ps.take(ps.len() as int) =~= ps);
            if previous@.len() > 0 {
                lemma_latest_before_at(ps, time, bi);
            } else {
                assert(!exists|k: int| is_latest_before(ps, time, k));
            }
            if future@.len() > 0 {
                lemma_earliest_after_at(ps, time, ni);
            } else {
                assert(!exists|k: int| is_earliest_after(ps, time, k));
            }
        }
        if current.len() == 0 {
            if previous.len() > 0 && future.len() > 0 {
                current = vec![implicit_period("Passing Period", previous[0].end, future[0].start, PeriodType::Passing)];
            } else if previous.len() == 0 && future.len() > 0 {
                current = vec![implicit_period("Before School", Time::midnight(), future[0].start, PeriodType::BeforeSchool)];
            } else if previous.len() > 0 && future.len() == 0 {
                current = vec![implicit_period("After School", previous[0].end, Time::last_second(), PeriodType::AfterSchool)];
            }
        }
        assert(previous@ == all_latest_before(ps, time));
        assert(future@ == all_earliest_after(ps, time));
        assert(fills_current(current@, current_at(ps, time), latest_before(ps, time), earliest_after(ps, time)));
        (previous, current, future)
    }

    /// Returns a tuple of the previous period, the current periods and the next
    /// period at `time`, as `nearby_periods` finds them, each populated with the
    /// timestamps of its times on the local day of `now`. `None` where a period
    /// cannot be populated.
    pub fn at_time_on(&self, time: Time, now: &LocalDateTime) -> (r: Option<(Option<Period>, Vec<Period>, Option<Period>)>)
        ensures
            r matches Some(x) ==> exists|u: (Option<Period>, Seq<Period>, Option<Period>)| {
                &&& nearby_at(self.periods@, time, u)
                &&& opt_populated_from(x.0, u.0)
                &&& all_populated_from(x.1@, u.1)
                &&& opt_populated_from(x.2, u.2)
            },
            r matches Some(x) ==> {
                &&& x.0 matches Some(p) ==> placed_on(p, now.date)
                &&& all_placed_on(x.1@, now.date)
                &&& x.2 matches Some(p) ==> placed_on(p, now.date)
            },
            self.periods@.len() == 0 ==> (r matches Some(x) && x.0 is None && x.1@.len() == 0 && x.2 is None),
            nothing_near(self.periods@, time) ==> (r matches Some(x) && x.0 is None && x.1@.len() == 0 && x.2 is None),
            zone_places_all(*now, self.periods@) ==> r is Some,
            at_time_answer(self.periods@, time, *now, r),
    {
        if self.periods.len() == 0 {
            let r = (None, Vec::new(), None);
            assert(nearby_at(self.periods@, time, (r.0, r.1@, r.2)));
            assert(all_populated_from(r.1@, r.1@));
            return Some(r);
        }
        let (before, current, next) = self.nearby_periods(time);
        let ghost u = (before, current@, next);
        proof {
            lemma_current_summary(self.periods@, time, u);
            if zone_places_all(*now, self.periods@) {
                lemma_near_zone_placed(self.periods@, time, *now);
                lemma_fills_current_placed(u.1, current_at(self.periods@, time), u.0, u.2, *now);
            }
        }
        let before = populate_opt(before, now)?;
        let current = populate_all(current, now)?;
        let next = populate_opt(next, now)?;
        assert(nearby_at(self.periods@, time, u));
        Some((before, current, next))
    }

    /// Returns a tuple of the previous period, the current periods and the next
    /// period at `time`, populated with the timestamps of the local day now.
    /// `None` where a period cannot be populated.
    pub fn at_time(&self, time: Time) -> (r: Option<(Option<Period>, Vec<Period>, Option<Period>)>)
        ensures
            r matches Some(x) ==> exists|u: (Option<Period>, Seq<Period>, Option<Period>)| {
                &&& nearby_at(self.periods@, time, u)
                &&& opt_populated_from(x.0, u.0)
                &&& all_populated_from(x.1@, u.1)
                &&& opt_populated_from(x.2, u.2)
            },
            r matches Some(x) ==> exists|d: Date| {
                &&& d.wf()
                &&& x.0 matches Some(p) ==> placed_on(p, d)
                &&& all_placed_on(x.1@, d)
                &&& x.2 matches Some(p) ==> placed_on(p, d)
            },
            nothing_near(self.periods@, time) ==> (r matches Some(x) && x.0 is None && x.1@.len() == 0 && x.2 is None),
            r is None ==> exists|at: LocalDateTime| at.wf() && !zone_places_all(at, self.periods@),
    {
        let now = local_now();
        let r = self.at_time_on(time, &now);
        assert(r matches Some(x) ==> {
            &&& now.date.wf()
            &&& x.0 matches Some(p) ==> placed_on(p, now.date)
            &&& all_placed_on(x.1@, now.date)
            &&& x.2 matches Some(p) ==> placed_on(p, now.date)
        });
        r
    }

    /// Returns a tuple of the previous periods, the current periods and the next
    /// periods at `time`, as `all_nearby_periods` finds them, each populated with
    /// the timestamps of its times on the local day of `now`. `None` where a
    /// period cannot be populated.
    pub fn at_time_v2_on(&self, time: Time, now: &LocalDateTime) -> (r: Option<(Vec<Period>, Vec<Period>, Vec<Period>)>)
        ensures
            r matches Some(x) ==> exists|u: (Seq<Period>, Seq<Period>, Seq<Period>)| {
                &&& nearby_all_at(self.periods@, time, u)
                &&& all_populated_from(x.0@, u.0)
                &&& all_populated_from(x.1@, u.1)
                &&& all_populated_from(x.2@, u.2)
            },
            r matches Some(x) ==> all_placed_on(x.0@, now.date) && all_placed_on(x.1@, now.date) && all_placed_on(x.2@, now.date),
            nothing_near(self.periods@, time) ==> (r matches Some(x) && x.0@.len() == 0 && x.1@.len() == 0 && x.2@.len() == 0),
            zone_places_all(*now, self.periods@) ==> r is Some,
            at_time_v2_answer(self.periods@, time, *now, r),
    {
        let (previous, current, future) = self.all_nearby_periods(time);
        let ghost u = (previous@, current@, future@);
        proof {
            lemma_current_summary_all(self.periods@, time, u);
            if zone_places_all(*now, self.periods@) {
                let ps = self.periods@;
                lemma_near_zone_placed(ps, time, *now);
                if ps.len() > 0 {
                    lemma_fills_current_placed(u.1, current_at(ps, time), latest_before(ps, time), earliest_after(ps, time), *now);
                }
            }
        }
        let previous = populate_all(previous, now)?;
        let current = populate_all(current, now)?;
        let future = populate_all(future, now)?;
        assert(nearby_all_at(self.periods@, time, u));
        Some((previous, current, future))
    }

    /// Returns a tuple of the previous periods, the current periods and the next
    /// periods at `time`, populated with the timestamps of the local day now.
    /// `None` where a period cannot be populated.
    pub fn at_time_v2(&self, time: Time) -> (r: Option<(Vec<Period>, Vec<Period>, Vec<Period>)>)
        ensures
            r matches Some(x) ==> exists|u: (Seq<Period>, Seq<Period>, Seq<Period>)| {
                &&& nearby_all_at(self.periods@, time, u)
                &&& all_populated_from(x.0@, u.0)
                &&& all_populated_from(x.1@, u.1)
                &&& all_populated_from(x.2@, u.2)
            },
            r matches Some(x) ==> exists|d: Date| {
                &&& d.wf()
                &&& all_placed_on(x.0@, d)
                &&& all_placed_on(x.1@, d)
                &&& all_placed_on(x.2@, d)
            },
            nothing_near(self.periods@, time) ==> (r matches Some(x) && x.0@.len() == 0 && x.1@.len() == 0 && x.2@.len() == 0),
            r is None ==> exists|at: LocalDateTime| at.wf() && !zone_places_all(at, self.periods@),
    {
        let now = local_now();
        let r = self.at_time_v2_on(time, &now);
        assert(r matches Some(x) ==> now.date.wf() && all_placed_on(x.0@, now.date) && all_placed_on(x.1@, now.date)
            && all_placed_on(x.2@, now.date));
        r
    }

    /// Returns the first period of the schedule with the kind `Class(_)`.
    pub fn first_class(&self) -> (r: Option<Period>)
        ensures
            r == first_class_of(self.periods@),
    {
        let ghost ps = self.periods@;
        let mut i: usize = 0;
        while i < self.periods.len()
            invariant
                ps == self.periods@,
                i <= ps.len(),
                forall|j: int| 0 <= j < i ==> !((#[trigger] ps[j]).kind is Class),
            decreases ps.len() - i,
        {
            if self.periods[i].kind.is_class() {
                let ghost k = choose|k: int|
                    0 <= k < ps.len() && (#[trigger] ps[k]).kind is Class && forall|j: int|
                        0 <= j < k ==> !((#[trigger] ps[j]).kind is Class);
                assert(ps[i as int].kind is Class);
                assert(k == i) by {
                    if k < i {
                        assert(!(ps[k].kind is Class));
                    } else if k > i {
                        assert(!(ps[i as int].kind is Class));
                    }
                }
                return Some(self.periods[i].clone());
            }
            i = i + 1;
        }
        None
    }

    /// The period `offset` places from the first period equal to `period`; `None`
    /// where no period equals it or the place is outside the list.
    pub fn at_offset(&self, period: &Period, offset: isize) -> (r: Option<Period>)
        requires
            self.periods@.len() <= isize::MAX,
            forall|i: int| 0 <= i < self.periods@.len() && (#[trigger] self.periods@[i]).same(*period)
                ==> isize::MIN <= i + offset <= isize::MAX,
        ensures
            match first_same(self.periods@, *period) {
                None => r is None,
                Some(i) => if 0 <= i + offset < self.periods@.len() {
                    r == Some(self.periods@[i + offset])
                } else {
                    r is None
                },
            },
    {
        let ghost ps = self.periods@;
        let mut i: usize = 0;
        while i < self.periods.len()
            invariant
                ps == self.periods@,
                i <= ps.len(),
                forall|j: int| 0 <= j < i ==> !(#[trigger] ps[j]).same(*period),
                ps.len() <= isize::MAX,
                forall|j: int| 0 <= j < ps.len() && (#[trigger] ps[j]).same(*period)
                    ==> isize::MIN <= j + offset <= isize::MAX,
            decreases ps.len() - i,
        {
            if self.periods[i] == *period {
                proof {
                    lemma_first_same_at(ps, *period, i as int);
                }
                let target: isize = i as isize + offset;
                if target < 0 || target >= self.periods.len() as isize {
                    return None;
                }
                return Some(self.periods[target as usize].clone());
            }
            i = i + 1;
        }
        None
    }
}

/// Compares two lists of periods element by element.
fn periods_eq(a: &Vec<Period>, b: &Vec<Period>) -> (r: bool)
    ensures
        r == same_periods(a@, b@),
{
    if a.len() != b.len() {
        return false;
    }
    let mut i: usize = 0;
    while i < a.len()
        invariant
            a@.len() == b@.len(),
            i <= a@.len(),
            forall|j: int| 0 <= j < i ==> (#[trigger] a@[j]).same(b@[j]),
        decreases a@.len() - i,
    {
        if !(a[i] == b[i]) {
            return false;
        }
        i = i + 1;
    }
    true
}

/// Clones an optional text.
pub fn clone_opt_string(s: &Option<String>) -> (r: Option<String>)
    ensures
        r == *s,
{
    match s {
        Some(x) => Some(x.clone()),
        None => None,
    }
}

impl Clone for ScheduleType {
    fn clone(&self) -> (r: Self)
        ensures
            r.is_copy_of(*self),
    {
        ScheduleType {
            friendly_name: self.friendly_name.clone(),
            periods: clone_periods(&self.periods),
            regex: clone_opt_string(&self.regex),
            color: self.color,
            hide: self.hide,
        }
    }
}

/// The two optional colors are both absent or both present with the same components.
pub open spec fn same_color(a: Option<[u8; 3]>, b: Option<[u8; 3]>) -> bool {
    match (a, b) {
        (None, None) => true,
        (Some(x), Some(y)) => x@ == y@,
        _ => false,
    }
}

impl ScheduleType {
    /// `self` holds what `other` holds: the same texts, the same periods in the
    /// same order, the same pattern, color and visibility.
    pub open spec fn is_copy_of(self, other: ScheduleType) -> bool {
        &&& self.friendly_name == other.friendly_name
        &&& self.periods@ == other.periods@
        &&& self.regex == other.regex
        &&& self.color == other.color
        &&& self.hide == other.hide
    }

    /// Two schedule types are equal when their names, periods, colors and patterns
    /// are; whether they are hidden does not count.
    pub open spec fn same(self, other: ScheduleType) -> bool {
        &&& self.friendly_name@ == other.friendly_name@
        &&& same_periods(self.periods@, other.periods@)
        &&& same_color(self.color, other.color)
        &&& same_pattern(self.regex, other.regex)
    }
}

impl PartialEq for ScheduleType {
    fn eq(&self, other: &Self) -> (r: bool) {
        let same_color = match (&self.color, &other.color) {
            (None, None) => true,
            (Some(a), Some(b)) => a[0] == b[0] && a[1] == b[1] && a[2] == b[2],
            _ => false,
        };
        let same_regex = match (&self.regex, &other.regex) {
            (None, None) => true,
            (Some(a), Some(b)) => *a == *b,
            _ => false,
        };
        proof {
            if self.color is Some && other.color is Some {
                if same_color {
                    assert(self.color->0@ =~= other.color->0@);
                } else {
                    assert(self.color->0@[0] != other.color->0@[0] || self.color->0@[1] != other.color->0@[1]
                        || self.color->0@[2] != other.color->0@[2]);
                }
            }
        }
        self.friendly_name == other.friendly_name && periods_eq(&self.periods, &other.periods)
            && same_color && same_regex
    }
}

impl vstd::std_specs::cmp::PartialEqSpecImpl for ScheduleType {
    open spec fn obeys_eq_spec() -> bool {
        true
    }

    open spec fn eq_spec(&self, other: &ScheduleType) -> bool {
        self.same(*other)
    }
}

/// The place of the first period of the list that is the same as `p`.
pub open spec fn first_same(ps: Seq<Period>, p: Period) -> Option<int> {
    if exists|i: int| 0 <= i < ps.len() && (#[trigger] ps[i]).same(p) {
        Some(choose|i: int| 0 <= i < ps.len() && (#[trigger] ps[i]).same(p) && forall|j: int| 0 <= j < i ==> !(#[trigger] ps[j]).same(p))
    } else {
        None
    }
}

proof fn lemma_first_same_at(ps: Seq<Period>, p: Period, i: int)
    requires
        0 <= i < ps.len(),
        ps[i].same(p),
        forall|j: int| 0 <= j < i ==> !(#[trigger] ps[j]).same(p),
    ensures
        first_same(ps, p) == Some(i),
{
    let k = choose|k: int| 0 <= k < ps.len() && (#[trigger] ps[k]).same(p) && forall|j: int| 0 <= j < k ==> !(#[trigger] ps[j]).same(p);
    assert(k == i) by {
        if k < i {
            assert(!ps[k].same(p));
        } else if k > i {
            assert(!ps[i].same(p));
        }
    }
}

/// The reported previous periods of the day all end together, at the end of the
/// reported previous period, and none is a passing period; the reported next
/// periods all start together, at the start of the reported next period, and
/// none is a passing period.
pub proof fn law_neighbours_share_their_time(ps: Seq<Period>, t: Time)
    ensures
        forall|i: int| 0 <= i < all_latest_before(ps, t).len() ==> {
            let q = #[trigger] all_latest_before(ps, t)[i];
            &&& latest_before(ps, t) matches Some(b) && q.end == b.end
            &&& ended_by(q, t)
            &&& !(q.kind is Passing)
        },
        forall|i: int| 0 <= i < all_earliest_after(ps, t).len() ==> {
            let q = #[trigger] all_earliest_after(ps, t)[i];
            &&& earliest_after(ps, t) matches Some(n) && q.start == n.start
            &&& starts_after(q, t)
            &&& !(q.kind is Passing)
        },
{
    if let Some(b) = latest_before(ps, t) {
        lemma_filter_keeps(ps, before_ending_at(t, b.end));
    }
    if let Some(n) = earliest_after(ps, t) {
        lemma_filter_keeps(ps, after_starting_at(t, n.start));
    }
}

/// The first of the previous periods that the second way of asking reports is the
/// previous period that the first way reports, and likewise for the next
/// periods; both ways report the same periods going on.
pub proof fn law_both_ways_agree(ps: Seq<Period>, t: Time)
    ensures
        latest_before(ps, t) is None <==> all_latest_before(ps, t).len() == 0,
        latest_before(ps, t) matches Some(b) ==> all_latest_before(ps, t)[0] == b,
        earliest_after(ps, t) is None <==> all_earliest_after(ps, t).len() == 0,
        earliest_after(ps, t) matches Some(n) ==> all_earliest_after(ps, t)[0] == n,
{
    if exists|i: int| is_latest_before(ps, t, i) {
        let i = choose|i: int| is_latest_before(ps, t, i);
        let pred = before_ending_at(t, ps[i].end);
        assert forall|j: int| 0 <= j < i implies !pred(#[trigger] ps[j]) by {
            if before_candidate(ps[j], t) {
                assert(time_lt(ps[j].end, ps[i].end));
            }
        }
        lemma_filter_first(ps, pred, i);
    }
    if exists|i: int| is_earliest_after(ps, t, i) {
        let i = choose|i: int| is_earliest_after(ps, t, i);
        let pred = after_starting_at(t, ps[i].start);
        assert forall|j: int| 0 <= j < i implies !pred(#[trigger] ps[j]) by {
            if after_candidate(ps[j], t) {
                assert(time_lt(ps[i].start, ps[j].start));
            }
        }
        lemma_filter_first(ps, pred, i);
    }
}

/// `at_time` and `at_time_v2` agree: at one moment the single-period view is
/// the first of the all-periods view. The period before is the first of the
/// periods before, the period after is the first of the periods after, and the
/// periods going on are the same, each by its name, start, end and kind. `x`
/// is any result that `at_time` or `at_time_on` can return and `y` any result
/// that `at_time_v2` or `at_time_v2_on` can return, as their contracts give
/// them. Their timestamps come from separate calls into the time zone and are
/// compared by nothing here.
pub proof fn law_at_time_agrees_with_at_time_v2(
    ps: Seq<Period>,
    t: Time,
    x: (Option<Period>, Seq<Period>, Option<Period>),
    y: (Seq<Period>, Seq<Period>, Seq<Period>),
)
    requires
        exists|u: (Option<Period>, Seq<Period>, Option<Period>)| {
            &&& nearby_at(ps, t, u)
            &&& opt_populated_from(x.0, u.0)
            &&& all_populated_from(x.1, u.1)
            &&& opt_populated_from(x.2, u.2)
        },
        exists|v: (Seq<Period>, Seq<Period>, Seq<Period>)| {
            &&& nearby_all_at(ps, t, v)
            &&& all_populated_from(y.0, v.0)
            &&& all_populated_from(y.1, v.1)
            &&& all_populated_from(y.2, v.2)
        },
    ensures
        x.0 is None <==> y.0.len() == 0,
        x.0 matches Some(b) ==> summary(b) == summary(y.0[0]),
        x.2 is None <==> y.2.len() == 0,
        x.2 matches Some(n) ==> summary(n) == summary(y.2[0]),
        x.1.map_values(|p: Period| summary(p)) == y.1.map_values(|p: Period| summary(p)),
{
    let u = choose|u: (Option<Period>, Seq<Period>, Option<Period>)| {
        &&& nearby_at(ps, t, u)
        &&& opt_populated_from(x.0, u.0)
        &&& all_populated_from(x.1, u.1)
        &&& opt_populated_from(x.2, u.2)
    };
    let v = choose|v: (Seq<Period>, Seq<Period>, Seq<Period>)| {
        &&& nearby_all_at(ps, t, v)
        &&& all_populated_from(y.0, v.0)
        &&& all_populated_from(y.1, v.1)
        &&& all_populated_from(y.2, v.2)
    };
    lemma_current_summary(ps, t, u);
    lemma_current_summary_all(ps, t, v);
    lemma_populated_summary(x.1, u.1);
    lemma_populated_summary(y.1, v.1);
    law_both_ways_agree(ps, t);
    if ps.len() > 0 {
        if let Some(b) = x.0 {
            assert(populated_from(y.0[0], v.0[0]));
        }
        if let Some(n) = x.2 {
            assert(populated_from(y.2[0], v.2[0]));
        }
    }
}

/// The previous period is over at the time and is no passing period; the next
/// period has not begun and is no passing period; every period reported as going
/// on covers the time.
pub proof fn law_neighbours_are_placed_right(ps: Seq<Period>, t: Time)
    ensures
        latest_before(ps, t) matches Some(b) ==> ended_by(b, t) && !(b.kind is Passing),
        earliest_after(ps, t) matches Some(n) ==> starts_after(n, t) && !ended_by(n, t) && !(n.kind is Passing),
        forall|i: int| 0 <= i < current_at(ps, t).len() ==> is_current_at(#[trigger] current_at(ps, t)[i], t),
{
    lemma_filter_keeps(ps, |p: Period| is_current_at(p, t));
}

} // verus!

//! The legacy API: responses in the shape that older ETHSBell clients read.
use vstd::prelude::*;

use crate::datetime::{civil_from_days, minutes_between, time_display, time_lt, time_to_string, trunc_div, whole_seconds_between, Date, LocalDateTime, Time};
use crate::impls::{largest, lemma_largest, MaxElement};
use crate::schedule::period::{placed_on, Period, PeriodType};
use crate::schedule::schedule_inner::{day_periods, lemma_on_date_periods, Schedule};
use crate::schedule::schedule_type::{
    current_summary, earliest_after, first_class_of, latest_before, lemma_current_summary, lemma_first_class_is_class,
    lemma_near_zone_placed, lemma_nearby_times_wf, periods_times_wf, starts_after, summary, zone_places_all, ScheduleType,
};
use crate::text::{int_display, join_chars, join_texts, nat_text, push_nat, push_str, string_of, strings_view};

verus! {

broadcast use vstd::string::group_string_axioms;

/// A time of day as the legacy API writes it: the hour and the minute, without
/// leading zeros, joined by a colon.
pub open spec fn time_legacy(t: Time) -> Seq<char> {
    nat_text((t.secs / 3600) as nat) + ":"@ + nat_text((t.secs / 60 % 60) as nat)
}

/// A date as the legacy API writes it: year, month and day, without leading
/// zeros, joined by dashes.
pub open spec fn date_legacy(d: Date) -> Seq<char> {
    let c = civil_from_days(d.days as int);
    int_display(c.0) + "-"@ + nat_text(c.1 as nat) + "-"@ + nat_text(c.2 as nat)
}

/// The name of a day of the week, counted from Sunday.
pub open spec fn weekday_legacy(w: int) -> Seq<char> {
    if w == 0 {
        "Sunday"@
    } else if w == 1 {
        "Monday"@
    } else if w == 2 {
        "Tuesday"@
    } else if w == 3 {
        "Wednesday"@
    } else if w == 4 {
        "Thursday"@
    } else if w == 5 {
        "Friday"@
    } else {
        "Saturday"@
    }
}

/// The text that `Debug` writes for a string: the string in double quotes,
/// with the characters that need it escaped.
pub uninterp spec fn str_debug(s: Seq<char>) -> Seq<char>;

/// `format!("{:?}", s)` for a string: the text that `str_debug` names for it.
#[verifier::external_body]
fn debug_text(s: &str) -> (r: String)
    ensures
        r@ == str_debug(s@),
{
    format!("{:?}", s)
}

/// A kind of period as its `Debug` text: the name of the kind, with the text of
/// a class in parentheses.
pub open spec fn kind_debug(k: PeriodType) -> Seq<char> {
    match k {
        PeriodType::Class(s) => "Class("@ + str_debug(s@) + ")"@,
        PeriodType::ClassOrLunch(s) => "ClassOrLunch("@ + str_debug(s@) + ")"@,
        PeriodType::Lunch => "Lunch"@,
        PeriodType::Break => "Break"@,
        PeriodType::AMSupport => "AMSupport"@,
        PeriodType::Passing => "Passing"@,
        PeriodType::BeforeSchool => "BeforeSchool"@,
        PeriodType::AfterSchool => "AfterSchool"@,
        PeriodType::Announcements => "Announcements"@,
    }
}

/// The legacy API shows a period of this kind: it hides breaks and the time
/// before and after school.
pub open spec fn shown(k: PeriodType) -> bool {
    !(k is Break) && !(k is BeforeSchool) && !(k is AfterSchool)
}

/// A container for the schedule's name and the list of its periods.
#[derive(Debug)]
pub struct LegacyScheduleKey {
    /// The name of the schedule.
    pub name: String,
    /// Its periods.
    pub period_array: Vec<LegacyPeriod>,
}

/// A period as the legacy API represents it.
#[derive(Debug)]
pub struct LegacyPeriod {
    /// The start of the period, formatted as H:M
    pub start_time: String,
    /// The end of the period, formatted as H:M
    pub end_time: String,
    /// The period kind shown with Debug.
    pub period_notice: Option<String>,
    /// The friendly name of the period.
    pub period_name: String,
}

/// `lp` is the legacy form of `p`.
pub open spec fn is_legacy_period(lp: LegacyPeriod, p: Period) -> bool {
    &&& lp.start_time@ == time_legacy(p.start)
    &&& lp.end_time@ == time_legacy(p.end)
    &&& lp.period_notice matches Some(n) && n@ == kind_debug(p.kind)
    &&& lp.period_name@ == p.friendly_name@
}

/// The legacy API's response, as compatible with older clients as we can make it.
#[allow(non_snake_case)]
#[derive(Debug)]
pub struct LegacySchedule {
    /// Today's schedule
    pub schedule: LegacyScheduleKey,
    /// The name of the current period.
    pub theSlot: Option<String>,
    /// The time in seconds since 00:00 January 1st, 1970
    pub time: usize,
    /// The name of the next period.
    pub theNextSlot: Option<String>,
    /// The end of the current period, formatted as H:M
    pub periodEndTime: Option<String>,
    /// The end of the previous period in seconds since 00:00 January 1st, 1970. Might be broken.
    pub endOfPreviousPeriod: usize,
    /// The current date.
    pub formattedDate: String,
    /// The name of the day of the week.
    pub dayOfWeek: String,
    /// The current time, formatted as H:M
    pub formattedTime: String,
    /// Always null.
    pub scheduleCode: Option<String>,
    /// Always false.
    pub isListingForDay: bool,
    /// False if there are no periods.
    pub noSchedule: bool,
    /// True only if there is one or more Class(_) periods.
    pub schoolInSession: bool,
    /// Always "1"
    pub school_id: String,
    /// The class number of the next Class(_) period, or -1 if none exist.
    pub theNextSlot_: String,
    /// The time of day as a negative number of minutes.
    pub timeLeftInPeriod: isize,
    /// The time since the end of the last period in minutes.
    pub timeSinceLastPeriod: isize,
}

/// The characters of an optional text.
pub open spec fn opt_view(s: Option<String>) -> Option<Seq<char>> {
    match s {
        Some(x) => Some(x@),
        None => None,
    }
}

/// The period before `t` that the legacy API shows.
pub open spec fn shown_before(ps: Seq<Period>, t: Time) -> Option<Period> {
    match latest_before(ps, t) {
        Some(b) => if shown(b.kind) { Some(b) } else { None },
        None => None,
    }
}

/// The period after `t` that the legacy API shows.
pub open spec fn shown_after(ps: Seq<Period>, t: Time) -> Option<Period> {
    match earliest_after(ps, t) {
        Some(n) => if shown(n.kind) { Some(n) } else { None },
        None => None,
    }
}

/// The name and end of what the legacy API shows as going on at `t`: the one
/// thing going on, where there is exactly one and it is shown.
pub open spec fn shown_now(ps: Seq<Period>, t: Time) -> Option<(Seq<char>, Time)> {
    let c = current_summary(ps, t);
    if c.len() == 1 && shown(c[0].3) {
        Some((c[0].0, c[0].2))
    } else {
        None
    }
}

/// The name of the first class of the day.
pub open spec fn first_class_name(ps: Seq<Period>) -> Option<Seq<char>> {
    match first_class_of(ps) {
        Some(p) => Some(p.friendly_name@),
        None => None,
    }
}

/// The name of the next class: the period after `t` where it is a shown class,
/// else the first class of the day.
pub open spec fn next_slot(ps: Seq<Period>, t: Time) -> Option<Seq<char>> {
    match shown_after(ps, t) {
        Some(v) => if v.kind is Class { Some(v.friendly_name@) } else { first_class_name(ps) },
        None => first_class_name(ps),
    }
}

/// The next class after `t`: of the classes that start after `t`, the one that
/// starts first, the first in order where several start at once; `None` where
/// no class starts after `t`.
pub open spec fn next_class(ps: Seq<Period>, t: Time) -> Option<Period>
    decreases ps.len(),
{
    if ps.len() == 0 {
        None
    } else {
        let rest = next_class(ps.drop_last(), t);
        let p = ps.last();
        if p.kind is Class && starts_after(p, t) && (match rest {
            Some(q) => time_lt(p.start, q.start),
            None => true,
        }) {
            Some(p)
        } else {
            rest
        }
    }
}

/// The class number of the next class after `t`, or `-1` where there is none.
pub open spec fn next_class_number(ps: Seq<Period>, t: Time) -> Seq<char> {
    match next_class(ps, t) {
        Some(p) => match p.kind {
            PeriodType::Class(c) => c@,
            _ => "-1"@,
        },
        None => "-1"@,
    }
}

/// The number of periods of the list that are classes.
pub open spec fn class_count(ps: Seq<Period>) -> nat
    decreases ps.len(),
{
    if ps.len() == 0 {
        0
    } else {
        class_count(ps.drop_last()) + if ps.last().kind is Class { 1nat } else { 0nat }
    }
}

/// `l` is the legacy response for a schedule with this name and these periods
/// at local time `now`, at the Unix timestamp `timestamp`.
pub open spec fn is_legacy_schedule(l: LegacySchedule, name: Seq<char>, ps: Seq<Period>, now: LocalDateTime, timestamp: i64) -> bool {
    let t = now.time;
    &&& l.schedule.name@ == name
    &&& l.schedule.period_array@.len() == ps.len()
    &&& forall|i: int| 0 <= i < ps.len() ==> is_legacy_period(#[trigger] l.schedule.period_array@[i], ps[i])
    &&& opt_view(l.theSlot) == (match shown_now(ps, t) { Some(x) => Some(x.0), None => None })
    &&& l.time == timestamp as usize
    &&& opt_view(l.theNextSlot) == next_slot(ps, t)
    &&& opt_view(l.periodEndTime) == (match shown_now(ps, t) { Some(x) => Some(time_legacy(x.1)), None => None })
    &&& shown_before(ps, t) is None ==> l.endOfPreviousPeriod == 0
    &&& shown_before(ps, t) matches Some(b) ==> exists|q: Period| {
        &&& q.end == b.end
        &&& placed_on(q, now.date)
        &&& l.endOfPreviousPeriod == q.end_timestamp as usize
    }
    &&& l.formattedDate@ == date_legacy(now.date)
    &&& l.dayOfWeek@ == weekday_legacy(now.date.weekday_spec())
    &&& l.formattedTime@ == time_legacy(t)
    &&& l.scheduleCode is None
    &&& !l.isListingForDay
    &&& l.noSchedule == (ps.len() != 0)
    &&& l.schoolInSession == (class_count(ps) >= 1)
    &&& l.school_id@ == "1"@
    &&& l.theNextSlot_@ == next_class_number(ps, t)
    &&& l.timeLeftInPeriod == -((t.secs / 3600) * 60 + t.secs / 60 % 60)
    &&& l.timeSinceLastPeriod == (match shown_before(ps, t) {
        Some(b) => trunc_div(whole_seconds_between(t, b.end), 60),
        None => 0,
    })
}

/// Writes a time of day as the legacy API does.
pub fn time_to_legacy(t: Time) -> (r: String)
    ensures
        r@ == time_legacy(t),
{
    let mut out: Vec<char> = Vec::new();
    push_nat(&mut out, t.hour() as u64);
    push_str(&mut out, ":");
    push_nat(&mut out, t.minute() as u64);
    string_of(out.as_slice())
}

/// Writes a date as the legacy API does.
pub fn date_to_legacy(d: Date) -> (r: String)
    requires
        d.wf(),
    ensures
        r@ == date_legacy(d),
{
    let (y, m, day) = d.year_month_day();
    let mut out: Vec<char> = Vec::new();
    if y < 0 {
        push_str(&mut out, "-");
        push_nat(&mut out, (-(y as i64)) as u64);
    } else {
        push_nat(&mut out, y as u64);
    }
    push_str(&mut out, "-");
    push_nat(&mut out, m as u64);
    push_str(&mut out, "-");
    push_nat(&mut out, day as u64);
    proof {
        reveal_strlit("-");
    }
    assert(out@ =~= date_legacy(d));
    string_of(out.as_slice())
}

/// Writes the name of a day of the week, counted from Sunday.
pub fn weekday_to_legacy(w: u32) -> (r: String)
    ensures
        r@ == weekday_legacy(w as int),
{
    if w == 0 {
        "Sunday".to_string()
    } else if w == 1 {
        "Monday".to_string()
    } else if w == 2 {
        "Tuesday".to_string()
    } else if w == 3 {
        "Wednesday".to_string()
    } else if w == 4 {
        "Thursday".to_string()
    } else if w == 5 {
        "Friday".to_string()
    } else {
        "Saturday".to_string()
    }
}

/// Writes a kind of period as its `Debug` text.
pub fn kind_to_debug(k: &PeriodType) -> (r: String)
    ensures
        r@ == kind_debug(*k),
{
    match k {
        PeriodType::Class(s) => {
            let mut out: Vec<char> = Vec::new();
            push_str(&mut out, "Class(");
            push_str(&mut out, debug_text(s.as_str()).as_str());
            push_str(&mut out, ")");
            string_of(out.as_slice())
        },
        PeriodType::ClassOrLunch(s) => {
            let mut out: Vec<char> = Vec::new();
            push_str(&mut out, "ClassOrLunch(");
            push_str(&mut out, debug_text(s.as_str()).as_str());
            push_str(&mut out, ")");
            string_of(out.as_slice())
        },
        PeriodType::Lunch => "Lunch".to_string(),
        PeriodType::Break => "Break".to_string(),
        PeriodType::AMSupport => "AMSupport".to_string(),
        PeriodType::Passing => "Passing".to_string(),
        PeriodType::BeforeSchool => "BeforeSchool".to_string(),
        PeriodType::AfterSchool => "AfterSchool".to_string(),
        PeriodType::Announcements => "Announcements".to_string(),
    }
}

/// Whether the legacy API shows a period of this kind.
fn is_shown(k: &PeriodType) -> (r: bool)
    ensures
        r == shown(*k),
{
    match k {
        PeriodType::Break | PeriodType::BeforeSchool | PeriodType::AfterSchool => false,
        _ => true,
    }
}

impl LegacyPeriod {
    /// The legacy form of a period.
    pub fn from_period(period: Period) -> (r: LegacyPeriod)
        ensures
            is_legacy_period(r, period),
    {
        LegacyPeriod {
            start_time: time_to_legacy(period.start),
            end_time: time_to_legacy(period.end),
            period_notice: Some(kind_to_debug(&period.kind)),
            period_name: period.friendly_name,
        }
    }
}

/// The number of classes among the periods.
fn count_classes(ps: &Vec<Period>) -> (r: usize)
    ensures
        r == class_count(ps@),
{
    let mut n: usize = 0;
    let mut i: usize = 0;
    while i < ps.len()
        invariant
            i <= ps@.len(),
            n == class_count(ps@.take(i as int)),
            n <= i,
        decreases ps@.len() - i,
    {
        assert(ps@.take(i + 1).drop_last() =~= ps@.take(i as int));
        if ps[i].kind.is_class() {
            n = n + 1;
        }
        i = i + 1;
    }
    assert(ps@.take(ps@.len() as int) =~= ps@);
    n
}

/// The class number of the next class after `t`, or `-1`.
fn next_class_text(ps: &Vec<Period>, t: Time) -> (r: String)
    ensures
        r@ == next_class_number(ps@, t),
{
    let mut best: Option<usize> = None;
    let mut i: usize = 0;
    while i < ps.len()
        invariant
            i <= ps@.len(),
            match best {
                Some(k) => k < i && next_class(ps@.take(i as int), t) == Some(ps@[k as int]),
                None => next_class(ps@.take(i as int), t) is None,
            },
        decreases ps@.len() - i,
    {
        assert(ps@.take(i + 1).drop_last() =~= ps@.take(i as int));
        assert(ps@.take(i + 1).last() == ps@[i as int]);
        if ps[i].kind.is_class() && t.lt(&ps[i].start) {
            match best {
                Some(k) => {
                    if ps[i].start.lt(&ps[k].start) {
                        best = Some(i);
                    }
                },
                None => {
                    best = Some(i);
                },
            }
        }
        i = i + 1;
    }
    assert(ps@.take(ps@.len() as int) =~= ps@);
    match best {
        Some(k) => match &ps[k].kind {
            PeriodType::Class(c) => c.clone(),
            _ => "-1".to_string(),
        },
        None => "-1".to_string(),
    }
}

impl LegacySchedule {
    /// The legacy response for a schedule at local time `now`, at the Unix
    /// timestamp `timestamp`: the period before, the one period going on and the
    /// period after, breaks and the time before and after school left out; the
    /// next class; the date, day and time; and the minutes since the period
    /// before ended. `None` where the end of the period before has no single
    /// moment in the local time zone on that day.
    pub fn from_at(schedule: ScheduleType, now: &LocalDateTime, timestamp: i64) -> (r: Option<LegacySchedule>)
        requires
            now.wf(),
            periods_times_wf(schedule.periods@),
        ensures
            r is None ==> shown_before(schedule.periods@, now.time) is Some,
            r matches Some(l) ==> is_legacy_schedule(l, schedule.friendly_name@, schedule.periods@, *now, timestamp),
            zone_places_all(*now, schedule.periods@) ==> r is Some,
    {
        let ghost ps = schedule.periods@;
        let t = now.time;
        let (before, current, next) = schedule.nearby_periods(t);
        proof {
            lemma_current_summary(ps, t, (before, current@, next));
            lemma_first_class_is_class(ps);
            if zone_places_all(*now, ps) {
                lemma_near_zone_placed(ps, t, *now);
            }
            if ps.len() == 0 {
                assert(latest_before(ps, t) is None);
                assert(earliest_after(ps, t) is None);
            }
        }
        let prev: Option<Period> = match before {
            Some(b) => if is_shown(&b.kind) {
                match b.populate(now) {
                    Some(q) => Some(q),
                    None => {
                        return None;
                    },
                }
            } else {
                None
            },
            None => None,
        };
        let mut the_slot: Option<String> = None;
        let mut period_end_time: Option<String> = None;
        if current.len() == 1 && is_shown(&current[0].kind) {
            assert(summary(current@[0]) == current_summary(ps, t)[0]);
            the_slot = Some(current[0].friendly_name.clone());
            period_end_time = Some(time_to_legacy(current[0].end));
        } else {
            assert(current@.len() == 1 ==> summary(current@[0]) == current_summary(ps, t)[0]);
        }
        let first = schedule.first_class();
        let next_shown: Option<Period> = match next {
            Some(n) => if is_shown(&n.kind) { Some(n) } else { None },
            None => None,
        };
        let the_next_slot: Option<String> = match &next_shown {
            Some(v) => if v.kind.is_class() {
                Some(v.friendly_name.clone())
            } else {
                match &first {
                    Some(f) => Some(f.friendly_name.clone()),
                    None => None,
                }
            },
            None => match &first {
                Some(f) => Some(f.friendly_name.clone()),
                None => None,
            },
        };
        let the_next_slot_number = next_class_text(&schedule.periods, t);
        let since: i64 = match &prev {
            Some(p) => {
                assert(p.end == latest_before(ps, t)->0.end);
                proof {
                    let b = latest_before(ps, t)->0;
                    let k = choose|i: int| crate::schedule::schedule_type::is_latest_before(ps, t, i);
                    assert(ps[k].end.wf());
                }
                minutes_between(t, p.end)
            },
            None => 0,
        };
        let end_of_previous: usize = match &prev {
            Some(p) => p.end_timestamp as usize,
            None => 0,
        };
        assert(prev matches Some(p) ==> p.end == shown_before(ps, t)->0.end && placed_on(p, now.date)
            && end_of_previous == p.end_timestamp as usize);
        let mut period_array: Vec<LegacyPeriod> = Vec::new();
        let mut i: usize = 0;
        while i < schedule.periods.len()
            invariant
                ps == schedule.periods@,
                i <= ps.len(),
                period_array@.len() == i,
                forall|k: int| 0 <= k < i ==> is_legacy_period(#[trigger] period_array@[k], ps[k]),
            decreases ps.len() - i,
        {
            period_array.push(LegacyPeriod::from_period(schedule.periods[i].clone()));
            i = i + 1;
        }
        let school_in_session = count_classes(&schedule.periods) >= 1;
        let no_schedule = schedule.periods.len() != 0;
        let hour = t.hour() as isize;
        let minute = t.minute() as isize;
        let since_minutes = since as isize;
        Some(LegacySchedule {
            schedule: LegacyScheduleKey { name: schedule.friendly_name, period_array },
            theSlot: the_slot,
            time: timestamp as usize,
            theNextSlot: the_next_slot,
            periodEndTime: period_end_time,
            endOfPreviousPeriod: end_of_previous,
            formattedDate: date_to_legacy(now.date),
            dayOfWeek: weekday_to_legacy(now.date.num_days_from_sunday()),
            formattedTime: time_to_legacy(t),
            scheduleCode: None,
            isListingForDay: false,
            noSchedule: no_schedule,
            schoolInSession: school_in_session,
            school_id: "1".to_string(),
            theNextSlot_: the_next_slot_number,
            timeLeftInPeriod: -(hour * 60 + minute),
            timeSinceLastPeriod: since_minutes,
        })
    }
}

/// The context of the legacy display page.
#[derive(Debug)]
pub struct LegacyDisplay {
    /// The names of what is going on, or `No Period`.
    pub friendly_name: String,
    /// The name of the next period, or `No Period`.
    pub next_friendly_name: String,
    /// The latest start of the next period, or `No Time`.
    pub start: String,
    /// The latest end of what is going on, or `No Time`.
    pub end: String,
}

/// A time as chrono writes it, or `No Time` where there is none.
pub open spec fn opt_time_text(o: Option<Time>) -> Seq<char> {
    match o {
        Some(m) => time_display(m),
        None => "No Time"@,
    }
}

/// The names of what is going on at `t`, joined with `, `; `No Period` where that gives nothing.
pub open spec fn display_name(ps: Seq<Period>, t: Time) -> Seq<char> {
    let j = join_texts(current_summary(ps, t).map_values(|x: (Seq<char>, Time, Time, PeriodType)| x.0), ", "@);
    if j.len() == 0 {
        "No Period"@
    } else {
        j
    }
}

/// The start of the period after `t`, where there is one.
pub open spec fn after_starts(ps: Seq<Period>, t: Time) -> Seq<Time> {
    match earliest_after(ps, t) {
        Some(n) => seq![n.start],
        None => Seq::empty(),
    }
}

/// `d` is the display context for these periods at `t`.
pub open spec fn is_legacy_display(d: LegacyDisplay, ps: Seq<Period>, t: Time) -> bool {
    &&& d.friendly_name@ == display_name(ps, t)
    &&& d.next_friendly_name@ == (match earliest_after(ps, t) {
        Some(n) => n.friendly_name@,
        None => "No Period"@,
    })
    &&& d.start@ == opt_time_text(largest(after_starts(ps, t)))
    &&& d.end@ == opt_time_text(largest(current_summary(ps, t).map_values(|x: (Seq<char>, Time, Time, PeriodType)| x.2)))
}

/// Writes the largest time of a list, or `No Time` where the list is empty.
fn largest_time_to_string(v: Vec<Time>) -> (r: String)
    requires
        forall|i: int| 0 <= i < v@.len() ==> (#[trigger] v@[i]).wf(),
    ensures
        r@ == opt_time_text(largest(v@)),
{
    let ghost s = v@;
    match v.max_element() {
        Some(m) => {
            proof {
                lemma_largest(s);
            }
            time_to_string(m)
        },
        None => "No Time".to_string(),
    }
}

/// This returns the context of the templated HTML response for use with the
/// legacy frontend and the browser extension: what is going on on the
/// schedule of `now`'s day at `now`, and what comes next.
pub fn display(schedule: &Schedule, now: &LocalDateTime) -> (r: LegacyDisplay)
    requires
        now.wf(),
        schedule.on_date_defined(now.date),
        day_periods(*schedule, now.date) matches Some(ps) && periods_times_wf(ps),
    ensures
        is_legacy_display(r, day_periods(*schedule, now.date)->0, now.time),
{
    let day = schedule.on_date(now.date);
    proof {
        lemma_on_date_periods(*schedule, now.date, day);
    }
    let st = day.0;
    let ghost ps = st.periods@;
    let t = now.time;
    let (_before, current, next) = st.nearby_periods(t);
    let ghost c = current_summary(ps, t);
    proof {
        lemma_current_summary(ps, t, (_before, current@, next));
        lemma_nearby_times_wf(ps, t);
        if ps.len() == 0 {
            assert(earliest_after(ps, t) is None);
        }
    }
    let mut names: Vec<String> = Vec::new();
    let mut ends: Vec<Time> = Vec::new();
    let mut i: usize = 0;
    while i < current.len()
        invariant
            c == current_summary(ps, t),
            current@.map_values(|p: Period| summary(p)) == c,
            i <= current@.len(),
            strings_view(names@) == c.take(i as int).map_values(|x: (Seq<char>, Time, Time, PeriodType)| x.0),
            ends@ == c.take(i as int).map_values(|x: (Seq<char>, Time, Time, PeriodType)| x.2),
        decreases current@.len() - i,
    {
        assert(c[i as int] == summary(current@[i as int]));
        let ghost old_names = names@;
        let name = current[i].friendly_name.clone();
        assert(name@ == c[i as int].0);
        names.push(name);
        ends.push(current[i].end);
        proof {
            assert(strings_view(names@) =~= strings_view(old_names).push(name@));
            assert(c.take(i + 1).map_values(|x: (Seq<char>, Time, Time, PeriodType)| x.0) =~= c.take(i as int).map_values(
                |x: (Seq<char>, Time, Time, PeriodType)| x.0,
            ).push(c[i as int].0));
        }
        i = i + 1;
        assert(strings_view(names@) =~= c.take(i as int).map_values(|x: (Seq<char>, Time, Time, PeriodType)| x.0));
        assert(ends@ =~= c.take(i as int).map_values(|x: (Seq<char>, Time, Time, PeriodType)| x.2));
    }
    assert(c.take(c.len() as int) =~= c);
    let joined = join_chars(&names, ", ");
    let friendly_name = if joined.len() == 0 {
        "No Period".to_string()
    } else {
        string_of(joined.as_slice())
    };
    let next_friendly_name = match &next {
        Some(p) => p.friendly_name.clone(),
        None => "No Period".to_string(),
    };
    let mut starts: Vec<Time> = Vec::new();
    match &next {
        Some(p) => starts.push(p.start),
        None => {},
    }
    assert(starts@ =~= after_starts(ps, t));
    let start = largest_time_to_string(starts);
    let end = largest_time_to_string(ends);
    LegacyDisplay { friendly_name, next_friendly_name, start, end }
}

/// The closest we can get to the legacy API with the differences in design
/// between us: the legacy response for the schedule of `now`'s day at `now`, at
/// the Unix timestamp `timestamp`.
pub fn data(schedule: &Schedule, now: &LocalDateTime, timestamp: i64) -> (r: Option<LegacySchedule>)
    requires
        now.wf(),
        schedule.on_date_defined(now.date),
        day_periods(*schedule, now.date) matches Some(ps) && periods_times_wf(ps),
    ensures
        exists|day: (ScheduleType, Option<String>)| {
            &&& schedule.is_on_date(now.date, day)
            &&& r is None ==> shown_before(day.0.periods@, now.time) is Some
            &&& r matches Some(l) ==> is_legacy_schedule(l, day.0.friendly_name@, day.0.periods@, *now, timestamp)
        },
        zone_places_all(*now, day_periods(*schedule, now.date)->0) ==> r is Some,
{
    let day = schedule.on_date(now.date);
    proof {
        lemma_on_date_periods(*schedule, now.date, day);
    }
    let ghost d = day;
    let r = LegacySchedule::from_at(day.0, now, timestamp);
    assert(schedule.is_on_date(now.date, d));
    r
}

} // verus!

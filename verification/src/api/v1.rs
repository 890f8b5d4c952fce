//! Version 1 of the API: what each endpoint computes from the schedule.
use vstd::prelude::*;

use crate::aliases::v1::NearbyPeriods;
use crate::api::{Json, OurError};
use crate::datetime::{
    date_from_text, effective_stamp, moved_to, parse_date_text, parse_time_text, rfc2822_at, rfc2822_now, stamp_in_range, time_display,
    time_from_text, time_to_string, utc_day, Date, LocalDateTime, Time, MAX_DAYS, MIN_DAYS,
};
use crate::ical::format::{split_on, split_pattern, texts_view, trim, trim_chars};
use crate::ical::generate::{generated_text, generation_defined};
use crate::ical::{IcalEvent, IcalResponder};
use crate::login::Authenticated;
use crate::schedule::period::{all_placed_on, placed_on, Period, PeriodType};
use crate::schedule::literal::{has_parts, literal_schedule};
use crate::schedule::schedule_inner::{day_periods, lemma_on_date_periods, DaySource, Schedule};
use crate::schedule::schedule_type::{
    all_populated_from, all_zone_placed, current_at, current_summary, earliest_after, latest_before, lemma_current_summary,
    lemma_fills_current_placed, lemma_near_zone_placed, lemma_nearby_times_wf, zone_places_all,
    lemma_populated_summary, nearby_at, opt_populated_from, periods_times_wf, populate_all, populate_type, populated_type, summary,
    ScheduleType,
};
use crate::text::{chars_of, join_strings, join_texts, push_str, string_of, strings_view};

verus! {

broadcast use vstd::string::group_string_axioms;

/// Returns a tuple of the crate version, the CI commit hash, and the CI
/// repository, as they were given when the program was built.
pub fn check_version(version: &str, sha: Option<&str>, repository: Option<&str>) -> (r: Json<(String, Option<String>, Option<String>)>)
    ensures
        r.0.0@ == version@,
        r.0.1 matches Some(s) ==> sha matches Some(t) && s@ == t@,
        r.0.1 is None <==> sha is None,
        r.0.2 matches Some(s) ==> repository matches Some(t) && s@ == t@,
        r.0.2 is None <==> repository is None,
{
    let sha_text = match sha {
        Some(s) => Some(s.to_string()),
        None => None,
    };
    let repository_text = match repository {
        Some(s) => Some(s.to_string()),
        None => None,
    };
    Json((version.to_string(), sha_text, repository_text))
}

/// Returns "ok" if the authentication data is valid: the guard has let the request through.
pub fn check_auth(_auth: Authenticated) -> (r: &'static str)
    ensures
        r@ == "ok"@,
{
    "ok"
}

/// The pieces of a text between its separators, each trimmed of white space,
/// joined with `, ` between them.
pub open spec fn joined_trimmed(pieces: Seq<Seq<char>>) -> Seq<char>
    decreases pieces.len(),
{
    if pieces.len() == 0 {
        Seq::empty()
    } else if pieces.len() == 1 {
        trim(pieces[0])
    } else {
        joined_trimmed(pieces.drop_last()) + ", "@ + trim(pieces.last())
    }
}

/// The authors line of the license: the authors, separated by colons in the
/// package's metadata, each trimmed of white space and joined with `, `.
pub open spec fn license_authors(authors: Seq<char>) -> Seq<char> {
    joined_trimmed(split_on(authors, ":"@))
}

/// Returns the authors of the license page: the package's authors, which its
/// metadata separates with colons, each trimmed and joined with `, `.
pub fn license(authors: &str) -> (r: String)
    ensures
        r@ == license_authors(authors@),
{
    let cs = chars_of(authors);
    let colon = chars_of(":");
    proof {
        reveal_strlit(":");
    }
    let pieces = split_pattern(&cs, &colon);
    let ghost pv = texts_view(pieces@);
    let mut out: Vec<char> = Vec::new();
    let mut i: usize = 0;
    assert(pv.take(0) =~= Seq::<Seq<char>>::empty());
    while i < pieces.len()
        invariant
            pv == texts_view(pieces@),
            i <= pieces@.len(),
            out@ == joined_trimmed(pv.take(i as int)),
        decreases pieces@.len() - i,
    {
        if i > 0 {
            push_str(&mut out, ", ");
        }
        let t = trim_chars(&pieces[i]);
        let mut j: usize = 0;
        let ghost before = out@;
        while j < t.len()
            invariant
                j <= t@.len(),
                out@ == before + t@.take(j as int),
            decreases t@.len() - j,
        {
            out.push(t[j]);
            j = j + 1;
            assert(out@ =~= before + t@.take(j as int));
        }
        proof {
            assert(t@.take(t@.len() as int) =~= t@);
            let s = pv.take(i + 1);
            assert(s.drop_last() =~= pv.take(i as int));
            assert(s.last() == pieces@[i as int]@);
            if i == 0 {
                assert(pv.take(0) =~= Seq::<Seq<char>>::empty());
                assert(s.len() == 1);
            }
        }
        i = i + 1;
        assert(out@ =~= joined_trimmed(pv.take(i as int)));
    }
    assert(pv.take(pv.len() as int) =~= pv);
    string_of(out.as_slice())
}

/// What `/today/now/near` and the like report for the day of a date: a copy of
/// its schedule type and its name, as `on_date` gives them.
pub open spec fn day_of(s: Schedule, date: Date, day: (ScheduleType, Option<String>)) -> bool {
    s.is_on_date(date, day)
}

/// `x` is what is going on at `t` among these periods, with timestamps set:
/// `None` where nothing is.
pub open spec fn current_result(x: Option<Vec<Period>>, ps: Seq<Period>, t: Time) -> bool {
    &&& x is None <==> current_summary(ps, t).len() == 0
    &&& x matches Some(v) ==> v@.map_values(|p: Period| summary(p)) == current_summary(ps, t)
}

/// Returns the time: now, where it was given no timestamp; else the moment of
/// the timestamp, or the start of 1970 where chrono does not hold that moment;
/// as RFC 2822 text in the local time zone.
pub fn what_time(timestamp: Option<i64>) -> String
    requires
        timestamp matches Some(ts) ==> (stamp_in_range(ts as int) ==> -365 < utc_day(ts as int) < 3652059),
{
    match timestamp {
        None => rfc2822_now(),
        Some(ts) => rfc2822_at(effective_stamp(ts)),
    }
}

/// Returns today's schedule type, the timestamps of its periods set from `now`;
/// `None` where a period cannot be placed on that day in the local time zone.
pub fn today(schedule: &Schedule, now: &LocalDateTime) -> (r: Option<ScheduleType>)
    requires
        now.wf(),
        schedule.on_date_defined(now.date),
    ensures
        r matches Some(st) ==> exists|day: (ScheduleType, Option<String>)| day_of(*schedule, now.date, day) && populated_type(st, day.0),
        r matches Some(st) ==> all_placed_on(st.periods@, now.date),
        day_periods(*schedule, now.date) == Some(Seq::<Period>::empty()) ==> r is Some,
        all_zone_placed(*now, day_periods(*schedule, now.date)->0) ==> r is Some,
{
    let day = schedule.on_date(now.date);
    let ghost d = day;
    proof {
        lemma_on_date_periods(*schedule, now.date, d);
    }
    let r = populate_type(day.0, now);
    assert(r matches Some(st) ==> day_of(*schedule, now.date, d) && populated_type(st, d.0));
    r
}

/// Returns today's schedule type ID: its name, or `None` for a literal schedule.
pub fn today_code(schedule: &Schedule, now: &LocalDateTime) -> (r: Option<String>)
    requires
        now.wf(),
        schedule.on_date_defined(now.date),
    ensures
        exists|day: (ScheduleType, Option<String>)| day_of(*schedule, now.date, day) && r == day.1,
{
    let day = schedule.on_date(now.date);
    let ghost d = day;
    assert(day_of(*schedule, now.date, d));
    day.1
}

/// What is going on at `t` on the schedule of `date`, with timestamps set from
/// `at`; `None` inside where nothing is, and `None` outside where a period
/// cannot be placed on that day in the local time zone.
fn current_on(schedule: &Schedule, date: Date, t: Time, at: &LocalDateTime) -> (r: Option<Option<Vec<Period>>>)
    requires
        date.wf(),
        schedule.on_date_defined(date),
    ensures
        r matches Some(x) ==> exists|day: (ScheduleType, Option<String>)| day_of(*schedule, date, day) && current_result(x, day.0.periods@, t),
        r matches Some(Some(v)) ==> all_placed_on(v@, at.date),
        current_summary(day_periods(*schedule, date)->0, t).len() == 0 ==> r == Some(None::<Vec<Period>>),
        zone_places_all(*at, day_periods(*schedule, date)->0) ==> r is Some,
{
    let day = schedule.on_date(date);
    let ghost d = day;
    assert(day_of(*schedule, date, d));
    proof {
        lemma_on_date_periods(*schedule, date, d);
    }
    let (_before, current, _next) = day.0.nearby_periods(t);
    proof {
        lemma_current_summary(d.0.periods@, t, (_before, current@, _next));
        if zone_places_all(*at, d.0.periods@) && d.0.periods@.len() > 0 {
            lemma_near_zone_placed(d.0.periods@, t, *at);
            lemma_fills_current_placed(current@, current_at(d.0.periods@, t), _before, _next, *at);
        }
    }
    if current.len() == 0 {
        assert(current_result(None, d.0.periods@, t));
        return Some(None);
    }
    let ghost cv = current@;
    match populate_all(current, at) {
        Some(v) => {
            proof {
                lemma_populated_summary(v@, cv);
            }
            assert(current_result(Some(v), d.0.periods@, t));
            Some(Some(v))
        },
        None => None,
    }
}

/// Returns the current periods, with timestamps set from `now`; `None` where a
/// period cannot be placed on that day in the local time zone.
pub fn today_now(schedule: &Schedule, now: &LocalDateTime) -> (r: Option<Vec<Period>>)
    requires
        now.wf(),
        schedule.on_date_defined(now.date),
    ensures
        r matches Some(v) ==> exists|day: (ScheduleType, Option<String>)| day_of(*schedule, now.date, day)
            && v@.map_values(|p: Period| summary(p)) == current_summary(day.0.periods@, now.time),
        r matches Some(v) ==> all_placed_on(v@, now.date),
        current_summary(day_periods(*schedule, now.date)->0, now.time).len() == 0 ==> r is Some,
        zone_places_all(*now, day_periods(*schedule, now.date)->0) ==> r is Some,
{
    match current_on(schedule, now.date, now.time, now)? {
        Some(v) => Some(v),
        None => {
            let v: Vec<Period> = Vec::new();
            assert(v@.map_values(|p: Period| summary(p)) =~= Seq::<(Seq<char>, Time, Time, PeriodType)>::empty());
            Some(v)
        },
    }
}

/// Returns the current period type and its neighbors, with timestamps set from
/// `now`; `None` where a period cannot be placed on that day in the local time zone.
pub fn today_around_now(schedule: &Schedule, now: &LocalDateTime) -> (r: Option<NearbyPeriods>)
    requires
        now.wf(),
        schedule.on_date_defined(now.date),
    ensures
        r matches Some(x) ==> exists|day: (ScheduleType, Option<String>), u: (Option<Period>, Seq<Period>, Option<Period>)| {
            &&& day_of(*schedule, now.date, day)
            &&& nearby_at(day.0.periods@, now.time, u)
            &&& opt_populated_from(x.0, u.0)
            &&& all_populated_from(x.1@, u.1)
            &&& opt_populated_from(x.2, u.2)
        },
        r matches Some(x) ==> {
            &&& x.0 matches Some(p) ==> placed_on(p, now.date)
            &&& all_placed_on(x.1@, now.date)
            &&& x.2 matches Some(p) ==> placed_on(p, now.date)
        },
        day_periods(*schedule, now.date) == Some(Seq::<Period>::empty()) ==> r is Some,
        zone_places_all(*now, day_periods(*schedule, now.date)->0) ==> r is Some,
{
    let day = schedule.on_date(now.date);
    let ghost d = day;
    proof {
        lemma_on_date_periods(*schedule, now.date, d);
    }
    let r = day.0.at_time_on(now.time, now);
    assert(day_of(*schedule, now.date, d));
    r
}

/// Returns today's period type at the time the text gives, with timestamps set
/// from `now`: a bad time string is an error, and where nothing is going on at
/// that time there is nothing. `None` where a period cannot be placed on that
/// day in the local time zone.
pub fn today_at(schedule: &Schedule, time_string: &str, now: &LocalDateTime) -> (r: Option<Result<Option<Vec<Period>>, OurError>>)
    requires
        now.wf(),
        schedule.on_date_defined(now.date),
    ensures
        time_from_text(time_string@) is None ==> (r matches Some(Err(e)) && e is BadString),
        time_from_text(time_string@) matches Some(t) ==> (r matches Some(res) ==> res matches Ok(x)
            && exists|day: (ScheduleType, Option<String>)| day_of(*schedule, now.date, day) && current_result(x, day.0.periods@, t)),
        r matches Some(Ok(Some(v))) ==> all_placed_on(v@, now.date),
        time_from_text(time_string@) matches Some(t) ==> (current_summary(day_periods(*schedule, now.date)->0, t).len() == 0
            ==> r matches Some(Ok(None))),
        zone_places_all(*now, day_periods(*schedule, now.date)->0) ==> r is Some,
{
    let then_time = match parse_time_text(time_string) {
        Ok(t) => t,
        Err(e) => {
            return Some(Err(OurError::BadString(e)));
        },
    };
    match current_on(schedule, now.date, then_time, now) {
        Some(x) => Some(Ok(x)),
        None => None,
    }
}

/// Whether the date that the text gives has a schedule, where it gives one:
/// what `date` and `date_at` ask of a date they read.
pub open spec fn date_request_ok(s: Schedule, date_string: Seq<char>) -> bool {
    date_from_text(date_string) matches Some(d) ==> s.on_date_defined(d)
}

/// Reads a date; whether it can be served.
fn date_request(schedule: &Schedule, date_string: &str) -> (r: bool)
    ensures
        r == date_request_ok(*schedule, date_string@),
{
    match parse_date_text(date_string) {
        Ok(d) => {
            let found = schedule.try_on_date(d);
            found.is_some()
        },
        Err(_) => true,
    }
}

/// Returns the schedule type on the date that the text gives, the timestamps of
/// its periods set from `now` moved to that date: a bad date string is an
/// error. `None` where a period cannot be placed on that day in the local time
/// zone.
pub fn date(schedule: &Schedule, date_string: &str, now: &LocalDateTime) -> (r: Option<Result<ScheduleType, OurError>>)
    requires
        now.wf(),
        date_request_ok(*schedule, date_string@),
    ensures
        date_from_text(date_string@) is None ==> (r matches Some(Err(e)) && e is BadString),
        date_from_text(date_string@) matches Some(d) ==> (r matches Some(res) ==> res matches Ok(st)
            && exists|day: (ScheduleType, Option<String>)| day_of(*schedule, d, day) && populated_type(st, day.0)),
        date_from_text(date_string@) matches Some(d) ==> (r matches Some(Ok(st)) ==> all_placed_on(st.periods@, d)),
        date_from_text(date_string@) matches Some(d) ==> (day_periods(*schedule, d) == Some(Seq::<Period>::empty())
            ==> r matches Some(Ok(_))),
        date_from_text(date_string@) matches Some(d) ==> (all_zone_placed(
            LocalDateTime { date: d, time: now.time },
            day_periods(*schedule, d)->0,
        ) ==> r matches Some(Ok(_))),
{
    let then = match parse_date_text(date_string) {
        Ok(d) => d,
        Err(e) => {
            return Some(Err(OurError::BadString(e)));
        },
    };
    let then_at = moved_to(now, then);
    let day = schedule.on_date(then);
    let ghost d = day;
    proof {
        lemma_on_date_periods(*schedule, then, d);
    }
    match populate_type(day.0, &then_at) {
        Some(st) => {
            assert(day_of(*schedule, then, d) && populated_type(st, d.0));
            Some(Ok(st))
        },
        None => None,
    }
}

/// `date`, for any request: `None` also where the date has no schedule.
pub fn try_date(schedule: &Schedule, date_string: &str, now: &LocalDateTime) -> (r: Option<Result<ScheduleType, OurError>>)
    requires
        now.wf(),
    ensures
        !date_request_ok(*schedule, date_string@) ==> r is None,
        date_from_text(date_string@) is None ==> (r matches Some(Err(e)) && e is BadString),
        date_from_text(date_string@) matches Some(d) ==> (r matches Some(res) ==> res matches Ok(st)
            && exists|day: (ScheduleType, Option<String>)| day_of(*schedule, d, day) && populated_type(st, day.0)),
        date_from_text(date_string@) matches Some(d) ==> (r matches Some(Ok(st)) ==> all_placed_on(st.periods@, d)),
        date_from_text(date_string@) matches Some(d) ==> (day_periods(*schedule, d) == Some(Seq::<Period>::empty())
            ==> r matches Some(Ok(_))),
        date_from_text(date_string@) matches Some(d) ==> (day_periods(*schedule, d) is Some && all_zone_placed(
            LocalDateTime { date: d, time: now.time },
            day_periods(*schedule, d)->0,
        ) ==> r matches Some(Ok(_))),
{
    if !date_request(schedule, date_string) {
        return None;
    }
    date(schedule, date_string, now)
}

/// Returns the schedule type ID on the date that the text gives: its name, or
/// `None` for a literal schedule; a bad date string is an error.
pub fn date_code(schedule: &Schedule, date_string: &str) -> (r: Result<Option<String>, OurError>)
    requires
        date_from_text(date_string@) matches Some(d) ==> schedule.on_date_defined(d),
    ensures
        date_from_text(date_string@) is None ==> (r matches Err(e) && e is BadString),
        date_from_text(date_string@) matches Some(d) ==> r matches Ok(x)
            && exists|day: (ScheduleType, Option<String>)| day_of(*schedule, d, day) && x == day.1,
{
    let then = match parse_date_text(date_string) {
        Ok(d) => d,
        Err(e) => {
            return Err(OurError::BadString(e));
        },
    };
    let day = schedule.on_date(then);
    let ghost d = day;
    assert(day_of(*schedule, then, d));
    Ok(day.1)
}

/// `date_code`, for any request: `None` where the date has no schedule.
pub fn try_date_code(schedule: &Schedule, date_string: &str) -> (r: Option<Result<Option<String>, OurError>>)
    ensures
        (date_from_text(date_string@) matches Some(d) && !schedule.on_date_defined(d)) <==> r is None,
        date_from_text(date_string@) is None ==> (r matches Some(Err(e)) && e is BadString),
        date_from_text(date_string@) matches Some(d) ==> (r matches Some(res) ==> res matches Ok(x)
            && exists|day: (ScheduleType, Option<String>)| day_of(*schedule, d, day) && x == day.1),
{
    match parse_date_text(date_string) {
        Ok(d) => {
            if schedule.try_on_date(d).is_none() {
                return None;
            }
        },
        Err(_) => {},
    }
    Some(date_code(schedule, date_string))
}

/// Returns the period type at the date and time that the texts give, with
/// timestamps set from `now` moved to that date: a bad date or time string is
/// an error, and where nothing is going on at that time there is nothing.
/// `None` where a period cannot be placed on that day in the local time zone.
pub fn date_at(schedule: &Schedule, date_string: &str, time_string: &str, now: &LocalDateTime) -> (r: Option<Result<Option<Vec<Period>>, OurError>>)
    requires
        now.wf(),
        time_from_text(time_string@) is Some ==> date_request_ok(*schedule, date_string@),
    ensures
        date_from_text(date_string@) is None ==> (r matches Some(Err(e)) && e is BadString),
        time_from_text(time_string@) is None ==> (r matches Some(Err(e)) && e is BadString),
        date_from_text(date_string@) matches Some(d) ==> time_from_text(time_string@) matches Some(t) ==> (r matches Some(res)
            ==> res matches Ok(x) && exists|day: (ScheduleType, Option<String>)| day_of(*schedule, d, day) && current_result(x, day.0.periods@, t)),
        date_from_text(date_string@) matches Some(d) ==> (r matches Some(Ok(Some(v))) ==> all_placed_on(v@, d)),
        date_from_text(date_string@) matches Some(d) ==> (zone_places_all(
            LocalDateTime { date: d, time: now.time },
            day_periods(*schedule, d)->0,
        ) ==> r is Some),
        date_from_text(date_string@) matches Some(d) ==> time_from_text(time_string@) matches Some(t) ==> (current_summary(
            day_periods(*schedule, d)->0,
            t,
        ).len() == 0 ==> r matches Some(Ok(None))),
{
    let then_date = match parse_date_text(date_string) {
        Ok(d) => d,
        Err(e) => {
            return Some(Err(OurError::BadString(e)));
        },
    };
    let then_time = match parse_time_text(time_string) {
        Ok(t) => t,
        Err(e) => {
            return Some(Err(OurError::BadString(e)));
        },
    };
    let then_at = moved_to(now, then_date);
    match current_on(schedule, then_date, then_time, &then_at) {
        Some(x) => Some(Ok(x)),
        None => None,
    }
}

/// `date_at`, for any request: `None` also where the date has no schedule.
pub fn try_date_at(schedule: &Schedule, date_string: &str, time_string: &str, now: &LocalDateTime) -> (r: Option<Result<Option<Vec<Period>>, OurError>>)
    requires
        now.wf(),
    ensures
        time_from_text(time_string@) is Some && !date_request_ok(*schedule, date_string@) ==> r is None,
        date_from_text(date_string@) is None ==> (r matches Some(Err(e)) && e is BadString),
        time_from_text(time_string@) is None ==> (r matches Some(Err(e)) && e is BadString),
        date_from_text(date_string@) matches Some(d) ==> time_from_text(time_string@) matches Some(t) ==> (r matches Some(res)
            ==> res matches Ok(x) && exists|day: (ScheduleType, Option<String>)| day_of(*schedule, d, day) && current_result(x, day.0.periods@, t)),
        date_from_text(date_string@) matches Some(d) ==> (r matches Some(Ok(Some(v))) ==> all_placed_on(v@, d)),
        date_from_text(date_string@) matches Some(d) ==> (day_periods(*schedule, d) is Some && zone_places_all(
            LocalDateTime { date: d, time: now.time },
            day_periods(*schedule, d)->0,
        ) ==> r is Some),
{
    if parse_time_text(time_string).is_ok() && !date_request(schedule, date_string) {
        return None;
    }
    date_at(schedule, date_string, time_string, now)
}

/// The context of the widget page.
#[derive(Debug)]
pub struct WidgetContext {
    /// The name of the period before, or `None`.
    pub prev_name: String,
    /// The names of what is going on, joined with `, `.
    pub current_name: String,
    /// Their starts, joined with `, `.
    pub current_start: String,
    /// Their ends, joined with `, `.
    pub current_end: String,
    /// The name of the period after, or `None`.
    pub next_name: String,
    /// The start of the period after, or nothing.
    pub next_start: String,
    /// The end of the period before, or nothing.
    pub prev_end: String,
}

/// The context of the widget page for these periods at `t`.
pub open spec fn is_widget_context(w: WidgetContext, ps: Seq<Period>, t: Time) -> bool {
    let c = current_summary(ps, t);
    &&& w.prev_name@ == (match latest_before(ps, t) {
        Some(b) => b.friendly_name@,
        None => "None"@,
    })
    &&& w.current_name@ == join_texts(c.map_values(|x: (Seq<char>, Time, Time, PeriodType)| x.0), ", "@)
    &&& w.current_start@ == join_texts(c.map_values(|x: (Seq<char>, Time, Time, PeriodType)| time_display(x.1)), ", "@)
    &&& w.current_end@ == join_texts(c.map_values(|x: (Seq<char>, Time, Time, PeriodType)| time_display(x.2)), ", "@)
    &&& w.next_name@ == (match earliest_after(ps, t) {
        Some(n) => n.friendly_name@,
        None => "None"@,
    })
    &&& w.next_start@ == (match earliest_after(ps, t) {
        Some(n) => time_display(n.start),
        None => Seq::empty(),
    })
    &&& w.prev_end@ == (match latest_before(ps, t) {
        Some(b) => time_display(b.end),
        None => Seq::empty(),
    })
}

/// Returns the context of the HTML page for the output of /today/now/near: the
/// period before, what is going on and the period after on the schedule of
/// `now`'s day at `now`.
pub fn widget(schedule: &Schedule, now: &LocalDateTime) -> (r: WidgetContext)
    requires
        now.wf(),
        schedule.on_date_defined(now.date),
        day_periods(*schedule, now.date) matches Some(ps) && periods_times_wf(ps),
    ensures
        is_widget_context(r, day_periods(*schedule, now.date)->0, now.time),
{
    let day = schedule.on_date(now.date);
    proof {
        lemma_on_date_periods(*schedule, now.date, day);
    }
    let st = day.0;
    let ghost ps = st.periods@;
    let t = now.time;
    let (before, current, next) = st.nearby_periods(t);
    let ghost c = current_summary(ps, t);
    proof {
        lemma_current_summary(ps, t, (before, current@, next));
        lemma_nearby_times_wf(ps, t);
        if ps.len() == 0 {
            assert(earliest_after(ps, t) is None);
            assert(latest_before(ps, t) is None);
        }
    }
    let mut names: Vec<String> = Vec::new();
    let mut starts: Vec<String> = Vec::new();
    let mut ends: Vec<String> = Vec::new();
    let mut i: usize = 0;
    while i < current.len()
        invariant
            c == current_summary(ps, t),
            current@.map_values(|p: Period| summary(p)) == c,
            forall|k: int| 0 <= k < c.len() ==> (#[trigger] c[k]).1.wf() && c[k].2.wf(),
            i <= current@.len(),
            strings_view(names@) == c.take(i as int).map_values(|x: (Seq<char>, Time, Time, PeriodType)| x.0),
            strings_view(starts@) == c.take(i as int).map_values(|x: (Seq<char>, Time, Time, PeriodType)| time_display(x.1)),
            strings_view(ends@) == c.take(i as int).map_values(|x: (Seq<char>, Time, Time, PeriodType)| time_display(x.2)),
        decreases current@.len() - i,
    {
        assert(c[i as int] == summary(current@[i as int]));
        let ghost old_names = names@;
        let ghost old_starts = starts@;
        let ghost old_ends = ends@;
        let name = current[i].friendly_name.clone();
        let start = time_to_string(current[i].start);
        let end = time_to_string(current[i].end);
        names.push(name);
        starts.push(start);
        ends.push(end);
        proof {
            assert(strings_view(names@) =~= strings_view(old_names).push(name@));
            assert(strings_view(starts@) =~= strings_view(old_starts).push(start@));
            assert(strings_view(ends@) =~= strings_view(old_ends).push(end@));
            assert(c.take(i + 1).map_values(|x: (Seq<char>, Time, Time, PeriodType)| x.0) =~= c.take(i as int).map_values(
                |x: (Seq<char>, Time, Time, PeriodType)| x.0,
            ).push(c[i as int].0));
            assert(c.take(i + 1).map_values(|x: (Seq<char>, Time, Time, PeriodType)| time_display(x.1)) =~= c.take(
                i as int,
            ).map_values(|x: (Seq<char>, Time, Time, PeriodType)| time_display(x.1)).push(time_display(c[i as int].1)));
            assert(c.take(i + 1).map_values(|x: (Seq<char>, Time, Time, PeriodType)| time_display(x.2)) =~= c.take(
                i as int,
            ).map_values(|x: (Seq<char>, Time, Time, PeriodType)| time_display(x.2)).push(time_display(c[i as int].2)));
        }
        i = i + 1;
    }
    assert(c.take(c.len() as int) =~= c);
    let prev_name = match &before {
        Some(b) => b.friendly_name.clone(),
        None => "None".to_string(),
    };
    let prev_end = match &before {
        Some(b) => time_to_string(b.end),
        None => String::new(),
    };
    let next_name = match &next {
        Some(n) => n.friendly_name.clone(),
        None => "None".to_string(),
    };
    let next_start = match &next {
        Some(n) => time_to_string(n.start),
        None => String::new(),
    };
    WidgetContext {
        prev_name,
        current_name: join_strings(&names, ", "),
        current_start: join_strings(&starts, ", "),
        current_end: join_strings(&ends, ", "),
        next_name,
        next_start,
        prev_end,
    }
}

/// What the schedule of a day is given by: the name of its schedule type, or
/// the schedule type itself where a literal schedule gave it.
#[derive(Debug)]
pub enum ScheduleCode {
    /// The name of the day's schedule type.
    Name(String),
    /// The schedule type that a literal schedule gave the day.
    Literal(ScheduleType),
}

/// `c` tells what gives the schedule of `date`: the name of its schedule type,
/// or the schedule type that the literal schedule of the day holds.
pub open spec fn is_code_on(s: Schedule, date: Date, c: ScheduleCode) -> bool {
    match s.source_on(date) {
        Some(DaySource::Named(n)) => c matches ScheduleCode::Name(k) && k@ == n,
        Some(DaySource::Literal(j)) => c matches ScheduleCode::Literal(st) && literal_schedule(j) matches Some(parts)
            && has_parts(st, parts),
        None => false,
    }
}

/// The date with this day number.
pub open spec fn date_at_day(n: int) -> Date {
    Date { days: n as i32 }
}

/// Each code of `v` tells what gives the schedule of its day, counted from day number `first`.
pub open spec fn codes_from(s: Schedule, v: Seq<ScheduleCode>, first: int) -> bool {
    forall|i: int| 0 <= i < v.len() ==> is_code_on(s, date_at_day(first + i), #[trigger] v[i])
}

/// The dates that the texts give are in order and each day from the first up to
/// the second has a schedule: what `schedule_from_to` asks of the dates it reads.
pub open spec fn range_request_ok(s: Schedule, start: Seq<char>, end: Seq<char>) -> bool {
    match (date_from_text(start), date_from_text(end)) {
        (Some(a), Some(b)) => a.days < b.days && forall|d: int| a.days <= d < b.days ==> s.on_date_defined(#[trigger] date_at_day(d)),
        _ => true,
    }
}

/// `r` answers a request for the days from the date that `start` gives up to
/// the date that `end` gives: a bad date string is an error; else one code per day.
pub open spec fn is_range_answer(s: Schedule, start: Seq<char>, end: Seq<char>, r: Result<Vec<ScheduleCode>, OurError>) -> bool {
    &&& date_from_text(start) is None ==> (r matches Err(e) && e is BadString)
    &&& date_from_text(start) is Some && date_from_text(end) is None ==> (r matches Err(e) && e is BadString)
    &&& date_from_text(start) matches Some(a) ==> date_from_text(end) matches Some(b) ==> r matches Ok(v) && v@.len() == b.days
        - a.days && codes_from(s, v@, a.days as int)
}

/// Returns what gives the schedule of each day from the date that `start`
/// gives up to, but not including, the date that `end` gives: the name of its
/// schedule type, or the schedule type that a literal schedule gave it. A bad
/// date string is an error.
pub fn schedule_from_to(schedule: &Schedule, start: &str, end: &str) -> (r: Result<Vec<ScheduleCode>, OurError>)
    requires
        range_request_ok(*schedule, start@, end@),
    ensures
        is_range_answer(*schedule, start@, end@, r),
{
    let first = match parse_date_text(start) {
        Ok(d) => d,
        Err(e) => {
            return Err(OurError::BadString(e));
        },
    };
    let last = match parse_date_text(end) {
        Ok(d) => d,
        Err(e) => {
            return Err(OurError::BadString(e));
        },
    };
    let mut cursor = first;
    let mut output: Vec<ScheduleCode> = Vec::new();
    while cursor.days < last.days
        invariant
            range_request_ok(*schedule, start@, end@),
            date_from_text(start@) == Some(first),
            date_from_text(end@) == Some(last),
            first.wf(),
            last.wf(),
            cursor.wf(),
            first.days <= cursor.days <= last.days,
            output@.len() == cursor.days - first.days,
            codes_from(*schedule, output@, first.days as int),
        decreases last.days - cursor.days,
    {
        assert(date_at_day(cursor.days as int) == cursor);
        assert(schedule.on_date_defined(date_at_day(cursor.days as int)));
        let that_day = schedule.on_date(cursor);
        let ghost d = that_day;
        let (st, name) = that_day;
        let code = match name {
            Some(n) => ScheduleCode::Name(n),
            None => ScheduleCode::Literal(st),
        };
        assert(is_code_on(*schedule, cursor, code));
        let ghost k = output@.len() as int;
        let ghost prev = output@;
        output.push(code);
        assert(date_at_day(first.days + k) == cursor);
        assert forall|i: int| 0 <= i < output@.len() implies is_code_on(*schedule, date_at_day(first.days + i), #[trigger] output@[i]) by {
            if i < k {
                assert(output@[i] == prev[i]);
            }
        }
        let next = cursor.add_days(1);
        cursor = next.unwrap();
    }
    Ok(output)
}

/// `schedule_from_to`, for any request: `None` where the dates are out of
/// order or a day between them has no schedule.
pub fn try_schedule_from_to(schedule: &Schedule, start: &str, end: &str) -> (r: Option<Result<Vec<ScheduleCode>, OurError>>)
    ensures
        r is None <==> !range_request_ok(*schedule, start@, end@),
        r matches Some(x) ==> is_range_answer(*schedule, start@, end@, x),
{
    match (parse_date_text(start), parse_date_text(end)) {
        (Ok(a), Ok(b)) => {
            if a.days >= b.days {
                return None;
            }
            let mut c = a;
            while c.days < b.days
                invariant
                    date_from_text(start@) == Some(a),
                    date_from_text(end@) == Some(b),
                    a.wf(),
                    b.wf(),
                    c.wf(),
                    a.days <= c.days <= b.days,
                    forall|d: int| a.days <= d < c.days ==> schedule.on_date_defined(#[trigger] date_at_day(d)),
                decreases b.days - c.days,
            {
                assert(date_at_day(c.days as int) == c);
                if schedule.try_on_date(c).is_none() {
                    assert(!schedule.on_date_defined(date_at_day(c.days as int)));
                    return None;
                }
                let next = c.add_days(1);
                c = next.unwrap();
            }
        },
        _ => {},
    }
    Some(schedule_from_to(schedule, start, end))
}

/// Returns an ICalendar file containing periods as events, from `backward`
/// days before `today` to `forward` days after it.
pub fn ical(backward: i64, forward: i64, schedule: &Schedule, today: Date) -> (r: IcalResponder)
    requires
        today.wf(),
        MIN_DAYS <= today.days - backward <= MAX_DAYS,
        MIN_DAYS <= today.days + forward <= MAX_DAYS,
        schedule.calendar.wf(),
        generation_defined(*schedule, date_at_day(today.days - backward), date_at_day(today.days + forward)),
    ensures
        exists|uids: Seq<usize>| #[trigger] generated_text(*schedule, date_at_day(today.days - backward), date_at_day(today.days + forward), uids) == r.inner@,
{
    let start = match today.add_days(-backward) {
        Some(d) => d,
        None => today,
    };
    let end = match today.add_days(forward) {
        Some(d) => d,
        None => today,
    };
    assert(start == date_at_day(today.days - backward));
    assert(end == date_at_day(today.days + forward));
    IcalResponder { inner: IcalEvent::generate(schedule, start, end) }
}

} // verus!

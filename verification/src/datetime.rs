//! Calendar dates and times of day, modelled by plain integers.
//!
//! A [`Date`] is a day number in the proleptic Gregorian calendar (January 1 of
//! year 1 is day 1), over the range of dates that chrono's `NaiveDate` holds.
//! A [`Time`] is a number of seconds since midnight and a fraction of a second
//! in nanoseconds, as chrono's `NaiveTime` holds it.
use vstd::prelude::*;

use chrono::{Datelike, Local, NaiveDate, NaiveDateTime, NaiveTime, TimeDelta, TimeZone, Timelike};

use crate::text::{nat_text, pad_zeros};

verus! {

/// The earliest year of the calendar.
pub const MIN_YEAR: i32 = -262143;

/// The latest year of the calendar.
pub const MAX_YEAR: i32 = 262142;

/// The day number of January 1 of `MIN_YEAR`.
pub const MIN_DAYS: i32 = -95746129;

/// The day number of December 31 of `MAX_YEAR`.
pub const MAX_DAYS: i32 = 95745399;

/// Whether `year` is a leap year of the Gregorian calendar.
pub open spec fn is_leap_year(year: int) -> bool {
    year % 4 == 0 && (year % 100 != 0 || year % 400 == 0)
}

/// The number of days of `month` (1 to 12) in `year`.
pub open spec fn days_in_month(year: int, month: int) -> int {
    if month == 2 {
        if is_leap_year(year) { 29 } else { 28 }
    } else if month == 4 || month == 6 || month == 9 || month == 11 {
        30
    } else {
        31
    }
}

/// The number of days of `year` that come before the first of `month`.
pub open spec fn days_before_month(year: int, month: int) -> int
    decreases month,
{
    if month <= 1 {
        0
    } else {
        days_before_month(year, month - 1) + days_in_month(year, month - 1)
    }
}

/// The number of days from January 1 of year 1 to January 1 of `year`.
pub open spec fn days_before_year(year: int) -> int {
    let p = year - 1;
    365 * p + p / 4 - p / 100 + p / 400
}

/// Whether year, month and day name a day of the calendar.
pub open spec fn ymd_valid(year: int, month: int, day: int) -> bool {
    &&& MIN_YEAR <= year <= MAX_YEAR
    &&& 1 <= month <= 12
    &&& 1 <= day <= days_in_month(year, month)
}

/// The day number of a day given by year, month and day.
pub open spec fn day_number(year: int, month: int, day: int) -> int {
    days_before_year(year) + days_before_month(year, month) + day
}

/// A calendar date.
#[derive(Clone, Copy, Debug, PartialEq, Eq, Structural)]
pub struct Date {
    /// The day number: January 1 of year 1 is day 1.
    pub days: i32,
}

impl Date {
    /// The date lies in the range of the calendar.
    pub open spec fn wf(self) -> bool {
        MIN_DAYS <= self.days <= MAX_DAYS
    }

    /// The day of the week counted from Sunday (0) to Saturday (6).
    pub open spec fn weekday_spec(self) -> int {
        self.days as int % 7
    }

    /// Makes a date from year, month and day, or `None` where they name no day.
    pub fn from_ymd_opt(year: i32, month: u32, day: u32) -> (r: Option<Date>)
        ensures
            r is Some <==> ymd_valid(year as int, month as int, day as int),
            r matches Some(d) ==> d.days == day_number(year as int, month as int, day as int)
                && d.wf(),
    {
        match chrono_from_ymd(year, month, day) {
            Some(days) => Some(Date { days }),
            None => None,
        }
    }

    /// The year, month and day of the date.
    pub fn year_month_day(&self) -> (r: (i32, u32, u32))
        requires
            self.wf(),
        ensures
            (r.0 as int, r.1 as int, r.2 as int) == civil_from_days(self.days as int),
            ymd_valid(r.0 as int, r.1 as int, r.2 as int),
            day_number(r.0 as int, r.1 as int, r.2 as int) == self.days,
    {
        let r = chrono_ymd(self.days);
        proof {
            lemma_civil_from_days(r.0 as int, r.1 as int, r.2 as int);
        }
        r
    }

    /// The day of the week, counted from Sunday (0) to Saturday (6).
    pub fn num_days_from_sunday(&self) -> (r: u32)
        requires
            self.wf(),
        ensures
            r == self.weekday_spec(),
            r < 7,
    {
        chrono_weekday(self.days)
    }

    /// The date `n` days later (earlier for a negative `n`), or `None` where
    /// that leaves the calendar.
    pub fn add_days(&self, n: i64) -> (r: Option<Date>)
        requires
            self.wf(),
        ensures
            r is Some <==> MIN_DAYS <= self.days + n <= MAX_DAYS,
            r matches Some(d) ==> d.days == self.days + n && d.wf(),
    {
        match chrono_add_days(self.days, n) {
            Some(days) => Some(Date { days }),
            None => None,
        }
    }
}

/// A time of day.
#[derive(Clone, Copy, Debug, PartialEq, Eq, Structural)]
pub struct Time {
    /// Whole seconds since midnight.
    pub secs: u32,
    /// The fraction of the second in nanoseconds; from one second on it marks a leap second.
    pub frac: u32,
}

/// `a` comes strictly before `b`.
pub open spec fn time_lt(a: Time, b: Time) -> bool {
    a.secs < b.secs || (a.secs == b.secs && a.frac < b.frac)
}

/// `a` comes before `b` or is `b`.
pub open spec fn time_le(a: Time, b: Time) -> bool {
    time_lt(a, b) || a == b
}

impl Time {
    /// The time is one that chrono's `NaiveTime` can hold.
    pub open spec fn wf(self) -> bool {
        &&& self.secs < 86400
        &&& self.frac < 2_000_000_000
        &&& self.frac >= 1_000_000_000 ==> self.secs % 60 == 59
    }

    /// Midnight, 00:00:00.
    pub fn midnight() -> (r: Time)
        ensures
            r.secs == 0 && r.frac == 0,
    {
        Time { secs: 0, frac: 0 }
    }

    /// The last whole second of the day, 23:59:59.
    pub fn last_second() -> (r: Time)
        ensures
            r.secs == 86399 && r.frac == 0,
    {
        Time { secs: 86399, frac: 0 }
    }

    /// Makes a time from hour, minute and second, or `None` where one is out of range.
    pub fn from_hms_opt(hour: u32, minute: u32, second: u32) -> (r: Option<Time>)
        ensures
            r is Some <==> (hour < 24 && minute < 60 && second < 60),
            r matches Some(t) ==> t.secs == hour * 3600 + minute * 60 + second && t.frac == 0,
    {
        chrono_from_hms(hour, minute, second)
    }

    /// The hour, 0 to 23.
    pub fn hour(&self) -> (r: u32)
        ensures
            r == self.secs / 3600,
    {
        self.secs / 3600
    }

    /// The minute, 0 to 59.
    pub fn minute(&self) -> (r: u32)
        ensures
            r == self.secs / 60 % 60,
    {
        self.secs / 60 % 60
    }

    /// The second, 0 to 59.
    pub fn second(&self) -> (r: u32)
        ensures
            r == self.secs % 60,
    {
        self.secs % 60
    }

    /// `self` comes strictly before `other`.
    pub fn lt(&self, other: &Time) -> (r: bool)
        ensures
            r == time_lt(*self, *other),
    {
        self.secs < other.secs || (self.secs == other.secs && self.frac < other.frac)
    }

    /// `self` comes before `other` or is `other`.
    pub fn le(&self, other: &Time) -> (r: bool)
        ensures
            r == time_le(*self, *other),
    {
        self.lt(other) || (self.secs == other.secs && self.frac == other.frac)
    }
}

/// `NaiveDate::from_ymd_opt`, taken to its day number: chrono holds exactly
/// the valid days of the Gregorian calendar between `MIN_YEAR` and `MAX_YEAR`.
#[verifier::external_body]
fn chrono_from_ymd(year: i32, month: u32, day: u32) -> (r: Option<i32>)
    ensures
        r is Some <==> ymd_valid(year as int, month as int, day as int),
        r matches Some(n) ==> n == day_number(year as int, month as int, day as int),
        r matches Some(n) ==> MIN_DAYS <= n <= MAX_DAYS,
{
    match NaiveDate::from_ymd_opt(year, month, day) {
        Some(d) => Some(d.num_days_from_ce()),
        None => None,
    }
}

/// The year, month and day of the day whose day number is `days`: the valid
/// year, month and day with that day number.
pub open spec fn civil_from_days(days: int) -> (int, int, int) {
    choose|c: (int, int, int)| ymd_valid(c.0, c.1, c.2) && day_number(c.0, c.1, c.2) == days
}

/// A month takes the days after the months before it.
proof fn lemma_days_before_month_grows(year: int, m: int, n: int)
    requires
        1 <= m <= n <= 13,
    ensures
        days_before_month(year, m) <= days_before_month(year, n),
        m < n ==> days_before_month(year, m) + days_in_month(year, m) <= days_before_month(year, n),
    decreases n - m,
{
    if m < n {
        lemma_days_before_month_grows(year, m, n - 1);
    }
}

/// The days before a year and that year's days are the days before the next year.
proof fn lemma_days_before_next_year(year: int)
    ensures
        days_before_year(year + 1) == days_before_year(year) + days_before_month(year, 13),
{
    let p = year - 1;
    assert(days_before_month(year, 13) == if is_leap_year(year) { 366int } else { 365int }) by {
        reveal_with_fuel(days_before_month, 13);
    }
    assert(year / 4 - p / 4 == if year % 4 == 0 { 1int } else { 0int });
    assert(year / 100 - p / 100 == if year % 100 == 0 { 1int } else { 0int });
    assert(year / 400 - p / 400 == if year % 400 == 0 { 1int } else { 0int });
}

/// A year takes the days after the years before it.
proof fn lemma_days_before_year_grows(y: int, z: int)
    requires
        y < z,
    ensures
        days_before_year(y) + days_before_month(y, 13) <= days_before_year(z),
    decreases z - y,
{
    lemma_days_before_next_year(y);
    if y + 1 < z {
        lemma_days_before_year_grows(y + 1, z);
        lemma_days_before_month_grows(y + 1, 1, 13);
    }
}

/// The day number of a valid day lies within its year.
proof fn lemma_day_number_in_year(year: int, month: int, day: int)
    requires
        ymd_valid(year, month, day),
    ensures
        days_before_year(year) < day_number(year, month, day) <= days_before_year(year) + days_before_month(year, 13),
{
    lemma_days_before_month_grows(year, month, 13);
    lemma_days_before_month_grows(year, 1, month);
}

/// Two valid days with the same day number are the same day.
proof fn lemma_day_number_unique(a: (int, int, int), b: (int, int, int))
    requires
        ymd_valid(a.0, a.1, a.2),
        ymd_valid(b.0, b.1, b.2),
        day_number(a.0, a.1, a.2) == day_number(b.0, b.1, b.2),
    ensures
        a == b,
{
    lemma_day_number_in_year(a.0, a.1, a.2);
    lemma_day_number_in_year(b.0, b.1, b.2);
    if a.0 < b.0 {
        lemma_days_before_year_grows(a.0, b.0);
    } else if b.0 < a.0 {
        lemma_days_before_year_grows(b.0, a.0);
    } else if a.1 < b.1 {
        lemma_days_before_month_grows(a.0, a.1, b.1);
    } else if b.1 < a.1 {
        lemma_days_before_month_grows(a.0, b.1, a.1);
    }
}

/// The valid year, month and day of a day number are those that
/// `civil_from_days` gives.
pub proof fn lemma_civil_from_days(year: int, month: int, day: int)
    requires
        ymd_valid(year, month, day),
    ensures
        civil_from_days(day_number(year, month, day)) == (year, month, day),
{
    let n = day_number(year, month, day);
    let w = (year, month, day);
    assert(ymd_valid(w.0, w.1, w.2) && day_number(w.0, w.1, w.2) == n);
    assert(exists|c: (int, int, int)| ymd_valid(c.0, c.1, c.2) && day_number(c.0, c.1, c.2) == n);
    let c = civil_from_days(n);
    lemma_day_number_unique(c, (year, month, day));
}

/// `NaiveDate::from_num_days_from_ce_opt` followed by `year`, `month` and `day`:
/// the valid year, month and day whose day number is `days`.
#[verifier::external_body]
fn chrono_ymd(days: i32) -> (r: (i32, u32, u32))
    requires
        MIN_DAYS <= days <= MAX_DAYS,
    ensures
        ymd_valid(r.0 as int, r.1 as int, r.2 as int),
        day_number(r.0 as int, r.1 as int, r.2 as int) == days,
{
    let d = NaiveDate::from_num_days_from_ce_opt(days).unwrap_or_default();
    (d.year(), d.month(), d.day())
}

/// `Datelike::weekday` followed by `Weekday::num_days_from_sunday`. Day 1
/// (January 1 of year 1) is a Monday, so the weekday follows the day number modulo 7.
#[verifier::external_body]
fn chrono_weekday(days: i32) -> (r: u32)
    requires
        MIN_DAYS <= days <= MAX_DAYS,
    ensures
        r == days as int % 7,
{
    NaiveDate::from_num_days_from_ce_opt(days).unwrap_or_default().weekday().num_days_from_sunday()
}

/// `NaiveDate::checked_add_signed` with `TimeDelta::try_days`: the date `n`
/// days on, where it is within the calendar.
#[verifier::external_body]
fn chrono_add_days(days: i32, n: i64) -> (r: Option<i32>)
    requires
        MIN_DAYS <= days <= MAX_DAYS,
    ensures
        r is Some <==> MIN_DAYS <= days + n <= MAX_DAYS,
        r matches Some(m) ==> m == days + n,
{
    let date = NaiveDate::from_num_days_from_ce_opt(days)?;
    let delta = TimeDelta::try_days(n)?;
    match date.checked_add_signed(delta) {
        Some(d) => Some(d.num_days_from_ce()),
        None => None,
    }
}

/// `NaiveTime::from_hms_opt`: a time exists for every hour below 24, minute
/// below 60 and second below 60, with no fraction.
#[verifier::external_body]
fn chrono_from_hms(hour: u32, minute: u32, second: u32) -> (r: Option<Time>)
    ensures
        r is Some <==> (hour < 24 && minute < 60 && second < 60),
        r matches Some(t) ==> t.secs == hour * 3600 + minute * 60 + second && t.frac == 0,
{
    match NaiveTime::from_hms_opt(hour, minute, second) {
        Some(t) => Some(Time { secs: t.num_seconds_from_midnight(), frac: t.nanosecond() }),
        None => None,
    }
}

/// A number written with two digits, a `0` before it below ten.
pub open spec fn two_digits(n: int) -> Seq<char> {
    pad_zeros(nat_text(n as nat), 2)
}

/// The fraction of a second, in nanoseconds, as chrono writes it: nothing for
/// none, else a point and three, six or nine digits, the fewest that hold it.
pub open spec fn frac_text(nano: int) -> Seq<char> {
    if nano == 0 {
        Seq::empty()
    } else if nano % 1_000_000 == 0 {
        "."@ + pad_zeros(nat_text((nano / 1_000_000) as nat), 3)
    } else if nano % 1_000 == 0 {
        "."@ + pad_zeros(nat_text((nano / 1_000) as nat), 6)
    } else {
        "."@ + pad_zeros(nat_text(nano as nat), 9)
    }
}

/// A time of day as chrono's `NaiveTime` writes it (`HH:MM:SS` and the
/// fraction); a leap second shows as second 60.
pub open spec fn time_display(t: Time) -> Seq<char> {
    let leap = t.frac >= 1_000_000_000;
    let sec: int = if leap { t.secs % 60 + 1 } else { (t.secs % 60) as int };
    let nano = if leap { t.frac - 1_000_000_000 } else { t.frac as int };
    two_digits((t.secs / 3600) as int) + ":"@ + two_digits((t.secs / 60 % 60) as int) + ":"@ + two_digits(sec)
        + frac_text(nano)
}

/// `NaiveTime`'s `Display`, as `to_string` gives it: two digits each for the
/// hour, the minute and the second, and the fraction of a second where there
/// is one (chrono's `Debug` for `NaiveTime`, which `Display` calls).
#[verifier::external_body]
pub(crate) fn time_to_string(t: Time) -> (r: String)
    ensures
        t.wf() ==> r@ == time_display(t),
{
    NaiveTime::from_num_seconds_from_midnight_opt(t.secs, t.frac).unwrap_or_default().to_string()
}

/// `a / b` rounded toward zero, as Rust divides integers, for a positive `b`.
pub open spec fn trunc_div(a: int, b: int) -> int {
    if a >= 0 {
        a / b
    } else {
        -((-a) / b)
    }
}

/// The span from `b` to `a`, as `NaiveTime::signed_duration_since` makes it:
/// whole seconds, a leap second between them counted, and nanoseconds from 0 up
/// to a second, added to them.
pub open spec fn raw_delta(a: Time, b: Time) -> (int, int) {
    let secs0 = a.secs - b.secs;
    let secs = if a.secs > b.secs && b.frac >= 1_000_000_000 {
        secs0 + 1
    } else if a.secs < b.secs && a.frac >= 1_000_000_000 {
        secs0 - 1
    } else {
        secs0
    };
    let frac = a.frac - b.frac;
    (secs + frac / 1_000_000_000, frac % 1_000_000_000)
}

/// The whole seconds from `b` to `a`, as `TimeDelta::num_seconds` counts them
/// from the span: a part of a second is dropped toward zero.
pub open spec fn whole_seconds_between(a: Time, b: Time) -> int {
    let d = raw_delta(a, b);
    if d.0 < 0 && d.1 > 0 {
        d.0 + 1
    } else {
        d.0
    }
}

/// The part of a second left over, as `TimeDelta::subsec_nanos` gives it from
/// the span: with the sign of the span.
pub open spec fn subsec_nanos_between(a: Time, b: Time) -> int {
    let d = raw_delta(a, b);
    if d.0 < 0 && d.1 > 0 {
        d.1 - 1_000_000_000
    } else {
        d.1
    }
}

/// `NaiveTime::signed_duration_since` followed by `TimeDelta::num_seconds` and
/// `TimeDelta::subsec_nanos`: the span from `b` to `a` as whole seconds and the
/// nanoseconds left over.
#[verifier::external_body]
pub(crate) fn time_delta(a: Time, b: Time) -> (r: (i64, i32))
    requires
        a.wf(),
        b.wf(),
    ensures
        r.0 == whole_seconds_between(a, b),
        r.1 == subsec_nanos_between(a, b),
{
    let na = NaiveTime::from_num_seconds_from_midnight_opt(a.secs, a.frac).unwrap_or_default();
    let nb = NaiveTime::from_num_seconds_from_midnight_opt(b.secs, b.frac).unwrap_or_default();
    let d = na.signed_duration_since(nb);
    (d.num_seconds(), d.subsec_nanos())
}

/// The whole minutes from `b` to `a`, rounded toward zero, as
/// `TimeDelta::num_minutes` counts them.
pub fn minutes_between(a: Time, b: Time) -> (r: i64)
    requires
        a.wf(),
        b.wf(),
    ensures
        r == trunc_div(whole_seconds_between(a, b), 60),
{
    let (secs, _nanos) = time_delta(a, b);
    if secs >= 0 {
        secs / 60
    } else {
        assert(secs > -200000);
        -((-secs) / 60)
    }
}

/// A local date and time of day, as the machine's time zone shows it.
#[derive(Clone, Copy, Debug, PartialEq, Eq, Structural)]
pub struct LocalDateTime {
    /// The local date.
    pub date: Date,
    /// The local time of day.
    pub time: Time,
}

impl LocalDateTime {
    /// Both parts lie in their ranges.
    pub open spec fn wf(self) -> bool {
        self.date.wf() && self.time.wf()
    }
}

/// The local date and time now (`Local::now()`, read as its local date and
/// time). What it returns depends on the clock and the time zone: only the
/// ranges of its parts are stated.
#[verifier::external_body]
pub(crate) fn local_now() -> (r: LocalDateTime)
    ensures
        r.wf(),
{
    let now = Local::now().naive_local();
    LocalDateTime {
        date: Date { days: now.date().num_days_from_ce() },
        time: Time { secs: now.time().num_seconds_from_midnight(), frac: now.time().nanosecond() },
    }
}

/// `now` moved to the day `d`: the same time of day on that day.
pub fn moved_to(now: &LocalDateTime, d: Date) -> (r: LocalDateTime)
    ensures
        r.date == d,
        r.time == now.time,
{
    LocalDateTime { date: d, time: now.time }
}

/// The seconds from the start of 1970 to `secs` seconds past the start of the
/// day `d`, the day taken as if it were in UTC.
pub open spec fn naive_seconds(d: Date, secs: int) -> int {
    (d.days - 719163) * 86400 + secs
}

/// `ts` is the moment `secs` seconds past the start of the day `d` in a time
/// zone less than a day off UTC: it lies within a day of that moment in UTC.
pub open spec fn within_a_day(ts: int, d: Date, secs: int) -> bool {
    naive_seconds(d, secs) - 86400 < ts < naive_seconds(d, secs) + 86400
}

/// The Unix timestamp of the local day of `at` at the given hour, minute and
/// second, as chrono's `DateTime::<Local>::with_hour`, `with_minute`,
/// `with_second` and `timestamp` give it. It depends on the machine's time zone,
/// and it is `None` where the zone has no single such moment. What is stated is
/// what holds in every zone: the local date and time that chrono converts are
/// that day at that time, and a local offset (a `FixedOffset`) is less than a
/// day, so the timestamp lies within a day of that moment read as UTC. Which
/// moment it is, and when it is `None`, is left unsaid.
#[verifier::external_body]
pub(crate) fn local_timestamp_at(at: &LocalDateTime, hour: u32, minute: u32, second: u32) -> (r: Option<i64>)
    ensures
        r matches Some(ts) ==> within_a_day(ts as int, at.date, hour * 3600 + minute * 60 + second),
{
    let date = NaiveDate::from_num_days_from_ce_opt(at.date.days)?;
    let time = NaiveTime::from_num_seconds_from_midnight_opt(at.time.secs, at.time.frac)?;
    let local = Local.from_local_datetime(&NaiveDateTime::new(date, time)).earliest()?;
    let moment = local.with_hour(hour)?.with_minute(minute)?.with_second(second)?;
    Some(moment.timestamp())
}

/// The day number of the UTC day of a Unix timestamp.
pub open spec fn utc_day(ts: int) -> int {
    ts / 86400 + 719163
}

/// chrono holds the moment of a Unix timestamp: its UTC day lies in the range
/// of dates.
pub open spec fn stamp_in_range(ts: int) -> bool {
    MIN_DAYS <= utc_day(ts) <= MAX_DAYS
}

/// The local date and time at a Unix timestamp, as chrono's
/// `DateTime::from_timestamp`, `Local.from_utc_datetime` and `naive_local` give
/// it; `None` where chrono does not hold the moment. The local time depends on
/// the machine's time zone: what is stated is what holds in every zone, that a
/// local offset (a `FixedOffset`) is less than a day, so the local date and
/// time read as UTC lie within a day of the moment. `naive_local` panics where
/// the local date leaves the range of dates, so a moment on the first or the
/// last day of the range is left out.
#[verifier::external_body]
pub(crate) fn local_at_timestamp(ts: i64) -> (r: Option<LocalDateTime>)
    requires
        stamp_in_range(ts as int) ==> MIN_DAYS < utc_day(ts as int) < MAX_DAYS,
    ensures
        r is Some <==> stamp_in_range(ts as int),
        r matches Some(x) ==> x.wf() && x.time.frac == 0 && within_a_day(ts as int, x.date, x.time.secs as int),
{
    let utc = chrono::DateTime::from_timestamp(ts, 0)?;
    let local = Local.from_utc_datetime(&utc.naive_utc()).naive_local();
    Some(LocalDateTime {
        date: Date { days: local.date().num_days_from_ce() },
        time: Time { secs: local.time().num_seconds_from_midnight(), frac: local.time().nanosecond() },
    })
}

/// The Unix timestamp that an endpoint given `ts` works at: `ts` itself, or the
/// start of 1970 where chrono does not hold its moment.
pub fn effective_stamp(ts: i64) -> (r: i64)
    ensures
        r == if stamp_in_range(ts as int) { ts as int } else { 0 },
{
    if -8_334_601_228_800i64 <= ts && ts < 8_210_266_876_800i64 {
        ts
    } else {
        0
    }
}

/// Now in the local time zone as RFC 2822 text (`Local::now().to_rfc2822()`).
/// It depends on the clock and the time zone: nothing is stated of it.
#[verifier::external_body]
pub(crate) fn rfc2822_now() -> String {
    Local::now().to_rfc2822()
}

/// The moment of a Unix timestamp in the local time zone as RFC 2822 text, as
/// chrono's `DateTime::from_timestamp`, `Local.from_utc_datetime` and
/// `to_rfc2822` give it. It depends on the time zone: nothing is stated of it.
/// `to_rfc2822` panics on a local year outside 0 to 9999, and `from_timestamp`
/// holds only the moments in the range of dates, so the moment lies a day or
/// more inside those years.
#[verifier::external_body]
pub(crate) fn rfc2822_at(ts: i64) -> String
    requires
        -365 < utc_day(ts as int) < 3652059,
{
    match chrono::DateTime::from_timestamp(ts, 0) {
        Some(utc) => Local.from_utc_datetime(&utc.naive_utc()).to_rfc2822(),
        None => String::new(),
    }
}

/// The local date and time that an endpoint works at: now, where it was given
/// no timestamp; else the moment of the timestamp, or the start of 1970 where
/// chrono does not hold that moment. The local time of a moment depends on
/// the time zone: it lies within a day of the moment read as UTC.
pub fn now_for(timestamp: Option<i64>) -> (r: LocalDateTime)
    requires
        timestamp matches Some(ts) ==> (stamp_in_range(ts as int) ==> MIN_DAYS < utc_day(ts as int) < MAX_DAYS),
    ensures
        r.wf(),
        timestamp matches Some(ts) ==> r.time.frac == 0 && within_a_day(
            if stamp_in_range(ts as int) { ts as int } else { 0 },
            r.date,
            r.time.secs as int,
        ),
{
    match timestamp {
        None => local_now(),
        Some(ts) => match local_at_timestamp(effective_stamp(ts)) {
            Some(x) => x,
            None => local_now(),
        },
    }
}

/// The date that chrono's `NaiveDate::from_str` reads from `text`, or `None`
/// where it reports an error.
pub uninterp spec fn date_from_text(text: Seq<char>) -> Option<Date>;

/// The time that chrono's `NaiveTime::from_str` reads from `text`, or `None`
/// where it reports an error.
pub uninterp spec fn time_from_text(text: Seq<char>) -> Option<Time>;

#[verifier::external_type_specification]
#[verifier::external_body]
pub struct ExChronoParseError(chrono::ParseError);

/// `NaiveDate::from_str`: the date read from the text, by its day number, as
/// `date_from_text` names it; a date that chrono holds lies in the calendar.
#[verifier::external_body]
pub(crate) fn parse_date_text(s: &str) -> (r: Result<Date, chrono::ParseError>)
    ensures
        r is Ok <==> date_from_text(s@) is Some,
        r matches Ok(d) ==> date_from_text(s@) == Some(d) && d.wf(),
{
    match s.parse::<NaiveDate>() {
        Ok(d) => Ok(Date { days: d.num_days_from_ce() }),
        Err(e) => Err(e),
    }
}

/// `NaiveTime::from_str`: the time read from the text, as `time_from_text`
/// names it; a time that chrono holds is well formed.
#[verifier::external_body]
pub(crate) fn parse_time_text(s: &str) -> (r: Result<Time, chrono::ParseError>)
    ensures
        r is Ok <==> time_from_text(s@) is Some,
        r matches Ok(t) ==> time_from_text(s@) == Some(t) && t.wf(),
{
    match s.parse::<NaiveTime>() {
        Ok(t) => Ok(Time { secs: t.num_seconds_from_midnight(), frac: t.nanosecond() }),
        Err(e) => Err(e),
    }
}

} // verus!

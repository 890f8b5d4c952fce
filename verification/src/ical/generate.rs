//! Writing a schedule out as iCalendar text.
use vstd::prelude::*;

use rand::Rng;

use crate::datetime::{civil_from_days, Date, Time};
use crate::ical::event::IcalEvent;
use crate::schedule::def::lookup_type;
use crate::schedule::event::{
    day_events, day_index, day_view, events_view, law_insert_keeps_other_days, lemma_day_index, set_day, unique_days, CalendarView, Event,
    EventView,
};
use crate::schedule::period::Period;
use crate::schedule::schedule_inner::{day_periods, Schedule};
use crate::api::legacy::weekday_legacy;
use crate::text::{int_display, nat_text, pad_zeros, push_nat, push_padded, push_padded_int, push_str, string_of};

verus! {

/// A random number to tell an event apart (`rand::thread_rng().gen::<usize>()`).
/// Nothing is stated of it.
#[verifier::external_body]
fn random_uid() -> usize {
    rand::thread_rng().gen::<usize>()
}

/// A date written as `YYYYMMDD`, each part padded with zeros.
pub open spec fn date_text(d: Date) -> Seq<char> {
    let c = civil_from_days(d.days as int);
    pad_zeros(int_display(c.0), 4) + pad_zeros(nat_text(c.1 as nat), 2) + pad_zeros(nat_text(c.2 as nat), 2)
}

/// A time of day written as `HHMMSS`.
pub open spec fn time_text(t: Time) -> Seq<char> {
    pad_zeros(nat_text((t.secs / 3600) as nat), 2) + pad_zeros(nat_text((t.secs / 60 % 60) as nat), 2)
        + pad_zeros(nat_text((t.secs % 60) as nat), 2)
}

/// A date and a time of day written as `YYYYMMDDTHHMMSS`.
pub open spec fn stamp_text(d: Date, t: Time) -> Seq<char> {
    date_text(d) + "T"@ + time_text(t)
}

/// The event for a period on one date.
pub open spec fn dated_vevent(uid: usize, p: Period, d: Date) -> Seq<char> {
    "BEGIN:VEVENT\nUID:"@ + nat_text(uid as nat) + "\nSUMMARY:"@ + p.friendly_name@ + "\nDTSTAMP:"@
        + stamp_text(d, p.start) + "\nDTSTART:"@ + stamp_text(d, p.start) + "\nDTEND:"@ + stamp_text(d, p.end)
        + "\nEND:VEVENT\n"@
}

/// The two-letter name of a day of the week, counted from Sunday.
pub open spec fn day_code(i: int) -> Seq<char> {
    if i == 0 {
        "SU"@
    } else if i == 1 {
        "MO"@
    } else if i == 2 {
        "TU"@
    } else if i == 3 {
        "WE"@
    } else if i == 4 {
        "TH"@
    } else if i == 5 {
        "FR"@
    } else {
        "SA"@
    }
}

/// The weekly event for a period of the typical schedule of a day of the week,
/// from the week of `start` on, except on the given dates.
pub open spec fn weekly_vevent(uid: usize, p: Period, start: Date, weekday: int, exdates: Seq<char>) -> Seq<char> {
    "BEGIN:VEVENT\nUID:"@ + nat_text(uid as nat) + "\nDTSTAMP:"@ + stamp_text(start, p.start) + "\nDTSTART:"@
        + stamp_text(start, p.start) + "\nDTEND:"@ + stamp_text(start, p.end) + "\nSUMMARY:"@ + p.friendly_name@
        + "\nRRULE:FREQ=WEEKLY;BYDAY="@ + day_code(weekday) + "\nEXDATE:"@ + exdates + "\nEND:VEVENT\n"@
}

/// The excepted dates, each written as `YYYYMMDDT000000`, joined with commas.
pub open spec fn exdates_text(ex: Seq<Date>) -> Seq<char>
    decreases ex.len(),
{
    if ex.len() == 0 {
        Seq::empty()
    } else if ex.len() == 1 {
        date_text(ex[0]) + "T000000"@
    } else {
        exdates_text(ex.drop_last()) + ","@ + date_text(ex.last()) + "T000000"@
    }
}

/// No event of the day overrides its schedule.
pub open spec fn is_special(evs: Seq<EventView>) -> bool {
    forall|i: int| 0 <= i < evs.len() ==> (#[trigger] evs[i]) is SpecialEvent
}

/// The events for the periods on one date, the `k`-th id on for their ids.
pub open spec fn dated_vevents(ps: Seq<Period>, d: Date, uids: Seq<usize>, k: int) -> Seq<char>
    decreases ps.len(),
{
    if ps.len() == 0 {
        Seq::empty()
    } else {
        dated_vevents(ps.drop_last(), d, uids, k) + dated_vevent(uids[k + ps.len() - 1], ps.last(), d)
    }
}

/// The weekly events for the periods of one day of the week, the `k`-th id on for their ids.
pub open spec fn weekly_vevents(ps: Seq<Period>, start: Date, weekday: int, exdates: Seq<char>, uids: Seq<usize>, k: int) -> Seq<char>
    decreases ps.len(),
{
    if ps.len() == 0 {
        Seq::empty()
    } else {
        weekly_vevents(ps.drop_last(), start, weekday, exdates, uids, k)
            + weekly_vevent(uids[k + ps.len() - 1], ps.last(), start, weekday, exdates)
    }
}

/// The `i`-th day of the calendar lies between `start` and `end` and has an
/// event that overrides its schedule: its periods are written out one by one.
pub open spec fn day_needs(s: Schedule, start: Date, end: Date, i: int) -> bool {
    let date = s.calendar@[i].0;
    &&& start.days <= date.days <= end.days
    &&& !is_special(s.calendar@[i].1)
}

/// The events of the first `n` days of the calendar that need them, the dates of
/// those days, and the number of ids taken.
pub open spec fn calendar_part(s: Schedule, start: Date, end: Date, uids: Seq<usize>, n: int) -> (Seq<char>, Seq<Date>, int)
    decreases n,
{
    if n <= 0 {
        (Seq::empty(), Seq::empty(), 0)
    } else {
        let prev = calendar_part(s, start, end, uids, n - 1);
        let date = s.calendar@[n - 1].0;
        if !day_needs(s, start, end, n - 1) {
            prev
        } else {
            match day_periods(s, date) {
                None => prev,
                Some(ps) => (prev.0 + dated_vevents(ps, date, uids, prev.2), prev.1.push(date), prev.2 + ps.len()),
            }
        }
    }
}

/// The weekly events of the first `n` days of the typical week, ids taken from
/// the `k0`-th on, and the number of ids taken in all.
pub open spec fn typical_part(s: Schedule, start: Date, exdates: Seq<char>, uids: Seq<usize>, k0: int, n: int) -> (Seq<char>, int)
    decreases n,
{
    if n <= 0 {
        (Seq::empty(), k0)
    } else {
        let prev = typical_part(s, start, exdates, uids, k0, n - 1);
        match lookup_type(s.definition.schedule_types.entries@, s.definition.typical_schedule@[n - 1]@) {
            None => prev,
            Some(st) => (prev.0 + weekly_vevents(st.periods@, start, n - 1, exdates, uids, prev.1), prev.1 + st.periods@.len()),
        }
    }
}

/// The schedule can be written out between `start` and `end`: the schedule of
/// every day of the calendar that needs its periods written can be found, every
/// schedule type of the typical week exists, and only the first seven days of the
/// typical week have periods.
pub open spec fn generation_defined(s: Schedule, start: Date, end: Date) -> bool {
    &&& forall|i: int| 0 <= i < s.calendar@.len() && #[trigger] day_needs(s, start, end, i)
        ==> day_periods(s, s.calendar@[i].0) is Some
    &&& forall|i: int| 0 <= i < s.definition.typical_schedule@.len()
        ==> (lookup_type(s.definition.schedule_types.entries@, #[trigger] s.definition.typical_schedule@[i]@) matches Some(st)
            && (st.periods@.len() > 0 ==> i < 7))
}

/// The iCalendar text for the schedule from `start` to `end`, with these ids for
/// its events: the events of every day in the range whose schedule is overridden,
/// then the weekly events of the typical week from the week of `start` on, except
/// on those days.
pub open spec fn generated_text(s: Schedule, start: Date, end: Date, uids: Seq<usize>) -> Seq<char> {
    let cal = calendar_part(s, start, end, uids, s.calendar@.len() as int);
    let typ = typical_part(s, start, exdates_text(cal.1), uids, cal.2, s.definition.typical_schedule@.len() as int);
    "BEGIN:VCALENDAR\nVERSION:2.0\nPRODID:ETHSBell Rewrite\n"@ + cal.0 + typ.0 + "END:VCALENDAR\n"@
}

/// Some day of the calendar that needs its periods written is on `d`.
pub open spec fn needed_on(s: Schedule, start: Date, end: Date, d: Date) -> bool {
    exists|i: int| 0 <= i < s.calendar@.len() && #[trigger] day_needs(s, start, end, i) && s.calendar@[i].0 == d
}

/// The dates that the first `n` days of the calendar except from the weekly
/// events are those of the days among them that need their periods written.
proof fn lemma_calendar_part_dates(s: Schedule, start: Date, end: Date, uids: Seq<usize>, n: int)
    requires
        0 <= n <= s.calendar@.len(),
        generation_defined(s, start, end),
    ensures
        forall|i: int| 0 <= i < n && #[trigger] day_needs(s, start, end, i)
            ==> calendar_part(s, start, end, uids, n).1.contains(s.calendar@[i].0),
        forall|k: int| 0 <= k < calendar_part(s, start, end, uids, n).1.len()
            ==> needed_on(s, start, end, #[trigger] calendar_part(s, start, end, uids, n).1[k]),
    decreases n,
{
    if n > 0 {
        lemma_calendar_part_dates(s, start, end, uids, n - 1);
        let prev = calendar_part(s, start, end, uids, n - 1);
        let cur = calendar_part(s, start, end, uids, n);
        if day_needs(s, start, end, n - 1) {
            assert(day_periods(s, s.calendar@[n - 1].0) is Some);
            assert(cur.1 == prev.1.push(s.calendar@[n - 1].0));
            assert forall|i: int| 0 <= i < n && #[trigger] day_needs(s, start, end, i) implies cur.1.contains(s.calendar@[i].0) by {
                if i < n - 1 {
                    let k = choose|k: int| 0 <= k < prev.1.len() && prev.1[k] == s.calendar@[i].0;
                    assert(cur.1[k] == s.calendar@[i].0);
                } else {
                    assert(cur.1[prev.1.len() as int] == s.calendar@[i].0);
                }
            }
            assert forall|k: int| 0 <= k < cur.1.len() implies needed_on(s, start, end, #[trigger] cur.1[k]) by {
                if k < prev.1.len() {
                    assert(cur.1[k] == prev.1[k]);
                } else {
                    assert(day_needs(s, start, end, n - 1) && cur.1[k] == s.calendar@[n - 1].0);
                }
            }
        }
    }
}

/// The weekly events of the typical week are excepted on exactly the days of
/// the range whose schedule an event of the calendar overrides: every such day
/// is an exception, and every exception is such a day.
pub proof fn law_overridden_days_are_excepted(s: Schedule, start: Date, end: Date, uids: Seq<usize>)
    requires
        generation_defined(s, start, end),
    ensures
        forall|i: int| 0 <= i < s.calendar@.len() && #[trigger] day_needs(s, start, end, i)
            ==> calendar_part(s, start, end, uids, s.calendar@.len() as int).1.contains(s.calendar@[i].0),
        forall|k: int| 0 <= k < calendar_part(s, start, end, uids, s.calendar@.len() as int).1.len()
            ==> needed_on(s, start, end, #[trigger] calendar_part(s, start, end, uids, s.calendar@.len() as int).1[k]),
{
    lemma_calendar_part_dates(s, start, end, uids, s.calendar@.len() as int);
}

/// Days other than `d` keep their periods when the events of `d` are set.
proof fn lemma_other_days_keep_periods(s1: Schedule, s2: Schedule, d: Date, evs: Seq<EventView>, x: Date)
    requires
        s2.calendar@ == set_day(s1.calendar@, d, evs),
        s2.definition == s1.definition,
        x != d,
    ensures
        day_periods(s2, x) == day_periods(s1, x),
{
    law_insert_keeps_other_days(s1.calendar@, d, evs, x);
}

/// The first `n` days of a calendar give the same part of the text once the
/// events of a date outside the range are set.
proof fn lemma_calendar_part_other_day(
    s1: Schedule,
    s2: Schedule,
    start: Date,
    end: Date,
    uids: Seq<usize>,
    d: Date,
    evs: Seq<EventView>,
    n: int,
)
    requires
        d.days < start.days || d.days > end.days,
        s2.calendar@ == set_day(s1.calendar@, d, evs),
        s2.definition == s1.definition,
        0 <= n <= s1.calendar@.len(),
    ensures
        calendar_part(s2, start, end, uids, n) == calendar_part(s1, start, end, uids, n),
    decreases n,
{
    if n > 0 {
        lemma_calendar_part_other_day(s1, s2, start, end, uids, d, evs, n - 1);
        lemma_day_index(s1.calendar@, d);
        let i = n - 1;
        let date = s1.calendar@[i].0;
        if day_index(s1.calendar@, d) == Some(i) {
            assert(!day_needs(s1, start, end, i));
            assert(!day_needs(s2, start, end, i));
        } else {
            assert(s2.calendar@[i] == s1.calendar@[i]);
            assert(day_needs(s2, start, end, i) == day_needs(s1, start, end, i));
            if day_needs(s1, start, end, i) {
                lemma_other_days_keep_periods(s1, s2, d, evs, date);
            }
        }
    }
}

/// The weekly events depend on the definition of the schedule alone.
proof fn lemma_typical_part_definition(s1: Schedule, s2: Schedule, start: Date, exdates: Seq<char>, uids: Seq<usize>, k0: int, n: int)
    requires
        s2.definition == s1.definition,
    ensures
        typical_part(s2, start, exdates, uids, k0, n) == typical_part(s1, start, exdates, uids, k0, n),
    decreases n,
{
    if n > 0 {
        lemma_typical_part_definition(s1, s2, start, exdates, uids, k0, n - 1);
    }
}

/// Setting the events of a date outside the range from `start` to `end`
/// changes nothing in what is written out for that range: the generated text
/// with any ids, and whether it can be written at all, stay as they were. So
/// the text depends on the days of the calendar within the range alone.
pub proof fn law_generation_ignores_other_days(
    s1: Schedule,
    s2: Schedule,
    start: Date,
    end: Date,
    uids: Seq<usize>,
    d: Date,
    evs: Seq<EventView>,
)
    requires
        d.days < start.days || d.days > end.days,
        s2.calendar@ == set_day(s1.calendar@, d, evs),
        s2.definition == s1.definition,
    ensures
        generated_text(s2, start, end, uids) == generated_text(s1, start, end, uids),
        generation_defined(s2, start, end) == generation_defined(s1, start, end),
{
    let n1 = s1.calendar@.len() as int;
    lemma_day_index(s1.calendar@, d);
    lemma_calendar_part_other_day(s1, s2, start, end, uids, d, evs, n1);
    if day_index(s1.calendar@, d) is None {
        assert(s2.calendar@.len() == n1 + 1);
        assert(!day_needs(s2, start, end, n1));
    }
    let c1 = calendar_part(s1, start, end, uids, n1);
    let c2 = calendar_part(s2, start, end, uids, s2.calendar@.len() as int);
    assert(c2 == c1);
    lemma_typical_part_definition(s1, s2, start, exdates_text(c1.1), uids, c1.2, s1.definition.typical_schedule@.len() as int);
    assert forall|i: int| 0 <= i < s2.calendar@.len() && #[trigger] day_needs(s2, start, end, i) implies i < n1
        && day_needs(s1, start, end, i) && day_periods(s2, s2.calendar@[i].0) == day_periods(s1, s1.calendar@[i].0) by {
        assert(s2.calendar@[i].0 != d);
        assert(s2.calendar@[i] == s1.calendar@[i]);
        lemma_other_days_keep_periods(s1, s2, d, evs, s2.calendar@[i].0);
    }
    assert forall|i: int| 0 <= i < s1.calendar@.len() && #[trigger] day_needs(s1, start, end, i) implies day_needs(s2, start, end, i)
        && day_periods(s2, s2.calendar@[i].0) == day_periods(s1, s1.calendar@[i].0) by {
        assert(s1.calendar@[i].0 != d);
        if day_index(s1.calendar@, d) == Some(i) {
            assert(s1.calendar@[i].0 == d);
        }
        assert(s2.calendar@[i] == s1.calendar@[i]);
        lemma_other_days_keep_periods(s1, s2, d, evs, s1.calendar@[i].0);
    }
}

/// The days of a calendar that lie between `start` and `end`, in their order.
pub open spec fn days_in_range(cal: CalendarView, start: Date, end: Date) -> CalendarView
    decreases cal.len(),
{
    if cal.len() == 0 {
        cal
    } else {
        let p = days_in_range(cal.drop_last(), start, end);
        if start.days <= cal.last().0.days <= end.days {
            p.push(cal.last())
        } else {
            p
        }
    }
}

/// The events of the days of `ents` whose schedule an event overrides, the
/// dates of those days, and the number of ids taken.
pub open spec fn entries_part(s: Schedule, ents: CalendarView, uids: Seq<usize>) -> (Seq<char>, Seq<Date>, int)
    decreases ents.len(),
{
    if ents.len() == 0 {
        (Seq::empty(), Seq::empty(), 0)
    } else {
        let prev = entries_part(s, ents.drop_last(), uids);
        let date = ents.last().0;
        if is_special(ents.last().1) {
            prev
        } else {
            match day_periods(s, date) {
                None => prev,
                Some(ps) => (prev.0 + dated_vevents(ps, date, uids, prev.2), prev.1.push(date), prev.2 + ps.len()),
            }
        }
    }
}

/// The part of the text for the first `n` days of the calendar is the part for
/// those of them that lie in the range.
proof fn lemma_calendar_part_in_range(s: Schedule, start: Date, end: Date, uids: Seq<usize>, n: int)
    requires
        0 <= n <= s.calendar@.len(),
    ensures
        calendar_part(s, start, end, uids, n) == entries_part(s, days_in_range(s.calendar@.take(n), start, end), uids),
    decreases n,
{
    if n > 0 {
        lemma_calendar_part_in_range(s, start, end, uids, n - 1);
        let c = s.calendar@.take(n);
        assert(c.drop_last() =~= s.calendar@.take(n - 1));
        assert(c.last() == s.calendar@[n - 1]);
        let p = days_in_range(s.calendar@.take(n - 1), start, end);
        if start.days <= c.last().0.days <= end.days {
            assert(p.push(c.last()).drop_last() =~= p);
            assert(p.push(c.last()).last() == c.last());
        }
    } else {
        assert(s.calendar@.take(0) =~= CalendarView::empty());
    }
}

/// The days in the range are days of the calendar, and every day of the
/// calendar in the range is among them.
proof fn lemma_days_in_range(cal: CalendarView, start: Date, end: Date)
    ensures
        forall|k: int| 0 <= k < days_in_range(cal, start, end).len() ==> exists|i: int|
            0 <= i < cal.len() && cal[i] == #[trigger] days_in_range(cal, start, end)[k],
        forall|k: int| 0 <= k < days_in_range(cal, start, end).len() ==>
            start.days <= (#[trigger] days_in_range(cal, start, end)[k]).0.days <= end.days,
        forall|i: int| 0 <= i < cal.len() && start.days <= (#[trigger] cal[i]).0.days <= end.days ==> exists|k: int|
            0 <= k < days_in_range(cal, start, end).len() && days_in_range(cal, start, end)[k] == cal[i],
    decreases cal.len(),
{
    if cal.len() > 0 {
        let q = cal.drop_last();
        lemma_days_in_range(q, start, end);
        let p = days_in_range(q, start, end);
        let r = days_in_range(cal, start, end);
        assert forall|k: int| 0 <= k < r.len() implies exists|i: int| 0 <= i < cal.len() && cal[i] == #[trigger] r[k] by {
            if k < p.len() {
                assert(r[k] == p[k]);
                let i = choose|i: int| 0 <= i < q.len() && q[i] == p[k];
                assert(cal[i] == q[i]);
            } else {
                assert(r[k] == cal[cal.len() - 1]);
            }
        }
        assert forall|k: int| 0 <= k < r.len() implies start.days <= (#[trigger] r[k]).0.days <= end.days by {
            if k < p.len() {
                assert(r[k] == p[k]);
            }
        }
        assert forall|i: int| 0 <= i < cal.len() && start.days <= (#[trigger] cal[i]).0.days <= end.days implies exists|k: int|
            0 <= k < r.len() && r[k] == cal[i] by {
            if i < cal.len() - 1 {
                assert(q[i] == cal[i]);
                let k = choose|k: int| 0 <= k < p.len() && p[k] == q[i];
                assert(r[k] == p[k]);
            } else {
                assert(r[p.len() as int] == cal[i]);
            }
        }
    }
}

/// In a calendar with one entry per date, the events of an entry's date are
/// its events.
proof fn lemma_entry_events(cal: CalendarView, i: int)
    requires
        unique_days(cal),
        0 <= i < cal.len(),
    ensures
        day_events(cal, cal[i].0) == cal[i].1,
{
    lemma_day_index(cal, cal[i].0);
    let j = day_index(cal, cal[i].0)->0;
    if j != i {
        if j < i {
            assert(cal[j].0 != cal[i].0);
        } else {
            assert(cal[i].0 != cal[j].0);
        }
    }
}

/// The part for a list of days is the same for two schedules that give the
/// same periods on each of those days that an event overrides.
proof fn lemma_entries_part_same(s1: Schedule, s2: Schedule, ents: CalendarView, uids: Seq<usize>)
    requires
        forall|k: int| 0 <= k < ents.len() && !is_special((#[trigger] ents[k]).1) ==> day_periods(s1, ents[k].0) == day_periods(s2, ents[k].0),
    ensures
        entries_part(s1, ents, uids) == entries_part(s2, ents, uids),
    decreases ents.len(),
{
    if ents.len() > 0 {
        let q = ents.drop_last();
        assert forall|k: int| 0 <= k < q.len() && !is_special((#[trigger] q[k]).1) implies day_periods(s1, q[k].0) == day_periods(s2, q[k].0) by {
            assert(q[k] == ents[k]);
        }
        lemma_entries_part_same(s1, s2, q, uids);
        assert(ents.last() == ents[ents.len() - 1]);
    }
}

/// Whether a schedule's overridden days in the range can all be written,
/// read from the days in the range.
proof fn lemma_defined_in_range(s: Schedule, start: Date, end: Date)
    requires
        unique_days(s.calendar@),
    ensures
        (forall|i: int| 0 <= i < s.calendar@.len() && #[trigger] day_needs(s, start, end, i) ==> day_periods(s, s.calendar@[i].0) is Some)
            <==> (forall|k: int| 0 <= k < days_in_range(s.calendar@, start, end).len() && !is_special(
            (#[trigger] days_in_range(s.calendar@, start, end)[k]).1,
        ) ==> day_periods(s, days_in_range(s.calendar@, start, end)[k].0) is Some),
{
    let cal = s.calendar@;
    let e = days_in_range(cal, start, end);
    lemma_days_in_range(cal, start, end);
    if forall|i: int| 0 <= i < cal.len() && #[trigger] day_needs(s, start, end, i) ==> day_periods(s, cal[i].0) is Some {
        assert forall|k: int| 0 <= k < e.len() && !is_special((#[trigger] e[k]).1) implies day_periods(s, e[k].0) is Some by {
            let i = choose|i: int| 0 <= i < cal.len() && cal[i] == e[k];
            assert(day_needs(s, start, end, i));
        }
    }
    if forall|k: int| 0 <= k < e.len() && !is_special((#[trigger] e[k]).1) ==> day_periods(s, e[k].0) is Some {
        assert forall|i: int| 0 <= i < cal.len() && #[trigger] day_needs(s, start, end, i) implies day_periods(s, cal[i].0) is Some by {
            assert(start.days <= cal[i].0.days <= end.days);
            let k = choose|k: int| 0 <= k < e.len() && e[k] == cal[i];
            assert(!is_special(e[k].1));
        }
    }
}

/// Two schedules with the same definition and the same events on a day give
/// the same periods on it.
proof fn lemma_same_events_same_periods(s1: Schedule, s2: Schedule, d: Date)
    requires
        s2.definition == s1.definition,
        day_events(s2.calendar@, d) == day_events(s1.calendar@, d),
    ensures
        day_periods(s1, d) == day_periods(s2, d),
{
    assert(s1.source_on(d) == s2.source_on(d));
}

/// Two schedules with the same definition whose calendars hold the same days
/// in the range give the same periods on each of those days.
proof fn lemma_in_range_periods_agree(s1: Schedule, s2: Schedule, start: Date, end: Date)
    requires
        unique_days(s1.calendar@),
        unique_days(s2.calendar@),
        s2.definition == s1.definition,
        days_in_range(s2.calendar@, start, end) == days_in_range(s1.calendar@, start, end),
    ensures
        forall|k: int| 0 <= k < days_in_range(s1.calendar@, start, end).len() ==> day_periods(
            s1,
            (#[trigger] days_in_range(s1.calendar@, start, end)[k]).0,
        ) == day_periods(s2, days_in_range(s1.calendar@, start, end)[k].0),
{
    let e = days_in_range(s1.calendar@, start, end);
    lemma_days_in_range(s1.calendar@, start, end);
    lemma_days_in_range(s2.calendar@, start, end);
    assert forall|k: int| 0 <= k < e.len() implies day_periods(s1, (#[trigger] e[k]).0) == day_periods(s2, e[k].0) by {
        let i = choose|i: int| 0 <= i < s1.calendar@.len() && s1.calendar@[i] == e[k];
        let j = choose|j: int| 0 <= j < s2.calendar@.len() && s2.calendar@[j] == e[k];
        lemma_entry_events(s1.calendar@, i);
        lemma_entry_events(s2.calendar@, j);
        lemma_same_events_same_periods(s1, s2, e[k].0);
    }
}

/// The part of the text for the whole calendar is the part for its days in the range.
proof fn lemma_whole_calendar_part(s: Schedule, start: Date, end: Date, uids: Seq<usize>)
    ensures
        calendar_part(s, start, end, uids, s.calendar@.len() as int) == entries_part(s, days_in_range(s.calendar@, start, end), uids),
{
    lemma_calendar_part_in_range(s, start, end, uids, s.calendar@.len() as int);
    assert(s.calendar@.take(s.calendar@.len() as int) =~= s.calendar@);
}

/// What is written out from `start` to `end` depends on the days of the
/// calendar in that range alone, in their order: two schedules with the same
/// definition whose calendars hold the same days in the range, whatever else
/// they hold and in whatever order the other days come, give the same text
/// with any ids, and either both can be written out or neither can.
pub proof fn law_generation_depends_on_days_in_range(s1: Schedule, s2: Schedule, start: Date, end: Date, uids: Seq<usize>)
    requires
        s1.calendar.wf(),
        s2.calendar.wf(),
        s2.definition == s1.definition,
        days_in_range(s2.calendar@, start, end) == days_in_range(s1.calendar@, start, end),
    ensures
        generated_text(s2, start, end, uids) == generated_text(s1, start, end, uids),
        generation_defined(s2, start, end) == generation_defined(s1, start, end),
{
    let e = days_in_range(s1.calendar@, start, end);
    lemma_in_range_periods_agree(s1, s2, start, end);
    assert forall|k: int| 0 <= k < e.len() && !is_special((#[trigger] e[k]).1) implies day_periods(s1, e[k].0) == day_periods(
        s2,
        e[k].0,
    ) by {}
    lemma_entries_part_same(s1, s2, e, uids);
    lemma_whole_calendar_part(s1, start, end, uids);
    lemma_whole_calendar_part(s2, start, end, uids);
    let c1 = calendar_part(s1, start, end, uids, s1.calendar@.len() as int);
    lemma_typical_part_definition(s1, s2, start, exdates_text(c1.1), uids, c1.2, s1.definition.typical_schedule@.len() as int);
    lemma_defined_in_range(s1, start, end);
    lemma_defined_in_range(s2, start, end);
}

/// A letter in upper case; other characters as they are.
pub open spec fn upper(c: char) -> char {
    if 'a' <= c && c <= 'z' {
        ((c as int) - 32) as char
    } else {
        c
    }
}

/// The weekly events of the `i`-th day of the typical week, counted from
/// Sunday, repeat on that day of the week: their `BYDAY` code is the first two
/// letters, in upper case, of the name of the day that the legacy API gives the
/// same index (Sunday, Monday, ..., Saturday).
pub proof fn law_weekly_events_fall_on_their_day(i: int)
    requires
        0 <= i < 7,
    ensures
        day_code(i) == seq![upper(weekday_legacy(i)[0]), upper(weekday_legacy(i)[1])],
{
    reveal_strlit("SU");
    reveal_strlit("MO");
    reveal_strlit("TU");
    reveal_strlit("WE");
    reveal_strlit("TH");
    reveal_strlit("FR");
    reveal_strlit("SA");
    reveal_strlit("Sunday");
    reveal_strlit("Monday");
    reveal_strlit("Tuesday");
    reveal_strlit("Wednesday");
    reveal_strlit("Thursday");
    reveal_strlit("Friday");
    reveal_strlit("Saturday");
    assert(day_code(i) =~= seq![upper(weekday_legacy(i)[0]), upper(weekday_legacy(i)[1])]);
}

/// `t` occurs in `s`.
pub open spec fn occurs_in(t: Seq<char>, s: Seq<char>) -> bool {
    exists|k: int| 0 <= k <= s.len() && t.len() <= s.len() - k && (#[trigger] s.skip(k)).take(t.len() as int) == t
}

/// `t` occurs in `a + t + b`.
proof fn lemma_occurs_between(a: Seq<char>, t: Seq<char>, b: Seq<char>)
    ensures
        occurs_in(t, a + t + b),
{
    let s = a + t + b;
    assert(s.skip(a.len() as int).take(t.len() as int) =~= t);
}

/// The event for a period on a date starts at the period's start and ends at
/// its end on that date, and is named after the period: its `DTSTART` line
/// holds the date and the start, its `DTEND` line the date and the end, and its
/// `SUMMARY` line the period's name.
pub proof fn law_dated_event_fields(uid: usize, p: Period, d: Date)
    ensures
        occurs_in("\nDTSTART:"@ + stamp_text(d, p.start) + "\n"@, dated_vevent(uid, p, d)),
        occurs_in("\nDTEND:"@ + stamp_text(d, p.end) + "\n"@, dated_vevent(uid, p, d)),
        occurs_in("\nSUMMARY:"@ + p.friendly_name@ + "\n"@, dated_vevent(uid, p, d)),
{
    let s = dated_vevent(uid, p, d);
    reveal_strlit("\nEND:VEVENT\n");
    reveal_strlit("\n");
    reveal_strlit("\nDTSTAMP:");
    reveal_strlit("\nDTEND:");
    reveal_strlit("\nSUMMARY:");
    reveal_strlit("\nDTSTART:");
    let a1 = "BEGIN:VEVENT\nUID:"@ + nat_text(uid as nat) + "\nSUMMARY:"@ + p.friendly_name@ + "\nDTSTAMP:"@ + stamp_text(d, p.start);
    let t1 = "\nDTSTART:"@ + stamp_text(d, p.start) + "\n"@;
    let b1 = "DTEND:"@ + stamp_text(d, p.end) + "\nEND:VEVENT\n"@;
    reveal_strlit("DTEND:");
    assert(s =~= a1 + t1 + b1);
    lemma_occurs_between(a1, t1, b1);
    let a2 = "BEGIN:VEVENT\nUID:"@ + nat_text(uid as nat) + "\nSUMMARY:"@ + p.friendly_name@ + "\nDTSTAMP:"@ + stamp_text(d, p.start)
        + "\nDTSTART:"@ + stamp_text(d, p.start);
    let t2 = "\nDTEND:"@ + stamp_text(d, p.end) + "\n"@;
    let b2 = "END:VEVENT\n"@;
    reveal_strlit("END:VEVENT\n");
    assert(s =~= a2 + t2 + b2);
    lemma_occurs_between(a2, t2, b2);
    let a3 = "BEGIN:VEVENT\nUID:"@ + nat_text(uid as nat);
    let t3 = "\nSUMMARY:"@ + p.friendly_name@ + "\n"@;
    let b3 = "DTSTAMP:"@ + stamp_text(d, p.start) + "\nDTSTART:"@ + stamp_text(d, p.start) + "\nDTEND:"@ + stamp_text(d, p.end)
        + "\nEND:VEVENT\n"@;
    reveal_strlit("DTSTAMP:");
    assert(s =~= a3 + t3 + b3);
    lemma_occurs_between(a3, t3, b3);
}

/// The weekly event for a period of the typical week starts at the period's
/// start and ends at its end, from `start`'s date on, is named after the
/// period, repeats every week on its day of the week, and is excepted on the
/// dates given.
pub proof fn law_weekly_event_fields(uid: usize, p: Period, start: Date, weekday: int, exdates: Seq<char>)
    ensures
        occurs_in("\nDTSTART:"@ + stamp_text(start, p.start) + "\n"@, weekly_vevent(uid, p, start, weekday, exdates)),
        occurs_in("\nDTEND:"@ + stamp_text(start, p.end) + "\n"@, weekly_vevent(uid, p, start, weekday, exdates)),
        occurs_in("\nSUMMARY:"@ + p.friendly_name@ + "\n"@, weekly_vevent(uid, p, start, weekday, exdates)),
        occurs_in("\nRRULE:FREQ=WEEKLY;BYDAY="@ + day_code(weekday) + "\n"@, weekly_vevent(uid, p, start, weekday, exdates)),
        occurs_in("\nEXDATE:"@ + exdates + "\n"@, weekly_vevent(uid, p, start, weekday, exdates)),
{
    let s = weekly_vevent(uid, p, start, weekday, exdates);
    let h = "BEGIN:VEVENT\nUID:"@ + nat_text(uid as nat);
    let st = stamp_text(start, p.start);
    let en = stamp_text(start, p.end);
    reveal_strlit("\nDTSTAMP:");
    reveal_strlit("\nDTSTART:");
    reveal_strlit("\nDTEND:");
    reveal_strlit("\nSUMMARY:");
    reveal_strlit("\nRRULE:FREQ=WEEKLY;BYDAY=");
    reveal_strlit("\nEXDATE:");
    reveal_strlit("\nEND:VEVENT\n");
    reveal_strlit("\n");
    reveal_strlit("DTEND:");
    reveal_strlit("SUMMARY:");
    reveal_strlit("RRULE:FREQ=WEEKLY;BYDAY=");
    reveal_strlit("EXDATE:");
    reveal_strlit("END:VEVENT\n");
    let t1 = "\nDTSTART:"@ + st + "\n"@;
    let a1 = h + "\nDTSTAMP:"@ + st;
    let b1 = "DTEND:"@ + en + "\nSUMMARY:"@ + p.friendly_name@ + "\nRRULE:FREQ=WEEKLY;BYDAY="@ + day_code(weekday) + "\nEXDATE:"@
        + exdates + "\nEND:VEVENT\n"@;
    assert(s =~= a1 + t1 + b1);
    lemma_occurs_between(a1, t1, b1);
    let t2 = "\nDTEND:"@ + en + "\n"@;
    let a2 = h + "\nDTSTAMP:"@ + st + "\nDTSTART:"@ + st;
    let b2 = "SUMMARY:"@ + p.friendly_name@ + "\nRRULE:FREQ=WEEKLY;BYDAY="@ + day_code(weekday) + "\nEXDATE:"@ + exdates
        + "\nEND:VEVENT\n"@;
    assert(s =~= a2 + t2 + b2);
    lemma_occurs_between(a2, t2, b2);
    let t3 = "\nSUMMARY:"@ + p.friendly_name@ + "\n"@;
    let a3 = h + "\nDTSTAMP:"@ + st + "\nDTSTART:"@ + st + "\nDTEND:"@ + en;
    let b3 = "RRULE:FREQ=WEEKLY;BYDAY="@ + day_code(weekday) + "\nEXDATE:"@ + exdates + "\nEND:VEVENT\n"@;
    assert(s =~= a3 + t3 + b3);
    lemma_occurs_between(a3, t3, b3);
    let t4 = "\nRRULE:FREQ=WEEKLY;BYDAY="@ + day_code(weekday) + "\n"@;
    let a4 = h + "\nDTSTAMP:"@ + st + "\nDTSTART:"@ + st + "\nDTEND:"@ + en + "\nSUMMARY:"@ + p.friendly_name@;
    let b4 = "EXDATE:"@ + exdates + "\nEND:VEVENT\n"@;
    assert(s =~= a4 + t4 + b4);
    lemma_occurs_between(a4, t4, b4);
    let t5 = "\nEXDATE:"@ + exdates + "\n"@;
    let a5 = h + "\nDTSTAMP:"@ + st + "\nDTSTART:"@ + st + "\nDTEND:"@ + en + "\nSUMMARY:"@ + p.friendly_name@
        + "\nRRULE:FREQ=WEEKLY;BYDAY="@ + day_code(weekday);
    let b5 = "END:VEVENT\n"@;
    assert(s =~= a5 + t5 + b5);
    lemma_occurs_between(a5, t5, b5);
}

/// What occurs in a text occurs in it with more text before or after it.
proof fn lemma_occurs_extend(t: Seq<char>, a: Seq<char>, b: Seq<char>)
    ensures
        occurs_in(t, a) ==> occurs_in(t, a + b),
        occurs_in(t, b) ==> occurs_in(t, a + b),
{
    if occurs_in(t, a) {
        let k = choose|k: int| 0 <= k <= a.len() && t.len() <= a.len() - k && (#[trigger] a.skip(k)).take(t.len() as int) == t;
        assert((a + b).skip(k).take(t.len() as int) =~= a.skip(k).take(t.len() as int));
    }
    if occurs_in(t, b) {
        let k = choose|k: int| 0 <= k <= b.len() && t.len() <= b.len() - k && (#[trigger] b.skip(k)).take(t.len() as int) == t;
        assert((a + b).skip(a.len() + k).take(t.len() as int) =~= b.skip(k).take(t.len() as int));
    }
}

/// A text occurs in itself.
proof fn lemma_occurs_self(t: Seq<char>)
    ensures
        occurs_in(t, t),
{
    assert(t.skip(0).take(t.len() as int) =~= t);
}

/// Each period's weekly event occurs among the weekly events of its day.
proof fn lemma_weekly_vevents_hold(ps: Seq<Period>, start: Date, weekday: int, exdates: Seq<char>, uids: Seq<usize>, k: int, j: int)
    requires
        0 <= j < ps.len(),
    ensures
        occurs_in(weekly_vevent(uids[k + j], ps[j], start, weekday, exdates), weekly_vevents(ps, start, weekday, exdates, uids, k)),
    decreases ps.len(),
{
    let rest = weekly_vevents(ps.drop_last(), start, weekday, exdates, uids, k);
    let last = weekly_vevent(uids[k + ps.len() - 1], ps.last(), start, weekday, exdates);
    if j == ps.len() - 1 {
        lemma_occurs_self(last);
        lemma_occurs_extend(last, rest, last);
    } else {
        lemma_weekly_vevents_hold(ps.drop_last(), start, weekday, exdates, uids, k, j);
        assert(ps.drop_last()[j] == ps[j]);
        lemma_occurs_extend(weekly_vevent(uids[k + j], ps[j], start, weekday, exdates), rest, last);
    }
}

/// The weekly events of the first `n` days of the typical week hold, for each
/// of those days whose schedule type exists, the weekly event of each of its
/// periods on that day of the week.
proof fn lemma_typical_part_holds(s: Schedule, start: Date, exdates: Seq<char>, uids: Seq<usize>, k0: int, n: int, i: int, j: int)
    requires
        0 <= i < n,
        lookup_type(s.definition.schedule_types.entries@, s.definition.typical_schedule@[i]@) matches Some(st) && 0 <= j < st.periods@.len(),
    ensures
        exists|u: usize| occurs_in(
            weekly_vevent(
                u,
                lookup_type(s.definition.schedule_types.entries@, s.definition.typical_schedule@[i]@)->0.periods@[j],
                start,
                i,
                exdates,
            ),
            #[trigger] typical_part(s, start, exdates, uids, k0, n).0,
        ),
    decreases n,
{
    let st = lookup_type(s.definition.schedule_types.entries@, s.definition.typical_schedule@[i]@)->0;
    let prev = typical_part(s, start, exdates, uids, k0, n - 1);
    if i < n - 1 {
        lemma_typical_part_holds(s, start, exdates, uids, k0, n - 1, i, j);
        let u = choose|u: usize| occurs_in(weekly_vevent(u, st.periods@[j], start, i, exdates), #[trigger] typical_part(s, start, exdates, uids, k0, n - 1).0);
        match lookup_type(s.definition.schedule_types.entries@, s.definition.typical_schedule@[n - 1]@) {
            None => {},
            Some(st2) => {
                lemma_occurs_extend(weekly_vevent(u, st.periods@[j], start, i, exdates), prev.0,
                    weekly_vevents(st2.periods@, start, n - 1, exdates, uids, prev.1));
            },
        }
        assert(occurs_in(weekly_vevent(u, st.periods@[j], start, i, exdates), typical_part(s, start, exdates, uids, k0, n).0));
    } else {
        let w = weekly_vevents(st.periods@, start, n - 1, exdates, uids, prev.1);
        lemma_weekly_vevents_hold(st.periods@, start, n - 1, exdates, uids, prev.1, j);
        let u = uids[prev.1 + j];
        lemma_occurs_extend(weekly_vevent(u, st.periods@[j], start, i, exdates), prev.0, w);
        assert(occurs_in(weekly_vevent(u, st.periods@[j], start, i, exdates), typical_part(s, start, exdates, uids, k0, n).0));
    }
}

/// The typical week repeats each week on its own day: for every day `i` of the
/// typical week, counted from Sunday, and every period of its schedule type,
/// the text holds that period's weekly event on day `i` (named after the
/// period, at its times, repeating on `day_code(i)`, with the text's exceptions).
pub proof fn law_typical_week_written_on_its_days(s: Schedule, start: Date, end: Date, uids: Seq<usize>, i: int, j: int)
    requires
        0 <= i < s.definition.typical_schedule@.len(),
        lookup_type(s.definition.schedule_types.entries@, s.definition.typical_schedule@[i]@) matches Some(st) && 0 <= j < st.periods@.len(),
    ensures
        exists|u: usize| occurs_in(
            weekly_vevent(
                u,
                lookup_type(s.definition.schedule_types.entries@, s.definition.typical_schedule@[i]@)->0.periods@[j],
                start,
                i,
                exdates_text(calendar_part(s, start, end, uids, s.calendar@.len() as int).1),
            ),
            #[trigger] generated_text(s, start, end, uids),
        ),
{
    let cal = calendar_part(s, start, end, uids, s.calendar@.len() as int);
    let ex = exdates_text(cal.1);
    let n = s.definition.typical_schedule@.len() as int;
    let typ = typical_part(s, start, ex, uids, cal.2, n);
    let st = lookup_type(s.definition.schedule_types.entries@, s.definition.typical_schedule@[i]@)->0;
    lemma_typical_part_holds(s, start, ex, uids, cal.2, n, i, j);
    let u = choose|u: usize| occurs_in(weekly_vevent(u, st.periods@[j], start, i, ex), #[trigger] typical_part(s, start, ex, uids, cal.2, n).0);
    let w = weekly_vevent(u, st.periods@[j], start, i, ex);
    let head = "BEGIN:VCALENDAR\nVERSION:2.0\nPRODID:ETHSBell Rewrite\n"@ + cal.0;
    lemma_occurs_extend(w, head, typ.0);
    lemma_occurs_extend(w, head + typ.0, "END:VCALENDAR\n"@);
    assert(generated_text(s, start, end, uids) == head + typ.0 + "END:VCALENDAR\n"@);
    assert(occurs_in(w, generated_text(s, start, end, uids)));
}

/// Adds a date written as `YYYYMMDD`.
fn push_date(out: &mut Vec<char>, d: Date)
    requires
        d.wf(),
    ensures
        final(out)@ == old(out)@ + date_text(d),
{
    let (y, m, dd) = d.year_month_day();
    push_padded_int(out, y, 4);
    push_padded(out, m as u64, 2);
    push_padded(out, dd as u64, 2);
    assert(final(out)@ =~= old(out)@ + date_text(d));
}

/// Adds a time of day written as `HHMMSS`.
fn push_time(out: &mut Vec<char>, t: Time)
    ensures
        final(out)@ == old(out)@ + time_text(t),
{
    push_padded(out, t.hour() as u64, 2);
    push_padded(out, t.minute() as u64, 2);
    push_padded(out, t.second() as u64, 2);
    assert(final(out)@ =~= old(out)@ + time_text(t));
}

/// Adds a date and a time written as `YYYYMMDDTHHMMSS`.
fn push_stamp(out: &mut Vec<char>, d: Date, t: Time)
    requires
        d.wf(),
    ensures
        final(out)@ == old(out)@ + stamp_text(d, t),
{
    push_date(out, d);
    push_str(out, "T");
    push_time(out, t);
    assert(final(out)@ =~= old(out)@ + stamp_text(d, t));
}

/// Adds a list of characters.
fn push_chars(out: &mut Vec<char>, s: &Vec<char>)
    ensures
        final(out)@ == old(out)@ + s@,
{
    let ghost before = out@;
    let mut i: usize = 0;
    while i < s.len()
        invariant
            i <= s@.len(),
            out@ == before + s@.take(i as int),
        decreases s@.len() - i,
    {
        out.push(s[i]);
        i = i + 1;
        assert(out@ =~= before + s@.take(i as int));
    }
    assert(s@.take(s@.len() as int) =~= s@);
}

/// Adds the event for a period on one date.
fn push_dated_vevent(out: &mut Vec<char>, uid: usize, p: &Period, d: Date)
    requires
        d.wf(),
    ensures
        final(out)@ == old(out)@ + dated_vevent(uid, *p, d),
{
    let mut ev: Vec<char> = Vec::new();
    push_str(&mut ev, "BEGIN:VEVENT\nUID:");
    assert(ev@ =~= "BEGIN:VEVENT\nUID:"@);
    push_nat(&mut ev, uid as u64);
    push_str(&mut ev, "\nSUMMARY:");
    push_str(&mut ev, p.friendly_name.as_str());
    push_str(&mut ev, "\nDTSTAMP:");
    push_stamp(&mut ev, d, p.start);
    push_str(&mut ev, "\nDTSTART:");
    push_stamp(&mut ev, d, p.start);
    push_str(&mut ev, "\nDTEND:");
    push_stamp(&mut ev, d, p.end);
    push_str(&mut ev, "\nEND:VEVENT\n");
    assert(ev@ == dated_vevent(uid, *p, d));
    push_chars(out, &ev);
}

/// Adds the two-letter name of a day of the week.
fn push_day_code(out: &mut Vec<char>, i: usize)
    ensures
        final(out)@ == old(out)@ + day_code(i as int),
{
    if i == 0 {
        push_str(out, "SU");
    } else if i == 1 {
        push_str(out, "MO");
    } else if i == 2 {
        push_str(out, "TU");
    } else if i == 3 {
        push_str(out, "WE");
    } else if i == 4 {
        push_str(out, "TH");
    } else if i == 5 {
        push_str(out, "FR");
    } else {
        push_str(out, "SA");
    }
}

/// Adds the weekly event for a period of the typical week.
fn push_weekly_vevent(out: &mut Vec<char>, uid: usize, p: &Period, start: Date, weekday: usize, exdates: &Vec<char>)
    requires
        start.wf(),
    ensures
        final(out)@ == old(out)@ + weekly_vevent(uid, *p, start, weekday as int, exdates@),
{
    let mut ev: Vec<char> = Vec::new();
    push_str(&mut ev, "BEGIN:VEVENT\nUID:");
    assert(ev@ =~= "BEGIN:VEVENT\nUID:"@);
    push_nat(&mut ev, uid as u64);
    push_str(&mut ev, "\nDTSTAMP:");
    push_stamp(&mut ev, start, p.start);
    push_str(&mut ev, "\nDTSTART:");
    push_stamp(&mut ev, start, p.start);
    push_str(&mut ev, "\nDTEND:");
    push_stamp(&mut ev, start, p.end);
    push_str(&mut ev, "\nSUMMARY:");
    push_str(&mut ev, p.friendly_name.as_str());
    push_str(&mut ev, "\nRRULE:FREQ=WEEKLY;BYDAY=");
    push_day_code(&mut ev, weekday);
    push_str(&mut ev, "\nEXDATE:");
    push_chars(&mut ev, exdates);
    push_str(&mut ev, "\nEND:VEVENT\n");
    assert(ev@ == weekly_vevent(uid, *p, start, weekday as int, exdates@));
    push_chars(out, &ev);
}

/// Whether no event of the day overrides its schedule.
fn events_are_special(evs: &Vec<Event>) -> (r: bool)
    ensures
        r == is_special(events_view(evs@)),
{
    let mut i: usize = 0;
    while i < evs.len()
        invariant
            i <= evs@.len(),
            forall|k: int| 0 <= k < i ==> (#[trigger] events_view(evs@)[k]) is SpecialEvent,
        decreases evs@.len() - i,
    {
        match &evs[i] {
            Event::SpecialEvent(_) => {},
            _ => {
                assert(!(events_view(evs@)[i as int] is SpecialEvent));
                return false;
            },
        }
        i = i + 1;
    }
    true
}

/// Adds the excepted dates, each written as `YYYYMMDDT000000`, joined with commas.
fn push_exdates(out: &mut Vec<char>, ex: &Vec<Date>)
    requires
        forall|k: int| 0 <= k < ex@.len() ==> (#[trigger] ex@[k]).wf(),
    ensures
        final(out)@ == old(out)@ + exdates_text(ex@),
{
    let ghost before = out@;
    let mut i: usize = 0;
    assert(ex@.take(0) =~= Seq::<Date>::empty());
    assert(out@ =~= before + exdates_text(ex@.take(0)));
    while i < ex.len()
        invariant
            i <= ex@.len(),
            forall|k: int| 0 <= k < ex@.len() ==> (#[trigger] ex@[k]).wf(),
            out@ == before + exdates_text(ex@.take(i as int)),
        decreases ex@.len() - i,
    {
        let ghost prev = out@;
        if i > 0 {
            push_str(out, ",");
        }
        push_date(out, ex[i]);
        push_str(out, "T000000");
        proof {
            let t = ex@.take(i + 1);
            assert(t.drop_last() =~= ex@.take(i as int));
            assert(t.last() == ex@[i as int]);
            if i == 0 {
                assert(t[0] == ex@[0]);
                assert(ex@.take(0) =~= Seq::<Date>::empty());
            }
        }
        i = i + 1;
        assert(out@ =~= before + exdates_text(ex@.take(i as int)));
    }
    assert(ex@.take(ex@.len() as int) =~= ex@);
}

impl IcalEvent {
    /// Writes the schedule from `start` to `end` out as iCalendar text, each event
    /// with a random id: the periods of every day of the calendar in the range
    /// whose schedule an event overrides, then the periods of the typical week as
    /// weekly events from the week of `start` on, except on those days. `None`
    /// where the schedule of such a day cannot be found, a schedule type of the
    /// typical week does not exist, or a day of the typical week after the
    /// seventh has periods.
    pub fn try_generate(schedule: &Schedule, start: Date, end: Date) -> (r: Option<String>)
        requires
            start.wf(),
            end.wf(),
            schedule.calendar.wf(),
        ensures
            r is Some <==> generation_defined(*schedule, start, end),
            r matches Some(text) ==> exists|uids: Seq<usize>| generated_text(*schedule, start, end, uids) == text@,
    {
        let ghost s = *schedule;
        let ghost mut uids: Seq<usize> = Seq::empty();
        let mut cal_out: Vec<char> = Vec::new();
        let mut ex: Vec<Date> = Vec::new();
        let n = schedule.calendar.days.len();
        assert(s.calendar@.len() == n);
        let mut i: usize = 0;
        proof {
            assert forall|more: Seq<usize>| #[trigger] calendar_part(s, start, end, uids + more, 0) == (cal_out@, ex@, uids.len() as int) by {
                assert(cal_out@ =~= Seq::<char>::empty());
                assert(ex@ =~= Seq::<Date>::empty());
            }
        }
        while i < n
            invariant
                s == *schedule,
                n == schedule.calendar.days@.len(),
                n == s.calendar@.len(),
                start.wf(),
                end.wf(),
                s.calendar.dates_wf(),
                i <= n,
                forall|more: Seq<usize>| #[trigger] calendar_part(s, start, end, uids + more, i as int) == (cal_out@, ex@, uids.len() as int),
                forall|k: int| 0 <= k < ex@.len() ==> (#[trigger] ex@[k]).wf(),
                forall|k: int| 0 <= k < i && #[trigger] day_needs(s, start, end, k) ==> day_periods(s, s.calendar@[k].0) is Some,
            decreases n - i,
        {
            let day = &schedule.calendar.days[i];
            assert(s.calendar@[i as int] == day_view(schedule.calendar.days@[i as int]));
            assert(day.date.wf());
            let in_range = start.days <= day.date.days && day.date.days <= end.days;
            if !in_range || events_are_special(&day.events) {
                proof {
                    assert(!day_needs(s, start, end, i as int));
                    assert forall|more: Seq<usize>| #[trigger] calendar_part(s, start, end, uids + more, i + 1) == (cal_out@, ex@, uids.len() as int) by {
                        assert(calendar_part(s, start, end, uids + more, i as int) == (cal_out@, ex@, uids.len() as int));
                    }
                }
                i = i + 1;
                continue;
            }
            assert(day_needs(s, start, end, i as int));
            let found = schedule.try_on_date(day.date);
            match found {
                None => {
                    assert(day_periods(s, s.calendar@[i as int].0) is None);
                    return None;
                },
                Some((st, _name)) => {
                    let ghost ps = st.periods@;
                    assert(day_periods(s, day.date) == Some(ps));
                    let ghost uids_day = uids;
                    let ghost out_day = cal_out@;
                    let ghost k0 = uids.len() as int;
                    let ghost ex_day = ex@;
                    let mut j: usize = 0;
                    proof {
                        assert(uids.take(k0) =~= uids_day);
                        assert forall|more: Seq<usize>| cal_out@ == out_day + #[trigger] dated_vevents(ps.take(0), day.date, uids + more, k0) by {
                            assert(ps.take(0) =~= Seq::<Period>::empty());
                            assert(cal_out@ =~= out_day + Seq::<char>::empty());
                        }
                    }
                    while j < st.periods.len()
                        invariant
                            j <= ps.len(),
                            ps == st.periods@,
                            day.date.wf(),
                            k0 == uids_day.len(),
                            uids.len() == k0 + j,
                            uids.take(k0) == uids_day,
                            forall|more: Seq<usize>| cal_out@ == out_day + #[trigger] dated_vevents(ps.take(j as int), day.date, uids + more, k0),
                        decreases ps.len() - j,
                    {
                        let uid = random_uid();
                        let ghost before_push = cal_out@;
                        let ghost old_uids = uids;
                        push_dated_vevent(&mut cal_out, uid, &st.periods[j], day.date);
                        proof {
                            uids = uids.push(uid);
                            assert(uids.take(k0) =~= old_uids.take(k0));
                            assert forall|more: Seq<usize>| cal_out@ == out_day + #[trigger] dated_vevents(ps.take(j + 1), day.date, uids + more, k0) by {
                                let m2 = seq![uid] + more;
                                assert(uids + more =~= old_uids + m2);
                                assert(ps.take(j + 1).drop_last() =~= ps.take(j as int));
                                assert((uids + more)[k0 + j] == uid);
                                assert(before_push == out_day + dated_vevents(ps.take(j as int), day.date, old_uids + m2, k0));
                                assert(cal_out@ =~= out_day + dated_vevents(ps.take(j + 1), day.date, uids + more, k0));
                            }
                        }
                        j = j + 1;
                    }
                    ex.push(day.date);
                    proof {
                        assert(ps.take(ps.len() as int) =~= ps);
                        assert(uids =~= uids_day + uids.skip(k0));
                        assert forall|more: Seq<usize>| #[trigger] calendar_part(s, start, end, uids + more, i + 1) == (cal_out@, ex@, uids.len() as int) by {
                            let m2 = uids.skip(k0) + more;
                            assert(uids + more =~= uids_day + m2);
                            assert(calendar_part(s, start, end, uids_day + m2, i as int) == (out_day, ex_day, k0));
                            assert(cal_out@ == out_day + dated_vevents(ps.take(ps.len() as int), day.date, uids + more, k0));
                            assert(ex@ =~= ex_day.push(day.date));
                        }
                    }
                },
            }
            i = i + 1;
        }
        let mut exd: Vec<char> = Vec::new();
        push_exdates(&mut exd, &ex);
        assert(exd@ =~= exdates_text(ex@));
        let ghost uids_c = uids;
        let ghost kc = uids.len() as int;
        let ghost cal_text = cal_out@;
        let ghost ex_c = ex@;
        let mut typ_out: Vec<char> = Vec::new();
        let tn = schedule.definition.typical_schedule.len();
        let mut t: usize = 0;
        proof {
            assert(uids.take(kc) =~= uids_c);
            assert forall|more: Seq<usize>| #[trigger] typical_part(s, start, exd@, uids + more, kc, 0) == (typ_out@, uids.len() as int) by {
                assert(typ_out@ =~= Seq::<char>::empty());
            }
        }
        while t < tn
            invariant
                s == *schedule,
                tn == s.definition.typical_schedule@.len(),
                t <= tn,
                start.wf(),
                kc == uids_c.len(),
                kc <= uids.len(),
                uids.take(kc) == uids_c,
                forall|more: Seq<usize>| #[trigger] typical_part(s, start, exd@, uids + more, kc, t as int) == (typ_out@, uids.len() as int),
                forall|k: int| 0 <= k < t ==> (lookup_type(s.definition.schedule_types.entries@, #[trigger] s.definition.typical_schedule@[k]@) matches Some(st)
                    && (st.periods@.len() > 0 ==> k < 7)),
            decreases tn - t,
        {
            let name = &schedule.definition.typical_schedule[t];
            match schedule.definition.schedule_types.get(name.as_str()) {
                None => {
                    assert(lookup_type(s.definition.schedule_types.entries@, s.definition.typical_schedule@[t as int]@) is None);
                    return None;
                },
                Some(st) => {
                    if st.periods.len() > 0 && t >= 7 {
                        assert(lookup_type(s.definition.schedule_types.entries@, s.definition.typical_schedule@[t as int]@) == Some(*st));
                        return None;
                    }
                    let ghost ps = st.periods@;
                    let ghost uids_day = uids;
                    let ghost out_day = typ_out@;
                    let ghost k0 = uids.len() as int;
                    let mut j: usize = 0;
                    proof {
                        assert(uids.take(k0) =~= uids_day);
                        assert forall|more: Seq<usize>| typ_out@ == out_day + #[trigger] weekly_vevents(ps.take(0), start, t as int, exd@, uids + more, k0) by {
                            assert(ps.take(0) =~= Seq::<Period>::empty());
                            assert(typ_out@ =~= out_day + Seq::<char>::empty());
                        }
                    }
                    while j < st.periods.len()
                        invariant
                            j <= ps.len(),
                            ps == st.periods@,
                            start.wf(),
                            k0 == uids_day.len(),
                            uids.len() == k0 + j,
                            uids.take(k0) == uids_day,
                            forall|more: Seq<usize>| typ_out@ == out_day + #[trigger] weekly_vevents(ps.take(j as int), start, t as int, exd@, uids + more, k0),
                        decreases ps.len() - j,
                    {
                        let uid = random_uid();
                        let ghost before_push = typ_out@;
                        let ghost old_uids = uids;
                        push_weekly_vevent(&mut typ_out, uid, &st.periods[j], start, t, &exd);
                        proof {
                            uids = uids.push(uid);
                            assert(uids.take(k0) =~= old_uids.take(k0));
                            assert forall|more: Seq<usize>| typ_out@ == out_day + #[trigger] weekly_vevents(ps.take(j + 1), start, t as int, exd@, uids + more, k0) by {
                                let m2 = seq![uid] + more;
                                assert(uids + more =~= old_uids + m2);
                                assert(ps.take(j + 1).drop_last() =~= ps.take(j as int));
                                assert((uids + more)[k0 + j] == uid);
                                assert(before_push == out_day + weekly_vevents(ps.take(j as int), start, t as int, exd@, old_uids + m2, k0));
                                assert(typ_out@ =~= out_day + weekly_vevents(ps.take(j + 1), start, t as int, exd@, uids + more, k0));
                            }
                        }
                        j = j + 1;
                    }
                    proof {
                        assert(ps.take(ps.len() as int) =~= ps);
                        assert(uids =~= uids_day + uids.skip(k0));
                        assert(uids.take(kc) =~= uids_day.take(kc));
                        assert forall|more: Seq<usize>| #[trigger] typical_part(s, start, exd@, uids + more, kc, t + 1) == (typ_out@, uids.len() as int) by {
                            let m2 = uids.skip(k0) + more;
                            assert(uids + more =~= uids_day + m2);
                            assert(typical_part(s, start, exd@, uids_day + m2, kc, t as int) == (out_day, k0));
                            assert(typ_out@ == out_day + weekly_vevents(ps.take(ps.len() as int), start, t as int, exd@, uids + more, k0));
                        }
                    }
                },
            }
            t = t + 1;
        }
        let mut result: Vec<char> = Vec::new();
        push_str(&mut result, "BEGIN:VCALENDAR\nVERSION:2.0\nPRODID:ETHSBell Rewrite\n");
        push_chars(&mut result, &cal_out);
        push_chars(&mut result, &typ_out);
        push_str(&mut result, "END:VCALENDAR\n");
        proof {
            assert(uids =~= uids_c + uids.skip(kc));
            assert(calendar_part(s, start, end, uids_c + uids.skip(kc), n as int) == (cal_text, ex_c, kc));
            assert(typical_part(s, start, exd@, uids + Seq::<usize>::empty(), kc, tn as int) == (typ_out@, uids.len() as int));
            assert(uids + Seq::<usize>::empty() =~= uids);
            assert(generated_text(s, start, end, uids) =~= result@);
        }
        Some(string_of(result.as_slice()))
    }

    /// Generate a semi-valid ICal file from a Schedule for the given date range:
    /// the text that `try_generate` writes, for a schedule that can be written out.
    pub fn generate(schedule: &Schedule, start: Date, end: Date) -> (r: String)
        requires
            start.wf(),
            end.wf(),
            schedule.calendar.wf(),
            generation_defined(*schedule, start, end),
        ensures
            exists|uids: Seq<usize>| generated_text(*schedule, start, end, uids) == r@,
    {
        match Self::try_generate(schedule, start, end) {
            Some(text) => text,
            None => String::new(),
        }
    }
}

} // verus!

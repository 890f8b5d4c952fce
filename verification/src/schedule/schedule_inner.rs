//! The runtime schedule: a definition together with the calendar fetched for it.
use vstd::prelude::*;

use crate::datetime::{Date, LocalDateTime, Time};
use crate::schedule::def::{lookup_type, ScheduleDefinition, ScheduleTypes};
use crate::ical::event::{ical_events_view, IcalEvent, IcalEventView};
use crate::schedule::event::{apply_all, apply_event, day_events, event_span, events_ok, has_override, lemma_apply_event_day, literal_ok, literal_text, matching_names, rename_overrides, try_ical_to_ours, Calendar, CalendarView, Event, EventView};
use crate::text::{all_digits, chars_of, digits_value, lemma_digits_value_nonneg, opt_chars, parse_digits};
use crate::schedule::literal::{has_parts, literal_schedule, parse_literal};
use crate::schedule::period::Period;
use crate::schedule::schedule_type::ScheduleType;

verus! {

/// A structure containing all of the information we need to operate.
#[derive(Clone, Debug)]
pub struct Schedule {
    /// When this schedule's calendar data was last updated, in local time.
    pub last_updated: LocalDateTime,
    /// A map from every date to the list of events occurring on that date.
    pub calendar: Calendar,
    /// The definition from which this schedule was built.
    pub definition: ScheduleDefinition,
}

/// Where the schedule of a day comes from.
pub enum DaySource {
    /// The schedule type of this name.
    Named(Seq<char>),
    /// The schedule type written in this JSON text.
    Literal(Seq<char>),
}

/// The event of a day that decides its schedule: the last override or literal
/// schedule among its events. Calendars are written in ascending order of
/// importance, so the event written last comes from the most important one.
pub open spec fn deciding_event(evs: Seq<EventView>) -> Option<EventView>
    decreases evs.len(),
{
    if evs.len() == 0 {
        None
    } else {
        match evs.last() {
            EventView::SpecialEvent(_) => deciding_event(evs.drop_last()),
            e => Some(e),
        }
    }
}

/// Where the schedule of `date` comes from: the last override or literal schedule
/// among the day's events, or else the typical schedule of its day of the week;
/// `None` where the typical week has no entry for that day.
pub open spec fn day_source(cal: CalendarView, typical: Seq<String>, date: Date) -> Option<DaySource> {
    match deciding_event(day_events(cal, date)) {
        Some(EventView::ScheduleOverride(n)) => Some(DaySource::Named(n)),
        Some(EventView::ScheduleLiteral(j)) => Some(DaySource::Literal(j)),
        _ => if date.weekday_spec() < typical.len() {
            Some(DaySource::Named(typical[date.weekday_spec()]@))
        } else {
            None
        },
    }
}

/// The periods of the schedule on `date`, where it can be found.
pub open spec fn day_periods(s: Schedule, date: Date) -> Option<Seq<Period>> {
    match s.source_on(date) {
        Some(DaySource::Named(n)) => match lookup_type(s.definition.schedule_types.entries@, n) {
            Some(st) => Some(st.periods@),
            None => None,
        },
        Some(DaySource::Literal(j)) => match literal_schedule(j) {
            Some(parts) => Some(parts.1),
            None => None,
        },
        None => None,
    }
}

/// The periods of the day that `on_date` gives are those that `day_periods`
/// names, and it gives one exactly where they can be found.
pub proof fn lemma_on_date_periods(s: Schedule, date: Date, r: (ScheduleType, Option<String>))
    ensures
        s.on_date_defined(date) <==> day_periods(s, date) is Some,
        s.is_on_date(date, r) ==> day_periods(s, date) == Some(r.0.periods@),
{
}

impl Schedule {
    /// Where the schedule of `date` comes from.
    pub open spec fn source_on(self, date: Date) -> Option<DaySource> {
        day_source(self.calendar@, self.definition.typical_schedule@, date)
    }

    /// The schedule of `date` can be found: the schedule type it names exists,
    /// or the JSON text it gives holds a schedule type.
    pub open spec fn on_date_defined(self, date: Date) -> bool {
        match self.source_on(date) {
            Some(DaySource::Named(n)) => lookup_type(self.definition.schedule_types.entries@, n) is Some,
            Some(DaySource::Literal(j)) => literal_schedule(j) is Some,
            None => false,
        }
    }

    /// `r` is the schedule of `date` and its name: a copy of the named schedule
    /// type and its name, or the schedule type read from the literal and no name.
    pub open spec fn is_on_date(self, date: Date, r: (ScheduleType, Option<String>)) -> bool {
        match self.source_on(date) {
            Some(DaySource::Named(n)) => {
                &&& r.1 matches Some(k) && k@ == n
                &&& lookup_type(self.definition.schedule_types.entries@, n) matches Some(st) && r.0.is_copy_of(st)
            },
            Some(DaySource::Literal(j)) => {
                &&& r.1 is None
                &&& literal_schedule(j) matches Some(parts) && has_parts(r.0, parts)
            },
            None => false,
        }
    }

    /// Returns an empty schedule with all default properties, last updated at the
    /// start of 1970-01-01.
    pub fn empty() -> (r: Schedule)
        ensures
            r.last_updated == (LocalDateTime { date: Date { days: 719163 }, time: Time { secs: 0, frac: 0 } }),
            r.calendar@.len() == 0,
            r.calendar.days@.len() == 0,
            r.definition.calendar_urls@.len() == 0,
            r.definition.schedule_types.entries@.len() == 0,
            r.definition.typical_schedule@.len() == 0,
    {
        Schedule {
            last_updated: LocalDateTime { date: Date { days: 719163 }, time: Time { secs: 0, frac: 0 } },
            calendar: Calendar::new(),
            definition: ScheduleDefinition {
                calendar_urls: Vec::new(),
                schedule_types: ScheduleTypes::new(),
                typical_schedule: Vec::new(),
            },
        }
    }

    /// Creates a new schedule for a definition, with an empty calendar, last
    /// updated at the start of 1970-01-01; its first update is to follow.
    pub fn from_definition(def: ScheduleDefinition) -> (r: Schedule)
        ensures
            r.last_updated == (LocalDateTime { date: Date { days: 719163 }, time: Time { secs: 0, frac: 0 } }),
            r.calendar@.len() == 0,
            r.definition == def,
    {
        Schedule {
            last_updated: LocalDateTime { date: Date { days: 719163 }, time: Time { secs: 0, frac: 0 } },
            calendar: Calendar::new(),
            definition: def,
        }
    }

    /// Returns the schedule occurring on `date` and its key in the schedule
    /// table: the last override or literal schedule among the day's events
    /// decides; without one, the typical schedule of the day of the week does.
    pub fn on_date(&self, date: Date) -> (r: (ScheduleType, Option<String>))
        requires
            date.wf(),
            self.on_date_defined(date),
        ensures
            self.is_on_date(date, r),
    {
        match self.try_on_date(date) {
            Some(r) => r,
            None => {
                assert(false);
                (ScheduleType { friendly_name: String::new(), periods: Vec::new(), regex: None, color: None, hide: false }, None)
            },
        }
    }

    /// Returns the schedule occurring on `date` and its key, as `on_date`; `None`
    /// where it cannot be found: a named schedule type that does not exist, a
    /// literal that holds no schedule type, or a typical week with no entry for
    /// the day.
    pub fn try_on_date(&self, date: Date) -> (r: Option<(ScheduleType, Option<String>)>)
        requires
            date.wf(),
        ensures
            r is Some <==> self.on_date_defined(date),
            r matches Some(x) ==> self.is_on_date(date, x),
    {
        let ghost evs = day_events(self.calendar@, date);
        let mut decided: Option<&Event> = None;
        match self.calendar.get(date) {
            Some(events) => {
                assert(evs == crate::schedule::event::events_view(events@));
                let mut i: usize = events.len();
                assert(evs.take(i as int) =~= evs);
                while i > 0
                    invariant_except_break
                        decided is None,
                    invariant
                        i <= events@.len(),
                        evs == crate::schedule::event::events_view(events@),
                        deciding_event(evs) == deciding_event(evs.take(i as int)),
                    ensures
                        decided matches Some(e) ==> deciding_event(evs) == Some(e@),
                        decided is None ==> i == 0 && deciding_event(evs) == deciding_event(evs.take(i as int)),
                    decreases i,
                {
                    assert(evs.take(i as int).last() == events@[i - 1]@);
                    match &events[i - 1] {
                        Event::SpecialEvent(_) => {},
                        e => {
                            decided = Some(e);
                            break;
                        },
                    }
                    assert(evs.take(i as int).drop_last() =~= evs.take(i - 1));
                    i = i - 1;
                }
                proof {
                    if decided is None {
                        assert(evs.take(0) =~= Seq::<EventView>::empty());
                    }
                }
                assert(decided matches Some(e) ==> deciding_event(evs) == Some(e@));
                assert(decided is None ==> deciding_event(evs) is None);
            },
            None => {
                assert(evs =~= Seq::<EventView>::empty());
            },
        }
        match decided {
            Some(Event::ScheduleOverride(name)) => match self.definition.schedule_types.get(name.as_str()) {
                Some(st) => Some((st.clone(), Some(name.clone()))),
                None => None,
            },
            Some(Event::ScheduleLiteral(json)) => match parse_literal(json.as_str()) {
                Some(st) => Some((st, None)),
                None => None,
            },
            _ => {
                let weekday = date.num_days_from_sunday() as usize;
                if weekday >= self.definition.typical_schedule.len() {
                    return None;
                }
                let name = &self.definition.typical_schedule[weekday];
                match self.definition.schedule_types.get(name.as_str()) {
                    Some(st) => Some((st.clone(), Some(name.clone()))),
                    None => None,
                }
            },
        }
    }
}

/// No event of the day gives a literal schedule.
pub open spec fn no_literal(day: Seq<EventView>) -> bool {
    forall|i: int| 0 <= i < day.len() ==> !((#[trigger] day[i]) is ScheduleLiteral)
}

/// An event added to a day decides it, where it is not special.
proof fn lemma_deciding_pushed(day: Seq<EventView>, e: EventView)
    requires
        !(e is SpecialEvent),
    ensures
        deciding_event(day.push(e)) == Some(e),
{
    assert(day.push(e).last() == e);
}

/// With no literal schedule among a day's events, an override renamed to `name`
/// decides the day.
proof fn lemma_deciding_renamed(day: Seq<EventView>, name: Seq<char>)
    requires
        no_literal(day),
        has_override(day),
    ensures
        deciding_event(rename_overrides(day, name)) == Some(EventView::ScheduleOverride(name)),
    decreases day.len(),
{
    let r = rename_overrides(day, name);
    let n = day.len() - 1;
    assert(r.last() == r[n]);
    if day[n] is ScheduleOverride {
        assert(r[n] == EventView::ScheduleOverride(name));
    } else {
        assert(!(day[n] is ScheduleLiteral));
        assert(r[n] == day[n]);
        assert(r.drop_last() =~= rename_overrides(day.drop_last(), name));
        assert forall|i: int| 0 <= i < day.drop_last().len() implies !((#[trigger] day.drop_last()[i]) is ScheduleLiteral) by {
            assert(day.drop_last()[i] == day[i]);
        }
        let i = choose|i: int| 0 <= i < day.len() && day[i] is ScheduleOverride;
        assert(i < n);
        assert(day.drop_last()[i] is ScheduleOverride);
        lemma_deciding_renamed(day.drop_last(), name);
    }
}

/// An event whose summary matches the pattern of a schedule type makes the last
/// such type, in the order of the schedule types, the schedule of every day it
/// spans, unless that day holds both an override and a literal schedule.
pub proof fn law_matching_event_sets_its_days(cal: CalendarView, types: Seq<(String, ScheduleType)>, typical: Seq<String>, e: IcalEventView, x: Date)
    requires
        e.start is Some,
        e.summary is Some,
        !literal_ok(e),
        matching_names(types, e.summary->0).len() > 0,
        event_span(e).0 <= x.days < event_span(e).1,
        has_override(day_events(cal, x)) ==> no_literal(day_events(cal, x)),
    ensures
        day_source(apply_event(cal, types, e), typical, x) == Some(DaySource::Named(matching_names(types, e.summary->0).last())),
{
    lemma_apply_event_day(cal, types, e, x);
    let day = day_events(cal, x);
    let name = matching_names(types, e.summary->0).last();
    if has_override(day) {
        lemma_deciding_renamed(day, name);
    } else {
        lemma_deciding_pushed(day, EventView::ScheduleOverride(name));
    }
}

/// An event that carries a literal schedule makes it the schedule of its first
/// day, whatever was written for that day before.
pub proof fn law_literal_event_sets_its_first_day(cal: CalendarView, types: Seq<(String, ScheduleType)>, typical: Seq<String>, e: IcalEventView, x: Date)
    requires
        e.start is Some,
        literal_ok(e),
        event_span(e).0 < event_span(e).1,
        x.days == event_span(e).0,
    ensures
        day_source(apply_event(cal, types, e), typical, x) == Some(DaySource::Literal(literal_text(e)->0)),
{
    lemma_apply_event_day(cal, types, e, x);
    lemma_deciding_pushed(day_events(cal, x), EventView::ScheduleLiteral(literal_text(e)->0));
}

/// The typical week repeats: two dates a whole number of weeks apart, on which
/// no event decides the schedule, take their schedule from the same source.
pub proof fn law_typical_week_repeats(cal: CalendarView, typical: Seq<String>, d: Date, e: Date)
    requires
        (e.days - d.days) % 7 == 0,
        deciding_event(day_events(cal, d)) is None,
        deciding_event(day_events(cal, e)) is None,
    ensures
        day_source(cal, typical, d) == day_source(cal, typical, e),
{
    assert(d.weekday_spec() == e.weekday_spec());
}

/// The deciding event of a day is never a special event.
proof fn lemma_deciding_not_special(day: Seq<EventView>)
    ensures
        deciding_event(day) matches Some(e) ==> !(e is SpecialEvent),
    decreases day.len(),
{
    if day.len() > 0 {
        lemma_deciding_not_special(day.drop_last());
    }
}

/// The event of a day that decides its schedule decides it, whatever the
/// typical week says.
pub proof fn law_deciding_event_wins(cal: CalendarView, typical: Seq<String>, other: Seq<String>, d: Date)
    requires
        deciding_event(day_events(cal, d)) is Some,
    ensures
        day_source(cal, typical, d) == day_source(cal, other, d),
        day_source(cal, typical, d) is Some,
{
    lemma_deciding_not_special(day_events(cal, d));
}

/// The calendar once each list of events is written to it, in order.
pub open spec fn apply_calendars(cal: CalendarView, types: Seq<(String, ScheduleType)>, cals: Seq<Seq<IcalEventView>>) -> CalendarView
    decreases cals.len(),
{
    if cals.len() == 0 {
        cal
    } else {
        apply_all(apply_calendars(cal, types, cals.drop_last()), types, cals.last())
    }
}

/// The seconds from the start of 1970 to a date and time, the date and time
/// taken as if they were in UTC.
pub open spec fn naive_timestamp(dt: LocalDateTime) -> int {
    (dt.date.days - 719163) * 86400 + dt.time.secs
}

/// A number as its 64-bit two's-complement pattern read without a sign.
pub open spec fn as_unsigned(x: int) -> int {
    if x >= 0 { x } else { x + 0x1_0000_0000_0000_0000 }
}

/// The number of seconds that a text writes, as `u64::from_str` reads it.
pub open spec fn seconds_text(s: Seq<char>) -> Option<int> {
    if s.len() > 0 && s[0] == '+' {
        if s.len() > 1 && all_digits(s.drop_first()) && digits_value(s.drop_first()) <= u64::MAX {
            Some(digits_value(s.drop_first()))
        } else {
            None
        }
    } else if s.len() > 0 && all_digits(s) && digits_value(s) <= u64::MAX {
        Some(digits_value(s))
    } else {
        None
    }
}

proof fn lemma_as_unsigned(x: i64)
    ensures
        (x as u64) as int == as_unsigned(x as int),
{
    if x >= 0 {
        assert(x >= 0 ==> (x as u64) as int == x as int) by (bit_vector);
    } else {
        assert(x < 0 ==> (x as u64) as int == x as int + 0x1_0000_0000_0000_0000) by (bit_vector);
    }
}

/// Reads a number of seconds.
fn parse_seconds(text: &str) -> (r: Option<u64>)
    ensures
        r is Some <==> seconds_text(text@) is Some,
        r matches Some(v) ==> seconds_text(text@) == Some(v as int),
{
    let cs = chars_of(text);
    if cs.len() > 0 && cs[0] == '+' {
        assert(cs@.drop_first() =~= cs@.subrange(1, cs@.len() as int));
        parse_digits(&cs, 1, cs.len(), u64::MAX)
    } else {
        assert(cs@ =~= cs@.subrange(0, cs@.len() as int));
        parse_digits(&cs, 0, cs.len(), u64::MAX)
    }
}

/// Whether data last updated at `last` is out of date at `now`: with an update
/// interval (the text of a number of seconds), where the moment that many seconds
/// before `now` comes after `last`, both read as unsigned Unix timestamps of
/// local time; without one, where `last` was on another day. `None` where the
/// interval is not a number or is longer than the time since 1970.
pub open spec fn update_needed(last: LocalDateTime, now: LocalDateTime, interval: Option<Seq<char>>) -> Option<bool> {
    match interval {
        Some(text) => match seconds_text(text) {
            Some(secs) => if as_unsigned(naive_timestamp(now)) >= secs {
                Some(as_unsigned(naive_timestamp(now)) - secs > as_unsigned(naive_timestamp(last)))
            } else {
                None
            },
            None => None,
        },
        None => Some(last.date != now.date),
    }
}

/// Right after an update no update is needed, and none is as long as the clock
/// does not move on: data updated at `now` is not out of date at `now`.
pub proof fn law_fresh_after_update(now: LocalDateTime, interval: Option<Seq<char>>)
    ensures
        update_needed(now, now, interval) != Some(true),
{
    if let Some(text) = interval {
        if text.len() > 0 && text[0] == '+' {
            if all_digits(text.drop_first()) {
                lemma_digits_value_nonneg(text.drop_first());
            }
        } else if all_digits(text) {
            lemma_digits_value_nonneg(text);
        }
    }
}

/// Once an update is needed, it stays needed as time goes on until the next
/// update: with an interval, a later `now` gives no less reason to update.
pub proof fn law_update_stays_needed(last: LocalDateTime, now: LocalDateTime, later: LocalDateTime, interval: Seq<char>)
    requires
        naive_timestamp(now) >= 0,
        naive_timestamp(now) <= naive_timestamp(later) < 0x8000_0000_0000_0000,
        update_needed(last, now, Some(interval)) == Some(true),
    ensures
        update_needed(last, later, Some(interval)) == Some(true),
{
}

impl Schedule {
    /// Returns whether the schedule's calendar data is out of date at local time
    /// `now`. With an update interval (the text of a number of seconds), it is
    /// out of date where the moment that many seconds before `now` comes after
    /// the last update, both read as Unix timestamps of local time; without one,
    /// where the last update was on another day.
    pub fn is_update_needed(&self, now: &LocalDateTime, interval: Option<&str>) -> (r: bool)
        requires
            now.wf(),
            self.last_updated.wf(),
            update_needed(self.last_updated, *now, opt_chars(interval)) is Some,
        ensures
            update_needed(self.last_updated, *now, opt_chars(interval)) == Some(r),
    {
        match self.try_is_update_needed(now, interval) {
            Some(r) => r,
            None => false,
        }
    }

    /// Whether the schedule's calendar data is out of date at local time `now`,
    /// as `is_update_needed`; `None` where the interval is not a number or is
    /// longer than the time since 1970.
    pub fn try_is_update_needed(&self, now: &LocalDateTime, interval: Option<&str>) -> (r: Option<bool>)
        requires
            now.wf(),
            self.last_updated.wf(),
        ensures
            r == update_needed(self.last_updated, *now, opt_chars(interval)),
    {
        match interval {
            Some(text) => {
                let seconds = parse_seconds(text)?;
                let now_ts: i64 = (now.date.days as i64 - 719163) * 86400 + now.time.secs as i64;
                let last_ts: i64 = (self.last_updated.date.days as i64 - 719163) * 86400 + self.last_updated.time.secs as i64;
                let now_u = now_ts as u64;
                let last_u = last_ts as u64;
                proof {
                    lemma_as_unsigned(now_ts);
                    lemma_as_unsigned(last_ts);
                }
                if now_u < seconds {
                    return None;
                }
                Some(now_u - seconds > last_u)
            },
            None => Some(self.last_updated.date.days != now.date.days),
        }
    }

    /// Updates the schedule: writes the events of each calendar to it, in order,
    /// and records `now` as the time of the update.
    pub fn update(&mut self, calendars: &Vec<Vec<IcalEvent>>, now: LocalDateTime)
        requires
            forall|i: int| 0 <= i < calendars@.len() ==> events_ok(ical_events_view(#[trigger] calendars@[i]@)),
        ensures
            final(self).calendar@ == apply_calendars(old(self).calendar@, old(self).definition.schedule_types.entries@,
                calendars@.map_values(|c: Vec<IcalEvent>| ical_events_view(c@))),
            final(self).last_updated == now,
            final(self).definition.schedule_types.entries@ == old(self).definition.schedule_types.entries@,
            final(self).definition.typical_schedule@ == old(self).definition.typical_schedule@,
            final(self).definition.calendar_urls@ == old(self).definition.calendar_urls@,
    {
        let _ = self.try_update(calendars, now);
    }

    /// Writes the events of each calendar to the schedule, in order, and records
    /// `now` as the time of the update, as `update`. Stops at the first calendar
    /// that holds an event that cannot be written, which is left out with those
    /// after it, and returns false; the time of the update is then left as it was.
    pub fn try_update(&mut self, calendars: &Vec<Vec<IcalEvent>>, now: LocalDateTime) -> (r: bool)
        ensures
            r == (forall|i: int| 0 <= i < calendars@.len() ==> events_ok(ical_events_view(#[trigger] calendars@[i]@))),
            r ==> final(self).calendar@ == apply_calendars(old(self).calendar@, old(self).definition.schedule_types.entries@,
                calendars@.map_values(|c: Vec<IcalEvent>| ical_events_view(c@))),
            r ==> final(self).last_updated == now,
            !r ==> final(self).last_updated == old(self).last_updated,
            !r ==> exists|k: int| {
                &&& 0 <= k < calendars@.len()
                &&& !events_ok(ical_events_view(calendars@[k]@))
                &&& forall|j: int| 0 <= j < k ==> events_ok(ical_events_view(#[trigger] calendars@[j]@))
                &&& final(self).calendar@ == apply_calendars(old(self).calendar@, old(self).definition.schedule_types.entries@,
                    calendars@.map_values(|c: Vec<IcalEvent>| ical_events_view(c@)).take(k))
            },
            final(self).definition.schedule_types.entries@ == old(self).definition.schedule_types.entries@,
            final(self).definition.typical_schedule@ == old(self).definition.typical_schedule@,
            final(self).definition.calendar_urls@ == old(self).definition.calendar_urls@,
    {
        let ghost cals = calendars@.map_values(|c: Vec<IcalEvent>| ical_events_view(c@));
        let ghost ts = self.definition.schedule_types.entries@;
        let mut k: usize = 0;
        assert(cals.take(0) =~= Seq::<Seq<IcalEventView>>::empty());
        while k < calendars.len()
            invariant
                cals == calendars@.map_values(|c: Vec<IcalEvent>| ical_events_view(c@)),
                k <= calendars@.len(),
                ts == old(self).definition.schedule_types.entries@,
                self.definition.schedule_types.entries@ == ts,
                self.definition.typical_schedule@ == old(self).definition.typical_schedule@,
                self.definition.calendar_urls@ == old(self).definition.calendar_urls@,
                self.last_updated == old(self).last_updated,
                self.calendar@ == apply_calendars(old(self).calendar@, ts, cals.take(k as int)),
                forall|i: int| 0 <= i < k ==> events_ok(ical_events_view(#[trigger] calendars@[i]@)),
            decreases calendars@.len() - k,
        {
            assert(cals.take(k + 1).drop_last() =~= cals.take(k as int));
            assert(cals.take(k + 1).last() == ical_events_view(calendars@[k as int]@));
            if !try_ical_to_ours(self, &calendars[k]) {
                assert(!events_ok(ical_events_view(calendars@[k as int]@)));
                return false;
            }
            k = k + 1;
        }
        assert(cals.take(cals.len() as int) =~= cals);
        self.last_updated = now;
        true
    }
}

impl Default for Schedule {
    /// Returns an empty schedule with all default properties.
    fn default() -> (r: Schedule)
        ensures
            r.last_updated == (LocalDateTime { date: Date { days: 719163 }, time: Time { secs: 0, frac: 0 } }),
            r.calendar@.len() == 0,
            r.definition.calendar_urls@.len() == 0,
            r.definition.schedule_types.entries@.len() == 0,
            r.definition.typical_schedule@.len() == 0,
    {
        Schedule::empty()
    }
}

} // verus!

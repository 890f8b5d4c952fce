//! Calendar events and the calendar of a schedule.
use vstd::prelude::*;

use crate::datetime::{Date, MAX_DAYS};
use crate::ical::event::{ical_events_view, IcalEvent, IcalEventView};
use crate::ical::format::starts_with;
use crate::pattern::{regex_is_match, regex_matches};
use crate::schedule::def::ScheduleTypes;
use crate::schedule::literal::{literal_schedule, parse_literal};
use crate::schedule::schedule_type::ScheduleType;
use crate::text::{chars_of, string_of};

verus! {

/// Types of calendar events.
#[derive(Debug)]
pub enum Event {
    /// This variant causes an override of the current schedule to the schedule named in the variant.
    ScheduleOverride(String),
    /// This variant causes the schedule written in the variant, in JSON, to be used.
    ScheduleLiteral(String),
    /// This variant causes a special event message to be included in the API response.
    SpecialEvent(String),
}

/// A calendar event, its text taken by its characters.
pub enum EventView {
    /// An override to the schedule type of this name.
    ScheduleOverride(Seq<char>),
    /// A schedule type written in JSON.
    ScheduleLiteral(Seq<char>),
    /// A special event with this message.
    SpecialEvent(Seq<char>),
}

impl View for Event {
    type V = EventView;

    open spec fn view(&self) -> EventView {
        match self {
            Event::ScheduleOverride(s) => EventView::ScheduleOverride(s@),
            Event::ScheduleLiteral(s) => EventView::ScheduleLiteral(s@),
            Event::SpecialEvent(s) => EventView::SpecialEvent(s@),
        }
    }
}

impl Clone for Event {
    fn clone(&self) -> (r: Self)
        ensures
            r == *self,
    {
        match self {
            Event::ScheduleOverride(s) => Event::ScheduleOverride(s.clone()),
            Event::ScheduleLiteral(s) => Event::ScheduleLiteral(s.clone()),
            Event::SpecialEvent(s) => Event::SpecialEvent(s.clone()),
        }
    }
}

impl PartialEq for Event {
    fn eq(&self, other: &Self) -> (r: bool) {
        match (self, other) {
            (Event::ScheduleOverride(a), Event::ScheduleOverride(b)) => *a == *b,
            (Event::ScheduleLiteral(a), Event::ScheduleLiteral(b)) => *a == *b,
            (Event::SpecialEvent(a), Event::SpecialEvent(b)) => *a == *b,
            _ => false,
        }
    }
}

impl vstd::std_specs::cmp::PartialEqSpecImpl for Event {
    open spec fn obeys_eq_spec() -> bool {
        true
    }

    open spec fn eq_spec(&self, other: &Event) -> bool {
        self@ == other@
    }
}

/// The events of a list, each by its view.
pub open spec fn events_view(evs: Seq<Event>) -> Seq<EventView> {
    evs.map_values(|e: Event| e@)
}

/// The events of one day of the calendar.
#[derive(Clone, Debug)]
pub struct CalendarDay {
    /// The day.
    pub date: Date,
    /// The events of the day, in the order they were added.
    pub events: Vec<Event>,
}

/// A map from dates to the list of events occurring on that date, one entry per
/// date, in the order the dates were added.
#[derive(Clone, Debug)]
pub struct Calendar {
    /// The entries of the calendar.
    pub days: Vec<CalendarDay>,
}

/// The calendar as a list of days, each with the views of its events.
pub type CalendarView = Seq<(Date, Seq<EventView>)>;

impl View for Calendar {
    type V = CalendarView;

    open spec fn view(&self) -> CalendarView {
        days_view(self.days@)
    }
}

/// A day of the calendar, with the views of its events.
pub open spec fn day_view(d: CalendarDay) -> (Date, Seq<EventView>) {
    (d.date, events_view(d.events@))
}

/// A list of days, each with the views of its events.
pub open spec fn days_view(days: Seq<CalendarDay>) -> CalendarView {
    days.map_values(|d: CalendarDay| day_view(d))
}

/// The place of the entry for `d` in the calendar; the first one, where there are several.
pub open spec fn day_index(cal: CalendarView, d: Date) -> Option<int>
    decreases cal.len(),
{
    if cal.len() == 0 {
        None
    } else if cal.last().0 == d && day_index(cal.drop_last(), d) is None {
        Some(cal.len() - 1)
    } else {
        day_index(cal.drop_last(), d)
    }
}

/// The events on `d`: none where the calendar has no entry for it.
pub open spec fn day_events(cal: CalendarView, d: Date) -> Seq<EventView> {
    match day_index(cal, d) {
        Some(i) => cal[i].1,
        None => Seq::empty(),
    }
}

/// The calendar with the events on `d` set to `evs`: the entry for `d` changes in
/// place, or a new entry for `d` comes last.
pub open spec fn set_day(cal: CalendarView, d: Date, evs: Seq<EventView>) -> CalendarView {
    match day_index(cal, d) {
        Some(i) => cal.update(i, (d, evs)),
        None => cal.push((d, evs)),
    }
}

/// No date has two entries.
pub open spec fn unique_days(cal: CalendarView) -> bool {
    forall|i: int, j: int| 0 <= i < j < cal.len() ==> cal[i].0 != cal[j].0
}

pub(crate) proof fn lemma_day_index(cal: CalendarView, d: Date)
    ensures
        day_index(cal, d) matches Some(i) ==> 0 <= i < cal.len() && cal[i].0 == d
            && forall|j: int| 0 <= j < i ==> cal[j].0 != d,
        day_index(cal, d) is None ==> forall|j: int| 0 <= j < cal.len() ==> cal[j].0 != d,
    decreases cal.len(),
{
    if cal.len() > 0 {
        lemma_day_index(cal.drop_last(), d);
        assert forall|j: int| 0 <= j < cal.len() - 1 implies cal.drop_last()[j] == cal[j] by {}
    }
}

/// Where `i` is the first entry for `d`, it is the place that `day_index` names.
proof fn lemma_day_index_at(cal: CalendarView, d: Date, i: int)
    requires
        0 <= i < cal.len(),
        cal[i].0 == d,
        forall|j: int| 0 <= j < i ==> cal[j].0 != d,
    ensures
        day_index(cal, d) == Some(i),
{
    lemma_day_index(cal, d);
    if let Some(k) = day_index(cal, d) {
        if k < i {
            assert(cal[k].0 != d);
        } else if k > i {
            assert(cal[i].0 != d);
        }
    }
}

/// The view of a list of days with one day replaced.
proof fn lemma_view_update(days: Seq<CalendarDay>, i: int, d: CalendarDay)
    requires
        0 <= i < days.len(),
    ensures
        days_view(days.update(i, d)) =~= days_view(days).update(i, day_view(d)),
{
}

/// The view of a list of days with one more day at its end.
proof fn lemma_view_push(days: Seq<CalendarDay>, d: CalendarDay)
    ensures
        days_view(days.push(d)) =~= days_view(days).push(day_view(d)),
{
}

impl Calendar {
    /// Every date of the calendar lies in the range of dates.
    pub open spec fn dates_wf(self) -> bool {
        forall|i: int| 0 <= i < self@.len() ==> (#[trigger] self@[i]).0.wf()
    }

    /// The calendar is well formed: its dates lie in the range of dates, and no
    /// date has two entries.
    pub open spec fn wf(self) -> bool {
        self.dates_wf() && unique_days(self@)
    }

    /// An empty calendar.
    pub fn new() -> (r: Calendar)
        ensures
            r@ == CalendarView::empty(),
            r.days@.len() == 0,
    {
        let r = Calendar { days: Vec::new() };
        assert(r@ =~= CalendarView::empty());
        r
    }

    /// The place of the entry for `date`.
    pub fn find(&self, date: Date) -> (r: Option<usize>)
        ensures
            r is None <==> day_index(self@, date) is None,
            r matches Some(i) ==> day_index(self@, date) == Some(i as int),
            r matches Some(i) ==> i < self.days@.len() && self.days@[i as int].date == date,
    {
        proof {
            lemma_day_index(self@, date);
        }
        let mut i: usize = 0;
        while i < self.days.len()
            invariant
                i <= self.days@.len(),
                self@.len() == self.days@.len(),
                forall|j: int| 0 <= j < i ==> self@[j].0 != date,
            decreases self.days@.len() - i,
        {
            if self.days[i].date == date {
                proof {
                    lemma_day_index_at(self@, date, i as int);
                }
                return Some(i);
            }
            i = i + 1;
        }
        proof {
            lemma_day_index(self@, date);
            if let Some(k) = day_index(self@, date) {
                assert(self@[k].0 != date);
            }
        }
        None
    }

    /// The events on `date`, where the calendar has an entry for it.
    pub fn get(&self, date: Date) -> (r: Option<&Vec<Event>>)
        ensures
            match day_index(self@, date) {
                Some(i) => r matches Some(evs) && events_view(evs@) == self@[i].1,
                None => r is None,
            },
    {
        match self.find(date) {
            Some(i) => {
                assert(day_index(self@, date) == Some(i as int));
                assert(self@[i as int] == day_view(self.days@[i as int]));
                assert(self@[i as int].1 == events_view(self.days@[i as int].events@));
                Some(&self.days[i].events)
            },
            None => None,
        }
    }

    /// Sets the events on `date`, replacing any that the calendar held for it.
    pub fn insert(&mut self, date: Date, events: Vec<Event>)
        ensures
            final(self)@ == set_day(old(self)@, date, events_view(events@)),
    {
        match self.find(date) {
            Some(i) => {
                let _ = self.days.remove(i);
                let ghost ev = events_view(events@);
                let day = CalendarDay { date, events };
                let ghost gday = day;
                self.days.insert(i, day);
                assert(self.days@ =~= old(self).days@.update(i as int, gday));
                proof {
                    lemma_view_update(old(self).days@, i as int, gday);
                }
            },
            None => {
                let day = CalendarDay { date, events };
                let ghost gday = day;
                self.days.push(day);
                proof {
                    lemma_view_push(old(self).days@, gday);
                }
            },
        }
    }

    /// Takes the events on `date` out of the calendar, leaving none for it there;
    /// where the calendar had no entry for `date`, it gets an empty one, last.
    pub fn take_day(&mut self, date: Date) -> (r: (usize, Vec<Event>))
        ensures
            events_view(r.1@) == day_events(old(self)@, date),
            r.0 < final(self).days@.len(),
            final(self)@ == set_day(old(self)@, date, Seq::empty()),
            day_index(final(self)@, date) == Some(r.0 as int),
    {
        match self.find(date) {
            Some(i) => {
                let day = self.days.remove(i);
                let empty: Vec<Event> = Vec::new();
                proof {
                    assert(events_view(empty@) =~= Seq::<EventView>::empty());
                }
                let nd = CalendarDay { date, events: empty };
                let ghost gday = nd;
                self.days.insert(i, nd);
                proof {
                    assert(self.days@ =~= old(self).days@.update(i as int, gday));
                    lemma_view_update(old(self).days@, i as int, gday);
                    lemma_day_index(old(self)@, date);
                    lemma_day_index_at(self@, date, i as int);
                }
                (i, day.events)
            },
            None => {
                let empty: Vec<Event> = Vec::new();
                proof {
                    assert(events_view(empty@) =~= Seq::<EventView>::empty());
                }
                let nd = CalendarDay { date, events: empty };
                let ghost gday = nd;
                self.days.push(nd);
                proof {
                    lemma_view_push(old(self).days@, gday);
                    lemma_day_index(old(self)@, date);
                    lemma_day_index_at(self@, date, self@.len() - 1);
                }
                (self.days.len() - 1, Vec::new())
            },
        }
    }

    /// Puts the events of the entry at place `i` back.
    pub fn put_day(&mut self, i: usize, events: Vec<Event>)
        requires
            i < old(self).days@.len(),
        ensures
            final(self)@ == old(self)@.update(i as int, (old(self)@[i as int].0, events_view(events@))),
    {
        let day = self.days.remove(i);
        let nd = CalendarDay { date: day.date, events };
        let ghost gday = nd;
        self.days.insert(i, nd);
        assert(self.days@ =~= old(self).days@.update(i as int, gday));
        proof {
            lemma_view_update(old(self).days@, i as int, gday);
        }
    }
}

/// The JSON text that an event's description carries after the
/// `LITERAL SCHEDULE ` header; `None` where the description does not start so.
pub open spec fn literal_text(e: IcalEventView) -> Option<Seq<char>> {
    match e.description {
        Some(d) => if starts_with(d, "LITERAL SCHEDULE "@) {
            Some(d.skip(17))
        } else {
            None
        },
        None => None,
    }
}

/// The event carries a literal schedule that reads as a schedule type.
pub open spec fn literal_ok(e: IcalEventView) -> bool {
    literal_text(e) matches Some(j) && literal_schedule(j) is Some
}

/// The names of the schedule types whose regular expression matches `summary`, in order.
pub open spec fn matching_names(types: Seq<(String, ScheduleType)>, summary: Seq<char>) -> Seq<Seq<char>>
    decreases types.len(),
{
    if types.len() == 0 {
        Seq::empty()
    } else {
        let rest = matching_names(types.drop_last(), summary);
        match types.last().1.regex {
            Some(p) => if regex_matches(p@, summary) { rest.push(types.last().0@) } else { rest },
            None => rest,
        }
    }
}

/// The day has an override event.
pub open spec fn has_override(day: Seq<EventView>) -> bool {
    exists|i: int| 0 <= i < day.len() && day[i] is ScheduleOverride
}

/// Every override event of the day now names `name`.
pub open spec fn rename_overrides(day: Seq<EventView>, name: Seq<char>) -> Seq<EventView> {
    day.map_values(|e: EventView| match e {
        EventView::ScheduleOverride(_) => EventView::ScheduleOverride(name),
        x => x,
    })
}

/// A day's events once the schedule types named `names` have matched, in order:
/// each renames every override of the day to itself, or adds one where there is none.
pub open spec fn override_state(day: Seq<EventView>, names: Seq<Seq<char>>) -> Seq<EventView> {
    if names.len() == 0 {
        day
    } else if has_override(day) {
        rename_overrides(day, names.last())
    } else {
        day.push(EventView::ScheduleOverride(names.last()))
    }
}

/// A day's events once an event with this summary falls on it: where schedule
/// types match the summary, the last of them becomes the day's override;
/// otherwise the summary is added as a special event, unless the day has it.
pub open spec fn day_step(day: Seq<EventView>, types: Seq<(String, ScheduleType)>, summary: Seq<char>) -> Seq<EventView> {
    let m = matching_names(types, summary);
    if m.len() > 0 {
        override_state(day, m)
    } else if day.contains(EventView::SpecialEvent(summary)) {
        day
    } else {
        day.push(EventView::SpecialEvent(summary))
    }
}

/// The first day of an event and the day after its last: an event with no end
/// lasts one day, and so does one that ends on the day it starts.
pub open spec fn event_span(e: IcalEventView) -> (int, int) {
    let s = e.start->0.days as int;
    let end = match e.end {
        Some(d) => d.days as int,
        None => s + 1,
    };
    (s, if end == s { end + 1 } else { end })
}

/// Every day from `d` up to `t` takes the event with this summary.
pub open spec fn apply_days(cal: CalendarView, types: Seq<(String, ScheduleType)>, summary: Seq<char>, d: int, t: int) -> CalendarView
    decreases t - d,
{
    if d >= t {
        cal
    } else {
        let date = Date { days: d as i32 };
        apply_days(set_day(cal, date, day_step(day_events(cal, date), types, summary)), types, summary, d + 1, t)
    }
}

/// The calendar once an event is written to it: a literal schedule goes to the
/// event's first day only; any other event goes to each of its days.
pub open spec fn apply_event(cal: CalendarView, types: Seq<(String, ScheduleType)>, e: IcalEventView) -> CalendarView {
    let (s, t) = event_span(e);
    if literal_ok(e) {
        if s < t {
            let date = Date { days: s as i32 };
            set_day(cal, date, day_events(cal, date).push(EventView::ScheduleLiteral(literal_text(e)->0)))
        } else {
            cal
        }
    } else {
        apply_days(cal, types, e.summary->0, s, t)
    }
}

/// The calendar once the events are written to it, in order.
pub open spec fn apply_all(cal: CalendarView, types: Seq<(String, ScheduleType)>, events: Seq<IcalEventView>) -> CalendarView
    decreases events.len(),
{
    if events.len() == 0 {
        cal
    } else {
        apply_event(apply_all(cal, types, events.drop_last()), types, events.last())
    }
}

/// The event can be written to a calendar: it has a start in the calendar; where
/// it needs a day added to its start, that day is in the calendar too; and where
/// it has no summary and spans a day, it carries a literal schedule.
pub open spec fn event_ok(e: IcalEventView) -> bool {
    &&& e.start matches Some(s) && s.wf()
    &&& e.end matches Some(d) ==> d.wf()
    &&& (e.end is None || e.end == e.start) ==> e.start->0.days < MAX_DAYS
    &&& (e.summary is None && event_span(e).0 < event_span(e).1) ==> literal_ok(e)
}

proof fn lemma_rename_twice(day: Seq<EventView>, a: Seq<char>, b: Seq<char>)
    ensures
        rename_overrides(rename_overrides(day, a), b) =~= rename_overrides(day, b),
        has_override(rename_overrides(day, a)) == has_override(day),
{
    let r = rename_overrides(day, a);
    if has_override(day) {
        let i = choose|i: int| 0 <= i < day.len() && day[i] is ScheduleOverride;
        assert(r[i] is ScheduleOverride);
    }
    if has_override(r) {
        let i = choose|i: int| 0 <= i < r.len() && r[i] is ScheduleOverride;
        assert(day[i] is ScheduleOverride);
    }
}

proof fn lemma_rename_pushed(day: Seq<EventView>, a: Seq<char>, b: Seq<char>)
    requires
        !has_override(day),
    ensures
        rename_overrides(day.push(EventView::ScheduleOverride(a)), b) =~= day.push(EventView::ScheduleOverride(b)),
{
    assert forall|i: int| 0 <= i < day.len() implies !(day[i] is ScheduleOverride) by {}
}

proof fn lemma_rename_none(day: Seq<EventView>, a: Seq<char>)
    requires
        !has_override(day),
    ensures
        rename_overrides(day, a) =~= day,
{
    assert forall|i: int| 0 <= i < day.len() implies !(day[i] is ScheduleOverride) by {}
}

/// Renames every override of a day's events to `name`; tells whether there was one.
fn rename_override_events(evs: &mut Vec<Event>, name: &String) -> (found: bool)
    ensures
        events_view(final(evs)@) == rename_overrides(events_view(old(evs)@), name@),
        found == has_override(events_view(old(evs)@)),
{
    let ghost day = events_view(old(evs)@);
    let mut found = false;
    let mut j: usize = 0;
    while j < evs.len()
        invariant
            day == events_view(old(evs)@),
            evs@.len() == day.len(),
            j <= evs@.len(),
            forall|k: int| 0 <= k < j ==> evs@[k]@ == rename_overrides(day, name@)[k],
            forall|k: int| j <= k < evs@.len() ==> evs@[k]@ == day[k],
            found == exists|k: int| 0 <= k < j && day[k] is ScheduleOverride,
        decreases evs@.len() - j,
    {
        let is_override = match &evs[j] {
            Event::ScheduleOverride(_) => true,
            _ => false,
        };
        if is_override {
            evs.set(j, Event::ScheduleOverride(name.clone()));
            found = true;
        }
        j = j + 1;
        proof {
            if found {
                if !exists|k: int| 0 <= k < j - 1 && day[k] is ScheduleOverride {
                    assert(day[j - 1] is ScheduleOverride);
                }
            }
        }
    }
    assert(events_view(evs@) =~= rename_overrides(day, name@));
    found
}

/// Whether a day's events hold one equal to `e`.
fn contains_event(evs: &Vec<Event>, e: &Event) -> (r: bool)
    ensures
        r == events_view(evs@).contains(e@),
{
    let mut i: usize = 0;
    while i < evs.len()
        invariant
            i <= evs@.len(),
            forall|k: int| 0 <= k < i ==> events_view(evs@)[k] != e@,
        decreases evs@.len() - i,
    {
        if evs[i] == *e {
            assert(events_view(evs@)[i as int] == e@);
            return true;
        }
        i = i + 1;
    }
    false
}

/// Writes an event with this summary to a day's events.
fn day_step_events(evs: &mut Vec<Event>, types: &ScheduleTypes, summary: &String)
    ensures
        events_view(final(evs)@) == day_step(events_view(old(evs)@), types.entries@, summary@),
{
    let ghost day = events_view(old(evs)@);
    let ghost ts = types.entries@;
    let mut is_schedule_event = false;
    let mut i: usize = 0;
    assert(ts.take(0) =~= Seq::<(String, ScheduleType)>::empty());
    while i < types.entries.len()
        invariant
            day == events_view(old(evs)@),
            ts == types.entries@,
            i <= ts.len(),
            events_view(evs@) == override_state(day, matching_names(ts.take(i as int), summary@)),
            is_schedule_event == (matching_names(ts.take(i as int), summary@).len() > 0),
        decreases ts.len() - i,
    {
        let ghost names = matching_names(ts.take(i as int), summary@);
        assert(ts.take(i + 1).drop_last() =~= ts.take(i as int));
        assert(ts.take(i + 1).last() == ts[i as int]);
        let name = &types.entries[i].0;
        match &types.entries[i].1.regex {
            Some(p) => {
                if regex_is_match(p.as_str(), summary.as_str()) {
                    let found = rename_override_events(evs, name);
                    proof {
                        let cur = override_state(day, names);
                        assert(names.push(name@).last() == name@);
                        if names.len() == 0 {
                            if !has_override(day) {
                                lemma_rename_none(day, name@);
                            }
                        } else if has_override(day) {
                            lemma_rename_twice(day, names.last(), name@);
                        } else {
                            lemma_rename_pushed(day, names.last(), name@);
                            assert(day.push(EventView::ScheduleOverride(names.last()))[day.len() as int] is ScheduleOverride);
                        }
                    }
                    if !found {
                        evs.push(Event::ScheduleOverride(name.clone()));
                    }
                    is_schedule_event = true;
                    proof {
                        assert(events_view(evs@) =~= override_state(day, names.push(name@)));
                    }
                }
            },
            None => {},
        }
        i = i + 1;
    }
    assert(ts.take(ts.len() as int) =~= ts);
    if !is_schedule_event {
        let new_event = Event::SpecialEvent(summary.clone());
        if !contains_event(evs, &new_event) {
            let ghost before = evs@;
            evs.push(new_event);
            assert(events_view(evs@) =~= events_view(before).push(EventView::SpecialEvent(summary@)));
        }
    }
}

/// The JSON text that an event's description carries after the
/// `LITERAL SCHEDULE ` header, where it reads as a schedule type.
fn literal_json(e: &IcalEvent) -> (r: Option<String>)
    ensures
        r is Some <==> literal_ok(e@),
        r matches Some(j) ==> literal_text(e@) == Some(j@),
{
    match &e.description {
        Some(d) => {
            let cs = chars_of(d.as_str());
            let header = chars_of("LITERAL SCHEDULE ");
            proof {
                reveal_strlit("LITERAL SCHEDULE ");
            }
            if !crate::ical::event::chars_start_with(&cs, "LITERAL SCHEDULE ") {
                return None;
            }
            let rest = crate::ical::format::copy_range(&cs, 17, cs.len());
            assert(rest@ =~= cs@.skip(17));
            let json = string_of(rest.as_slice());
            if parse_literal(json.as_str()).is_some() {
                Some(json)
            } else {
                None
            }
        },
        None => None,
    }
}

/// Taking a day's events out and putting new ones back sets the day.
proof fn lemma_take_put(c0: CalendarView, date: Date, idx: int, v: Seq<EventView>)
    requires
        day_index(set_day(c0, date, Seq::empty()), date) == Some(idx),
    ensures
        0 <= idx < set_day(c0, date, Seq::empty()).len(),
        set_day(c0, date, Seq::empty())[idx].0 == date,
        set_day(c0, date, Seq::empty()).update(idx, (date, v)) == set_day(c0, date, v),
{
    let c1 = set_day(c0, date, Seq::empty());
    lemma_day_index(c1, date);
    lemma_day_index(c0, date);
    match day_index(c0, date) {
        Some(i) => {
            assert forall|j: int| 0 <= j < i implies c1[j].0 != date by {
                assert(c1[j] == c0[j]);
            }
            lemma_day_index_at(c1, date, i);
            assert(c1.update(idx, (date, v)) =~= c0.update(i, (date, v)));
        },
        None => {
            assert forall|j: int| 0 <= j < c0.len() implies c1[j].0 != date by {
                assert(c1[j] == c0[j]);
            }
            lemma_day_index_at(c1, date, c0.len() as int);
            assert(c1.update(idx, (date, v)) =~= c0.push((date, v)));
        },
    }
}

/// Writes one event to the calendar.
fn apply_event_to(cal: &mut Calendar, types: &ScheduleTypes, e: &IcalEvent)
    requires
        event_ok(e@),
    ensures
        final(cal)@ == apply_event(old(cal)@, types.entries@, e@),
{
    let start = match e.start {
        Some(s) => s,
        None => {
            return;
        },
    };
    let mut end = match e.end {
        Some(d) => d,
        None => start.add_days(1).unwrap(),
    };
    if end.days == start.days {
        end = end.add_days(1).unwrap();
    }
    let ghost span = event_span(e@);
    assert(span == (start.days as int, end.days as int));
    let literal = literal_json(e);
    let mut day = start;
    let ghost ts = types.entries@;
    let ghost summary = match e@.summary {
        Some(s) => s,
        None => Seq::<char>::empty(),
    };
    while day.days < end.days
        invariant
            event_ok(e@),
            ts == types.entries@,
            span == event_span(e@),
            span == (start.days as int, end.days as int),
            start.days <= day.days,
            summary == (match e@.summary {
                Some(s) => s,
                None => Seq::<char>::empty(),
            }),
            literal is Some <==> literal_ok(e@),
            literal matches Some(j) ==> literal_text(e@) == Some(j@),
            literal is None ==> apply_event(old(cal)@, ts, e@) == apply_days(cal@, ts, summary, day.days as int, end.days as int),
            literal is Some ==> day.days == start.days && cal@ == old(cal)@,
        decreases end.days - day.days,
    {
        let date = day;
        let ghost c0 = cal@;
        let (idx, mut evs) = cal.take_day(date);
        match &literal {
            Some(json) => {
                evs.push(Event::ScheduleLiteral(json.clone()));
                let ghost v = events_view(evs@);
                proof {
                    assert(v =~= day_events(c0, date).push(EventView::ScheduleLiteral(json@)));
                    lemma_take_put(c0, date, idx as int, v);
                }
                cal.put_day(idx, evs);
                return;
            },
            None => {},
        }
        assert(e@.summary is Some);
        let summary_text = match &e.summary {
            Some(s) => s,
            None => {
                return;
            },
        };
        day_step_events(&mut evs, types, summary_text);
        let ghost v = events_view(evs@);
        proof {
            lemma_take_put(c0, date, idx as int, v);
        }
        cal.put_day(idx, evs);
        day = Date { days: day.days + 1 };
    }
}

/// Setting the events of one date leaves those of every other date as they were.
pub proof fn law_insert_keeps_other_days(cal: CalendarView, d: Date, evs: Seq<EventView>, x: Date)
    requires
        d != x,
    ensures
        day_events(set_day(cal, d, evs), x) == day_events(cal, x),
{
    let c2 = set_day(cal, d, evs);
    lemma_day_index(cal, d);
    lemma_day_index(cal, x);
    lemma_day_index(c2, x);
    match day_index(cal, x) {
        Some(j) => {
            assert(c2[j].0 == x);
            assert forall|k: int| 0 <= k < j implies c2[k].0 != x by {
                assert(cal[k].0 != x);
            }
            lemma_day_index_at(c2, x, j);
        },
        None => {
            if let Some(j) = day_index(c2, x) {
                assert(c2[j].0 == x);
                if j < cal.len() {
                    assert(cal[j].0 != x);
                }
            }
        },
    }
}

/// What the events of a date are set to is what the calendar then holds for it.
pub proof fn law_events_after_insert(cal: CalendarView, d: Date, evs: Seq<EventView>)
    ensures
        day_events(set_day(cal, d, evs), d) == evs,
        day_index(set_day(cal, d, evs), d) is Some,
{
    let c2 = set_day(cal, d, evs);
    lemma_day_index(cal, d);
    match day_index(cal, d) {
        Some(i) => {
            assert forall|k: int| 0 <= k < i implies c2[k].0 != d by {
                assert(cal[k].0 != d);
            }
            lemma_day_index_at(c2, d, i);
        },
        None => {
            assert forall|k: int| 0 <= k < cal.len() implies c2[k].0 != d by {
                assert(cal[k].0 != d);
            }
            lemma_day_index_at(c2, d, cal.len() as int);
        },
    }
}

/// Setting the events of a date keeps the dates of a calendar apart.
proof fn lemma_set_day_unique(cal: CalendarView, d: Date, evs: Seq<EventView>)
    requires
        unique_days(cal),
    ensures
        unique_days(set_day(cal, d, evs)),
{
    lemma_day_index(cal, d);
    let c2 = set_day(cal, d, evs);
    assert forall|i: int, j: int| 0 <= i < j < c2.len() implies c2[i].0 != c2[j].0 by {
        if j < cal.len() {
            assert(c2[i].0 == cal[i].0);
            assert(c2[j].0 == cal[j].0);
        } else {
            assert(c2[i].0 == cal[i].0);
            assert(cal[i].0 != d);
        }
    }
}

/// Days of the run from `d` up to `t` that lie outside it keep their events.
proof fn lemma_apply_days_outside(cal: CalendarView, types: Seq<(String, ScheduleType)>, summary: Seq<char>, d: int, t: int, x: Date)
    requires
        i32::MIN <= d,
        t <= i32::MAX + 1,
        x.days < d || x.days >= t,
    ensures
        day_events(apply_days(cal, types, summary, d, t), x) == day_events(cal, x),
    decreases t - d,
{
    if d < t {
        let date = Date { days: d as i32 };
        let c1 = set_day(cal, date, day_step(day_events(cal, date), types, summary));
        law_insert_keeps_other_days(cal, date, day_step(day_events(cal, date), types, summary), x);
        lemma_apply_days_outside(c1, types, summary, d + 1, t, x);
    }
}

/// Each day of the run from `d` up to `t` takes one step for the event.
proof fn lemma_apply_days_inside(cal: CalendarView, types: Seq<(String, ScheduleType)>, summary: Seq<char>, d: int, t: int, x: Date)
    requires
        i32::MIN <= d <= x.days < t <= i32::MAX + 1,
    ensures
        day_events(apply_days(cal, types, summary, d, t), x) == day_step(day_events(cal, x), types, summary),
    decreases t - d,
{
    let date = Date { days: d as i32 };
    let c1 = set_day(cal, date, day_step(day_events(cal, date), types, summary));
    if x.days == d {
        assert(date == x);
        law_events_after_insert(cal, date, day_step(day_events(cal, date), types, summary));
        lemma_apply_days_outside(c1, types, summary, d + 1, t, x);
    } else {
        law_insert_keeps_other_days(cal, date, day_step(day_events(cal, date), types, summary), x);
        lemma_apply_days_inside(c1, types, summary, d + 1, t, x);
    }
}

/// The run of days keeps the dates of a calendar apart.
proof fn lemma_apply_days_unique(cal: CalendarView, types: Seq<(String, ScheduleType)>, summary: Seq<char>, d: int, t: int)
    requires
        unique_days(cal),
    ensures
        unique_days(apply_days(cal, types, summary, d, t)),
    decreases t - d,
{
    if d < t {
        let date = Date { days: d as i32 };
        let c1 = set_day(cal, date, day_step(day_events(cal, date), types, summary));
        lemma_set_day_unique(cal, date, day_step(day_events(cal, date), types, summary));
        lemma_apply_days_unique(c1, types, summary, d + 1, t);
    }
}

/// The span of an event lies within the range of day numbers.
proof fn lemma_event_span_range(e: IcalEventView)
    requires
        e.start is Some,
    ensures
        i32::MIN <= event_span(e).0,
        event_span(e).1 <= i32::MAX + 1,
{
}

/// What a day holds once the event is written, for a day that it spans:
/// one step for the event, or the literal schedule added on its first day.
pub proof fn lemma_apply_event_day(cal: CalendarView, types: Seq<(String, ScheduleType)>, e: IcalEventView, x: Date)
    requires
        e.start is Some,
        event_span(e).0 <= x.days < event_span(e).1,
    ensures
        !literal_ok(e) ==> day_events(apply_event(cal, types, e), x) == day_step(day_events(cal, x), types, e.summary->0),
        literal_ok(e) && x.days == event_span(e).0 ==> day_events(apply_event(cal, types, e), x)
            == day_events(cal, x).push(EventView::ScheduleLiteral(literal_text(e)->0)),
{
    lemma_event_span_range(e);
    let (s, t) = event_span(e);
    if literal_ok(e) {
        if x.days == s {
            let date = Date { days: s as i32 };
            assert(date == x);
            law_events_after_insert(cal, date, day_events(cal, date).push(EventView::ScheduleLiteral(literal_text(e)->0)));
        }
    } else {
        lemma_apply_days_inside(cal, types, e.summary->0, s, t, x);
    }
}

/// Writing an event to a calendar changes no day outside the days it spans.
pub proof fn law_event_touches_only_its_days(cal: CalendarView, types: Seq<(String, ScheduleType)>, e: IcalEventView, x: Date)
    requires
        e.start is Some,
        x.days < event_span(e).0 || x.days >= event_span(e).1,
    ensures
        day_events(apply_event(cal, types, e), x) == day_events(cal, x),
{
    lemma_event_span_range(e);
    let (s, t) = event_span(e);
    if literal_ok(e) {
        if s < t {
            let date = Date { days: s as i32 };
            law_insert_keeps_other_days(cal, date, day_events(cal, date).push(EventView::ScheduleLiteral(literal_text(e)->0)), x);
        }
    } else {
        lemma_apply_days_outside(cal, types, e.summary->0, s, t, x);
    }
}

/// Writing events to a calendar keeps one entry per date: no date gets two.
pub proof fn law_calendar_dates_stay_apart(cal: CalendarView, types: Seq<(String, ScheduleType)>, events: Seq<IcalEventView>)
    requires
        unique_days(cal),
    ensures
        unique_days(apply_all(cal, types, events)),
    decreases events.len(),
{
    if events.len() > 0 {
        law_calendar_dates_stay_apart(cal, types, events.drop_last());
        let c1 = apply_all(cal, types, events.drop_last());
        let e = events.last();
        let (s, t) = event_span(e);
        if literal_ok(e) {
            if s < t {
                let date = Date { days: s as i32 };
                lemma_set_day_unique(c1, date, day_events(c1, date).push(EventView::ScheduleLiteral(literal_text(e)->0)));
            }
        } else {
            lemma_apply_days_unique(c1, types, e.summary->0, s, t);
        }
    }
}

/// One step for an event on a day a second time changes nothing.
proof fn lemma_day_step_twice(day: Seq<EventView>, types: Seq<(String, ScheduleType)>, summary: Seq<char>)
    ensures
        day_step(day_step(day, types, summary), types, summary) == day_step(day, types, summary),
{
    let m = matching_names(types, summary);
    let once = day_step(day, types, summary);
    if m.len() > 0 {
        if has_override(day) {
            lemma_rename_twice(day, m.last(), m.last());
        } else {
            let pushed = day.push(EventView::ScheduleOverride(m.last()));
            assert(pushed[day.len() as int] is ScheduleOverride);
            lemma_rename_pushed(day, m.last(), m.last());
        }
    } else if !day.contains(EventView::SpecialEvent(summary)) {
        assert(once[day.len() as int] == EventView::SpecialEvent(summary));
        assert(once.contains(EventView::SpecialEvent(summary)));
    }
}

/// Setting the events of a date keeps an entry for every date that had one.
proof fn lemma_set_day_keeps_entries(cal: CalendarView, d: Date, evs: Seq<EventView>, x: Date)
    requires
        day_index(cal, x) is Some,
    ensures
        day_index(set_day(cal, d, evs), x) is Some,
{
    if x == d {
        law_events_after_insert(cal, d, evs);
    } else {
        let c2 = set_day(cal, d, evs);
        lemma_day_index(cal, x);
        lemma_day_index(cal, d);
        let j = day_index(cal, x)->0;
        lemma_day_index(c2, x);
        if day_index(c2, x) is None {
            assert(c2[j].0 == x);
        }
    }
}

/// After the run of days from `d` up to `t`, every one of them has an entry.
proof fn lemma_apply_days_entries(cal: CalendarView, types: Seq<(String, ScheduleType)>, summary: Seq<char>, d: int, t: int, x: Date)
    requires
        i32::MIN <= d,
        t <= i32::MAX + 1,
        (d <= x.days < t) || day_index(cal, x) is Some,
    ensures
        day_index(apply_days(cal, types, summary, d, t), x) is Some,
    decreases t - d,
{
    if d < t {
        let date = Date { days: d as i32 };
        let evs = day_step(day_events(cal, date), types, summary);
        let c1 = set_day(cal, date, evs);
        if x.days == d {
            assert(date == x);
            law_events_after_insert(cal, date, evs);
        } else if day_index(cal, x) is Some {
            lemma_set_day_keeps_entries(cal, date, evs, x);
        }
        lemma_apply_days_entries(c1, types, summary, d + 1, t, x);
    }
}

/// Where every day of the run has an entry and one more step for the event
/// would change none of them, the run changes nothing.
proof fn lemma_apply_days_fixed(cal: CalendarView, types: Seq<(String, ScheduleType)>, summary: Seq<char>, d: int, t: int)
    requires
        i32::MIN <= d,
        t <= i32::MAX + 1,
        forall|n: int| d <= n < t ==> #[trigger] day_index(cal, Date { days: n as i32 }) is Some,
        forall|n: int| d <= n < t ==> day_step(#[trigger] day_events(cal, Date { days: n as i32 }), types, summary)
            == day_events(cal, Date { days: n as i32 }),
    ensures
        apply_days(cal, types, summary, d, t) == cal,
    decreases t - d,
{
    if d < t {
        let date = Date { days: d as i32 };
        assert(day_index(cal, date) is Some);
        assert(day_step(day_events(cal, date), types, summary) == day_events(cal, date));
        let i = day_index(cal, date)->0;
        lemma_day_index(cal, date);
        assert(set_day(cal, date, day_events(cal, date)) =~= cal);
        lemma_apply_days_fixed(cal, types, summary, d + 1, t);
    }
}

/// Writing an event to a calendar a second time, as a refresh that fetches the
/// same calendar again does, changes nothing, where the event carries no literal
/// schedule: overrides are renamed to what they already are and a special event
/// that a day has is not added again.
pub proof fn law_rewriting_an_event_changes_nothing(cal: CalendarView, types: Seq<(String, ScheduleType)>, e: IcalEventView)
    requires
        e.start is Some,
        !literal_ok(e),
    ensures
        apply_event(apply_event(cal, types, e), types, e) == apply_event(cal, types, e),
{
    lemma_event_span_range(e);
    let (s, t) = event_span(e);
    let summary = e.summary->0;
    let c1 = apply_days(cal, types, summary, s, t);
    assert forall|n: int| s <= n < t implies #[trigger] day_index(c1, Date { days: n as i32 }) is Some by {
        lemma_apply_days_entries(cal, types, summary, s, t, Date { days: n as i32 });
    }
    assert forall|n: int| s <= n < t implies day_step(#[trigger] day_events(c1, Date { days: n as i32 }), types, summary)
        == day_events(c1, Date { days: n as i32 }) by {
        let x = Date { days: n as i32 };
        lemma_apply_days_inside(cal, types, summary, s, t, x);
        lemma_day_step_twice(day_events(cal, x), types, summary);
    }
    lemma_apply_days_fixed(c1, types, summary, s, t);
}

/// The events can be written to a calendar.
pub open spec fn events_ok(events: Seq<IcalEventView>) -> bool {
    forall|i: int| 0 <= i < events.len() ==> event_ok(#[trigger] events[i])
}

/// Write a list of iCal events to our runtime schedule: each event, in order,
/// goes to every day it spans. A literal schedule in its description goes to its
/// first day; otherwise the last schedule type whose regular expression matches
/// its summary becomes each day's override, or the summary becomes a special
/// event of the day.
pub fn ical_to_ours(schedule: &mut crate::schedule::schedule_inner::Schedule, data: &Vec<IcalEvent>)
    requires
        events_ok(ical_events_view(data@)),
    ensures
        final(schedule).calendar@ == apply_all(old(schedule).calendar@, old(schedule).definition.schedule_types.entries@, ical_events_view(data@)),
        final(schedule).definition.schedule_types.entries@ == old(schedule).definition.schedule_types.entries@,
        final(schedule).definition.typical_schedule@ == old(schedule).definition.typical_schedule@,
        final(schedule).definition.calendar_urls@ == old(schedule).definition.calendar_urls@,
        final(schedule).last_updated == old(schedule).last_updated,
{
    let ghost es = ical_events_view(data@);
    let ghost ts = schedule.definition.schedule_types.entries@;
    let mut k: usize = 0;
    assert(es.take(0) =~= Seq::<IcalEventView>::empty());
    while k < data.len()
        invariant
            es == ical_events_view(data@),
            events_ok(es),
            k <= data@.len(),
            ts == old(schedule).definition.schedule_types.entries@,
            schedule.definition.schedule_types.entries@ == ts,
            schedule.definition.typical_schedule@ == old(schedule).definition.typical_schedule@,
            schedule.definition.calendar_urls@ == old(schedule).definition.calendar_urls@,
            schedule.last_updated == old(schedule).last_updated,
            schedule.calendar@ == apply_all(old(schedule).calendar@, ts, es.take(k as int)),
        decreases data@.len() - k,
    {
        assert(es.take(k + 1).drop_last() =~= es.take(k as int));
        assert(es.take(k + 1).last() == data@[k as int]@);
        assert(event_ok(es[k as int]));
        apply_event_to(&mut schedule.calendar, &schedule.definition.schedule_types, &data[k]);
        k = k + 1;
    }
    assert(es.take(es.len() as int) =~= es);
}

/// Whether an event can be written to a calendar.
pub fn event_is_ok(e: &IcalEvent) -> (r: bool)
    ensures
        r == event_ok(e@),
{
    let start = match e.start {
        Some(s) => s,
        None => {
            return false;
        },
    };
    if !(crate::datetime::MIN_DAYS <= start.days && start.days <= MAX_DAYS) {
        return false;
    }
    match e.end {
        Some(d) => {
            if !(crate::datetime::MIN_DAYS <= d.days && d.days <= MAX_DAYS) {
                return false;
            }
        },
        None => {},
    }
    let needs_next = match e.end {
        Some(d) => d.days == start.days,
        None => true,
    };
    if needs_next && start.days >= MAX_DAYS {
        return false;
    }
    let last = match e.end {
        Some(d) => if d.days == start.days { d.days as i64 + 1 } else { d.days as i64 },
        None => start.days as i64 + 1,
    };
    if e.summary.is_none() && (start.days as i64) < last {
        return literal_json(e).is_some();
    }
    true
}

/// Writes a list of iCal events to the schedule, as `ical_to_ours`, where every
/// one of them can be written; returns whether they were, leaving the schedule
/// as it was where not.
pub fn try_ical_to_ours(schedule: &mut crate::schedule::schedule_inner::Schedule, data: &Vec<IcalEvent>) -> (r: bool)
    ensures
        r == events_ok(ical_events_view(data@)),
        r ==> final(schedule).calendar@ == apply_all(old(schedule).calendar@, old(schedule).definition.schedule_types.entries@, ical_events_view(data@)),
        !r ==> final(schedule).calendar@ == old(schedule).calendar@,
        final(schedule).definition.schedule_types.entries@ == old(schedule).definition.schedule_types.entries@,
        final(schedule).definition.typical_schedule@ == old(schedule).definition.typical_schedule@,
        final(schedule).definition.calendar_urls@ == old(schedule).definition.calendar_urls@,
        final(schedule).last_updated == old(schedule).last_updated,
{
    let ghost es = ical_events_view(data@);
    let mut k: usize = 0;
    while k < data.len()
        invariant
            es == ical_events_view(data@),
            k <= data@.len(),
            forall|j: int| 0 <= j < k ==> event_ok(#[trigger] es[j]),
        decreases data@.len() - k,
    {
        assert(es[k as int] == data@[k as int]@);
        if !event_is_ok(&data[k]) {
            return false;
        }
        k = k + 1;
    }
    ical_to_ours(schedule, data);
    true
}

/// A day's events name each special event once and hold at most one override.
pub open spec fn day_tidy(day: Seq<EventView>) -> bool {
    &&& forall|i: int, j: int| 0 <= i < j < day.len() && (#[trigger] day[i]) is SpecialEvent ==> day[i] != #[trigger] day[j]
    &&& forall|i: int, j: int|
        0 <= i < j < day.len() && (#[trigger] day[i]) is ScheduleOverride ==> !((#[trigger] day[j]) is ScheduleOverride)
}

/// Every day of the calendar is tidy.
pub open spec fn calendar_tidy(cal: CalendarView) -> bool {
    forall|i: int| 0 <= i < cal.len() ==> day_tidy(#[trigger] cal[i].1)
}

/// Adding an event that is neither special nor an override keeps a day tidy,
/// and so does adding a special event it does not hold yet or an override to a
/// day without one.
proof fn lemma_tidy_push(day: Seq<EventView>, e: EventView)
    requires
        day_tidy(day),
        e is SpecialEvent ==> !day.contains(e),
        e is ScheduleOverride ==> !has_override(day),
    ensures
        day_tidy(day.push(e)),
{
    let d2 = day.push(e);
    assert forall|i: int, j: int| 0 <= i < j < d2.len() && (#[trigger] d2[i]) is SpecialEvent implies d2[i] != #[trigger] d2[j] by {
        if j == day.len() {
            assert(d2[i] == day[i]);
            if d2[i] == d2[j] {
                assert(day.contains(e));
            }
        } else {
            assert(d2[i] == day[i] && d2[j] == day[j]);
        }
    }
    assert forall|i: int, j: int| 0 <= i < j < d2.len() && (#[trigger] d2[i]) is ScheduleOverride implies !((#[trigger] d2[j]) is ScheduleOverride) by {
        assert(d2[i] == day[i]);
        if j < day.len() {
            assert(d2[j] == day[j]);
        }
    }
}

/// Renaming the overrides of a tidy day keeps it tidy.
proof fn lemma_tidy_rename(day: Seq<EventView>, name: Seq<char>)
    requires
        day_tidy(day),
    ensures
        day_tidy(rename_overrides(day, name)),
{
    let r = rename_overrides(day, name);
    assert forall|i: int, j: int| 0 <= i < j < r.len() && (#[trigger] r[i]) is SpecialEvent implies r[i] != #[trigger] r[j] by {
        assert(r[i] == day[i]);
        if day[j] is ScheduleOverride {
            assert(r[j] is ScheduleOverride);
        } else {
            assert(r[j] == day[j]);
        }
    }
    assert forall|i: int, j: int| 0 <= i < j < r.len() && (#[trigger] r[i]) is ScheduleOverride implies !((#[trigger] r[j]) is ScheduleOverride) by {
        assert(day[i] is ScheduleOverride);
        if !(day[j] is ScheduleOverride) {
            assert(r[j] == day[j]);
        }
    }
}

/// One step for an event keeps a day tidy.
proof fn lemma_day_step_tidy(day: Seq<EventView>, types: Seq<(String, ScheduleType)>, summary: Seq<char>)
    requires
        day_tidy(day),
    ensures
        day_tidy(day_step(day, types, summary)),
{
    let m = matching_names(types, summary);
    if m.len() > 0 {
        if has_override(day) {
            lemma_tidy_rename(day, m.last());
        } else {
            lemma_tidy_push(day, EventView::ScheduleOverride(m.last()));
        }
    } else if !day.contains(EventView::SpecialEvent(summary)) {
        lemma_tidy_push(day, EventView::SpecialEvent(summary));
    }
}

/// The events of any date of a tidy calendar are tidy.
proof fn lemma_day_events_tidy(cal: CalendarView, d: Date)
    requires
        calendar_tidy(cal),
    ensures
        day_tidy(day_events(cal, d)),
{
    lemma_day_index(cal, d);
    if day_index(cal, d) is None {
        assert(day_events(cal, d) =~= Seq::<EventView>::empty());
    }
}

/// Setting the events of a date to a tidy day keeps a calendar tidy.
proof fn lemma_set_day_tidy(cal: CalendarView, d: Date, evs: Seq<EventView>)
    requires
        calendar_tidy(cal),
        day_tidy(evs),
    ensures
        calendar_tidy(set_day(cal, d, evs)),
{
    lemma_day_index(cal, d);
    let c2 = set_day(cal, d, evs);
    assert forall|i: int| 0 <= i < c2.len() implies day_tidy(#[trigger] c2[i].1) by {
        if i < cal.len() && day_index(cal, d) != Some(i) {
            assert(c2[i] == cal[i]);
        }
    }
}

/// The run of days keeps a calendar tidy.
proof fn lemma_apply_days_tidy(cal: CalendarView, types: Seq<(String, ScheduleType)>, summary: Seq<char>, d: int, t: int)
    requires
        calendar_tidy(cal),
    ensures
        calendar_tidy(apply_days(cal, types, summary, d, t)),
    decreases t - d,
{
    if d < t {
        let date = Date { days: d as i32 };
        lemma_day_events_tidy(cal, date);
        lemma_day_step_tidy(day_events(cal, date), types, summary);
        lemma_set_day_tidy(cal, date, day_step(day_events(cal, date), types, summary));
        lemma_apply_days_tidy(set_day(cal, date, day_step(day_events(cal, date), types, summary)), types, summary, d + 1, t);
    }
}

/// Writing events to a calendar keeps its days tidy: a day names each special
/// event once, and holds at most one override, however many events fall on it.
pub proof fn law_calendar_days_stay_tidy(cal: CalendarView, types: Seq<(String, ScheduleType)>, events: Seq<IcalEventView>)
    requires
        calendar_tidy(cal),
    ensures
        calendar_tidy(apply_all(cal, types, events)),
    decreases events.len(),
{
    if events.len() > 0 {
        law_calendar_days_stay_tidy(cal, types, events.drop_last());
        let c1 = apply_all(cal, types, events.drop_last());
        let e = events.last();
        let (s, t) = event_span(e);
        if literal_ok(e) {
            if s < t {
                let date = Date { days: s as i32 };
                lemma_day_events_tidy(c1, date);
                lemma_tidy_push(day_events(c1, date), EventView::ScheduleLiteral(literal_text(e)->0));
                lemma_set_day_tidy(c1, date, day_events(c1, date).push(EventView::ScheduleLiteral(literal_text(e)->0)));
            }
        } else {
            lemma_apply_days_tidy(c1, types, e.summary->0, s, t);
        }
    }
}

} // verus!

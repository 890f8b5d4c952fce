use ethsbell_rewrite::datetime::{Date, LocalDateTime, Time};
use ethsbell_rewrite::ical::IcalEvent;
use ethsbell_rewrite::impls::MaxElement;
use ethsbell_rewrite::schedule::event::{ical_to_ours, try_ical_to_ours};
use ethsbell_rewrite::schedule::{Event, Period, PeriodType, Schedule, ScheduleType};

fn hms(h: u32, m: u32, s: u32) -> Time {
    Time::from_hms_opt(h, m, s).unwrap()
}

fn ymd(y: i32, m: u32, d: u32) -> Date {
    Date::from_ymd_opt(y, m, d).unwrap()
}

fn named(name: &str, regex: Option<&str>) -> ScheduleType {
    ScheduleType { hide: false, friendly_name: name.to_string(), periods: vec![], regex: regex.map(|v| v.to_string()), color: None }
}

fn school() -> Schedule {
    let mut schedule = Schedule::default();
    schedule.definition.schedule_types.insert("regular".to_string(), named("Regular", None));
    schedule.definition.schedule_types.insert("no".to_string(), named("No School", Some("[Nn]o [Ss]chool")));
    schedule.definition.schedule_types.insert("late".to_string(), named("Late Start", Some("Late|School")));
    schedule.definition.typical_schedule = vec!["regular".to_string(); 7];
    schedule
}

fn event(summary: Option<&str>, description: Option<&str>, start: Date, end: Option<Date>) -> IcalEvent {
    IcalEvent {
        summary: summary.map(|v| v.to_string()),
        description: description.map(|v| v.to_string()),
        start: Some(start),
        end,
    }
}

#[test]
fn matching_event_sets_each_of_its_days() {
    let mut schedule = school();
    // both "no" and "late" match; "late" comes last among the schedule types
    ical_to_ours(&mut schedule, &vec![event(Some("No School"), None, ymd(2021, 7, 26), Some(ymd(2021, 7, 28)))]);
    assert_eq!(schedule.on_date(ymd(2021, 7, 26)).1, Some("late".to_string()));
    assert_eq!(schedule.on_date(ymd(2021, 7, 27)).1, Some("late".to_string()));
    // the day after the span keeps its typical schedule
    assert_eq!(schedule.on_date(ymd(2021, 7, 28)).1, Some("regular".to_string()));
    assert!(schedule.calendar.get(ymd(2021, 7, 28)).is_none());
    assert!(schedule.calendar.get(ymd(2021, 7, 25)).is_none());
}

#[test]
fn event_without_match_is_special() {
    let mut schedule = school();
    ical_to_ours(&mut schedule, &vec![event(Some("Picture day"), None, ymd(2021, 9, 1), None)]);
    assert_eq!(*schedule.calendar.get(ymd(2021, 9, 1)).unwrap(), vec![Event::SpecialEvent("Picture day".to_string())]);
    assert_eq!(schedule.on_date(ymd(2021, 9, 1)).1, Some("regular".to_string()));
}

#[test]
fn calendar_dates_stay_apart() {
    let mut schedule = school();
    let day = ymd(2021, 7, 26);
    ical_to_ours(
        &mut schedule,
        &vec![event(Some("Assembly"), None, day, None), event(Some("Late start"), None, day, Some(day)), event(Some("Assembly"), None, day, None)],
    );
    assert_eq!(schedule.calendar.days.len(), 1);
    assert_eq!(
        *schedule.calendar.get(day).unwrap(),
        vec![Event::SpecialEvent("Assembly".to_string()), Event::ScheduleOverride("late".to_string())]
    );
}

#[test]
fn literal_event_sets_its_first_day() {
    let mut schedule = school();
    let text = "LITERAL SCHEDULE {\"friendly_name\":\"Field Day\",\"periods\":[{\"friendly_name\":\"Games\",\"start\":\"09:00:00\",\"end\":\"12:00:00\",\"kind\":\"Break\"}],\"regex\":null,\"color\":[1,2,3]}";
    assert!(try_ical_to_ours(&mut schedule, &vec![event(None, Some(text), ymd(2021, 6, 1), Some(ymd(2021, 6, 3)))]));
    let (st, name) = schedule.on_date(ymd(2021, 6, 1));
    assert_eq!(name, None);
    assert_eq!(st.friendly_name, "Field Day");
    assert_eq!(st.color, Some([1, 2, 3]));
    assert!(!st.hide);
    assert_eq!(st.periods.len(), 1);
    assert_eq!(st.periods[0].kind, PeriodType::Break);
    assert_eq!(st.periods[0].start, hms(9, 0, 0));
    assert_eq!(schedule.on_date(ymd(2021, 6, 2)).1, Some("regular".to_string()));
}

#[test]
fn calendar_days_stay_tidy() {
    let mut schedule = school();
    let day = ymd(2021, 9, 1);
    ical_to_ours(
        &mut schedule,
        &vec![
            event(Some("Picture day"), None, day, None),
            event(Some("No school"), None, day, None),
            event(Some("Picture day"), None, day, None),
            event(Some("Late"), None, day, None),
            event(Some("No school"), None, day, None),
        ],
    );
    assert_eq!(
        *schedule.calendar.get(day).unwrap(),
        vec![Event::SpecialEvent("Picture day".to_string()), Event::ScheduleOverride("no".to_string())]
    );
}

#[test]
fn events_that_cannot_be_written_leave_the_calendar() {
    let mut schedule = school();
    let bad = IcalEvent { summary: None, description: None, start: None, end: None };
    assert!(!try_ical_to_ours(&mut schedule, &vec![bad]));
    assert_eq!(schedule.calendar.days.len(), 0);
}

#[test]
fn typical_week_repeats() {
    let mut schedule = school();
    schedule.definition.typical_schedule =
        vec!["regular", "no", "regular", "late", "regular", "no", "regular"].iter().map(|v| v.to_string()).collect();
    for k in 0..7 {
        let d = Date { days: ymd(2021, 7, 25).days + k };
        let e = Date { days: d.days + 7 * 13 };
        assert_eq!(schedule.on_date(d), schedule.on_date(e));
    }
    assert_eq!(schedule.on_date(ymd(2021, 7, 28)).1, Some("late".to_string()));
}

#[test]
fn deciding_event_wins() {
    let mut schedule = school();
    schedule.calendar.insert(ymd(2021, 7, 28), vec![Event::SpecialEvent("x".to_string()), Event::ScheduleOverride("no".to_string())]);
    assert_eq!(schedule.on_date(ymd(2021, 7, 28)).1, Some("no".to_string()));
    schedule.definition.typical_schedule = vec!["late".to_string(); 7];
    assert_eq!(schedule.on_date(ymd(2021, 7, 28)).1, Some("no".to_string()));
    assert!(schedule.try_on_date(ymd(2021, 7, 29)).is_some());
    schedule.definition.typical_schedule = vec![];
    assert!(schedule.try_on_date(ymd(2021, 7, 29)).is_none());
    assert!(schedule.try_on_date(ymd(2021, 7, 28)).is_some());
}

#[test]
fn more_important_calendar_decides() {
    let text = "LITERAL SCHEDULE {\"friendly_name\":\"Field Day\",\"periods\":[],\"regex\":null,\"color\":null}";
    let day = ymd(2021, 7, 30);
    let now = LocalDateTime { date: ymd(2021, 7, 27), time: hms(8, 0, 0) };
    let literal = || vec![event(Some("x"), Some(text), day, None)];
    let override_ = || vec![event(Some("No school"), None, day, None)];
    let mut schedule = school();
    assert!(schedule.try_update(&vec![literal(), override_()], now));
    assert_eq!(schedule.on_date(day).1, Some("no".to_string()));
    let mut schedule = school();
    assert!(schedule.try_update(&vec![override_(), literal()], now));
    let (st, name) = schedule.on_date(day);
    assert_eq!(name, None);
    assert_eq!(st.friendly_name, "Field Day");
}

#[test]
fn fresh_after_update() {
    let mut schedule = school();
    let now = LocalDateTime { date: ymd(2021, 7, 27), time: hms(8, 0, 0) };
    assert_eq!(schedule.try_is_update_needed(&now, None), Some(true));
    assert!(schedule.try_update(&vec![vec![event(Some("No school"), None, ymd(2021, 7, 30), None)]], now));
    assert_eq!(schedule.last_updated, now);
    assert_eq!(schedule.on_date(ymd(2021, 7, 30)).1, Some("no".to_string()));
    assert_eq!(schedule.try_is_update_needed(&now, None), Some(false));
    assert_eq!(schedule.try_is_update_needed(&now, Some("60")), Some(false));
    assert_eq!(schedule.try_is_update_needed(&now, Some("+0")), Some(false));
    let later = LocalDateTime { date: ymd(2021, 7, 27), time: hms(8, 1, 1) };
    assert_eq!(schedule.try_is_update_needed(&later, Some("60")), Some(true));
    assert_eq!(schedule.try_is_update_needed(&later, None), Some(false));
    assert_eq!(schedule.try_is_update_needed(&later, Some("sixty")), None);
    assert!(schedule.is_update_needed(&later, Some("60")));
    assert!(!schedule.is_update_needed(&now, None));
    let bad = IcalEvent { summary: None, description: None, start: None, end: None };
    assert!(!schedule.try_update(&vec![vec![bad]], later));
    assert_eq!(schedule.last_updated, now);
    schedule.update(&vec![], later);
    assert_eq!(schedule.last_updated, later);
}

#[test]
fn update_stays_needed() {
    let schedule = Schedule::default();
    let now = LocalDateTime { date: ymd(2021, 7, 27), time: hms(8, 0, 0) };
    let later = LocalDateTime { date: ymd(2022, 1, 1), time: hms(0, 0, 0) };
    assert_eq!(schedule.try_is_update_needed(&now, Some("3600")), Some(true));
    assert_eq!(schedule.try_is_update_needed(&later, Some("3600")), Some(true));
}

fn kind_period(name: &str, start: Time, end: Time, kind: PeriodType) -> Period {
    Period { friendly_name: name.to_string(), start, start_timestamp: 0, end, end_timestamp: 0, kind }
}

#[test]
fn neighbours_share_their_time() {
    let st = ScheduleType {
        hide: false,
        friendly_name: String::new(),
        periods: vec![
            kind_period("Block 1A", hms(8, 0, 0), hms(9, 0, 0), PeriodType::Class("1".to_string())),
            kind_period("Block 1B", hms(8, 30, 0), hms(9, 0, 0), PeriodType::Class("1".to_string())),
            kind_period("Walk", hms(9, 0, 0), hms(9, 5, 0), PeriodType::Passing),
            kind_period("Block 3", hms(11, 0, 0), hms(12, 0, 0), PeriodType::Class("3".to_string())),
            kind_period("Block 3B", hms(11, 0, 0), hms(11, 30, 0), PeriodType::Class("3".to_string())),
        ],
        regex: None,
        color: None,
    };
    let (before, current, after) = st.all_nearby_periods(hms(10, 0, 0));
    assert_eq!(before.iter().map(|p| p.friendly_name.clone()).collect::<Vec<_>>(), vec!["Block 1A", "Block 1B"]);
    assert_eq!(after.iter().map(|p| p.friendly_name.clone()).collect::<Vec<_>>(), vec!["Block 3", "Block 3B"]);
    assert_eq!(current.len(), 1);
    assert_eq!(current[0].friendly_name, "Passing Period");
    assert_eq!(current[0].start, hms(9, 0, 0));
    assert_eq!(current[0].end, hms(11, 0, 0));
    let (b, c, a) = st.nearby_periods(hms(10, 0, 0));
    assert_eq!(b.unwrap().friendly_name, "Block 1A");
    assert_eq!(a.unwrap().friendly_name, "Block 3");
    assert_eq!(c, current);
}

#[test]
fn max_element_gives_the_largest() {
    let v = vec![hms(9, 0, 0), hms(12, 0, 0), hms(10, 0, 0), hms(12, 0, 0), hms(11, 0, 0)];
    assert_eq!(v.max_element(), Some(hms(12, 0, 0)));
    assert_eq!(vec![hms(3, 0, 0), hms(7, 0, 0), hms(5, 0, 0)].max_element(), Some(hms(7, 0, 0)));
    assert_eq!(vec![hms(9, 0, 0)].max_element(), Some(hms(9, 0, 0)));
    assert_eq!(Vec::<Time>::new().max_element(), None);
}

#[test]
fn offsets_and_first_class() {
    let p1 = kind_period("Lunch", hms(11, 0, 0), hms(11, 30, 0), PeriodType::Lunch);
    let p2 = kind_period("Block 4", hms(11, 30, 0), hms(12, 30, 0), PeriodType::Class("4".to_string()));
    let p3 = kind_period("Block 5", hms(12, 40, 0), hms(13, 40, 0), PeriodType::Class("5".to_string()));
    let st = ScheduleType {
        hide: false,
        friendly_name: String::new(),
        periods: vec![p1.clone(), p2.clone(), p3.clone()],
        regex: None,
        color: None,
    };
    assert_eq!(st.at_offset(&p2, 1), Some(p3.clone()));
    assert_eq!(st.at_offset(&p2, -1), Some(p1.clone()));
    assert_eq!(st.at_offset(&p2, 2), None);
    assert_eq!(st.at_offset(&kind_period("Other", hms(1, 0, 0), hms(2, 0, 0), PeriodType::Break), 0), None);
    assert_eq!(st.first_class(), Some(p2.clone()));
    let (before, current, after) = st.at_time_v2(hms(12, 35, 0)).unwrap();
    assert_eq!(before.len(), 1);
    assert_eq!(before[0].friendly_name, "Block 4");
    assert_eq!(current[0].friendly_name, "Passing Period");
    assert_eq!(after[0].friendly_name, "Block 5");
}

#[test]
fn populated_ways_agree() {
    let p1 = kind_period("Lunch", hms(11, 0, 0), hms(11, 30, 0), PeriodType::Lunch);
    let p2 = kind_period("Block 4", hms(11, 30, 0), hms(12, 30, 0), PeriodType::Class("4".to_string()));
    let p3 = kind_period("Block 5", hms(12, 40, 0), hms(13, 40, 0), PeriodType::Class("5".to_string()));
    let st = ScheduleType { hide: false, friendly_name: String::new(), periods: vec![p1, p2, p3], regex: None, color: None };
    let now = LocalDateTime { date: ymd(2021, 7, 27), time: hms(12, 0, 0) };
    let strip = |p: &Period| (p.friendly_name.clone(), p.start, p.end, p.kind.clone());
    for t in [hms(7, 0, 0), hms(11, 15, 0), hms(12, 35, 0), hms(20, 0, 0)] {
        let (b, c, a) = st.at_time_on(t, &now).unwrap();
        let (bs, cs, as_) = st.at_time_v2_on(t, &now).unwrap();
        assert_eq!(b.as_ref().map(|p| strip(p)), bs.first().map(|p| strip(p)));
        assert_eq!(a.as_ref().map(|p| strip(p)), as_.first().map(|p| strip(p)));
        assert_eq!(c.iter().map(|p| strip(p)).collect::<Vec<_>>(), cs.iter().map(|p| strip(p)).collect::<Vec<_>>());
        for p in c.iter().chain(cs.iter()) {
            let naive = (now.date.days as i64 - 719_163) * 86_400 + p.start.secs as i64;
            assert!((p.start_timestamp as i64 - naive).abs() < 86_400);
        }
    }
}

#[test]
fn schedule_types_map() {
    let mut types = ethsbell_rewrite::schedule::ScheduleTypes::new();
    assert!(types.insert("a".to_string(), named("A", None)).is_none());
    assert!(types.contains_key("a"));
    assert!(!types.contains_key("b"));
    let old = types.insert("a".to_string(), named("A2", None)).unwrap();
    assert_eq!(old.friendly_name, "A");
    assert_eq!(types.get("a").unwrap().friendly_name, "A2");
    assert_eq!(types.len(), 1);
}

#[test]
fn ical_events_from_text() {
    let text = "BEGIN:VCALENDAR\nBEGIN:VEVENT\nSUMMARY:Late Start\nDTSTART;VALUE=DATE:20210901\nEND:VEVENT\nEND:VCALENDAR\n";
    let events = IcalEvent::from_string(text);
    assert_eq!(events.len(), 1);
    assert_eq!(events[0].summary, Some("Late Start".to_string()));
    assert_eq!(events[0].start, Some(ymd(2021, 9, 1)));
    let mut schedule = school();
    ical_to_ours(&mut schedule, &events);
    assert_eq!(schedule.on_date(ymd(2021, 9, 1)).1, Some("late".to_string()));
}

#[test]
fn rewriting_an_event_changes_nothing() {
    let mut schedule = school();
    let events = vec![
        event(Some("No School"), None, ymd(2021, 7, 26), Some(ymd(2021, 7, 28))),
        event(Some("Assembly"), None, ymd(2021, 7, 27), None),
    ];
    ical_to_ours(&mut schedule, &events);
    let once: Vec<(Date, Vec<Event>)> = schedule.calendar.days.iter().map(|d| (d.date, d.events.clone())).collect();
    ical_to_ours(&mut schedule, &events);
    let twice: Vec<(Date, Vec<Event>)> = schedule.calendar.days.iter().map(|d| (d.date, d.events.clone())).collect();
    assert_eq!(once, twice);
    assert_eq!(
        *schedule.calendar.get(ymd(2021, 7, 27)).unwrap(),
        vec![Event::ScheduleOverride("late".to_string()), Event::SpecialEvent("Assembly".to_string())]
    );
}

#[test]
fn other_names_keep_their_types() {
    let mut types = ethsbell_rewrite::schedule::ScheduleTypes::new();
    types.insert("a".to_string(), named("A", None));
    types.insert("b".to_string(), named("B", None));
    types.insert("a".to_string(), named("A2", None));
    assert_eq!(types.get("b").unwrap().friendly_name, "B");
    assert_eq!(types.get("a").unwrap().friendly_name, "A2");
    assert!(types.get("c").is_none());
}

use chrono::{Datelike, Local, Timelike};
use ethsbell_rewrite::api::legacy::{
    data, date_to_legacy, display, kind_to_debug, time_to_legacy, weekday_to_legacy, LegacyPeriod, LegacySchedule,
};
use ethsbell_rewrite::api::v1::{
    check_auth, check_version, date, date_at, date_code, license, schedule_from_to, today, today_around_now, today_at,
    today_code, today_now, try_date, try_date_code, try_schedule_from_to, widget, ScheduleCode,
};
use ethsbell_rewrite::api::{v2, wants_auth, OurError, State};
use ethsbell_rewrite::datetime::{Date, LocalDateTime, Time};
use ethsbell_rewrite::login::Authenticated;
use ethsbell_rewrite::schedule::{Period, PeriodType, Schedule, ScheduleType};

fn local_now() -> LocalDateTime {
    let now = Local::now().naive_local();
    LocalDateTime {
        date: Date { days: now.date().num_days_from_ce() },
        time: Time { secs: now.time().num_seconds_from_midnight(), frac: now.time().nanosecond() },
    }
}

fn hms(h: u32, m: u32, s: u32) -> Time {
    Time::from_hms_opt(h, m, s).unwrap()
}

fn ymd(y: i32, m: u32, d: u32) -> Date {
    Date::from_ymd_opt(y, m, d).unwrap()
}

fn class(name: &str, n: &str, start: Time, end: Time) -> Period {
    Period {
        friendly_name: name.to_string(),
        start,
        start_timestamp: 0,
        end,
        end_timestamp: 0,
        kind: PeriodType::Class(n.to_string()),
    }
}

fn one_type_schedule(periods: Vec<Period>) -> (Schedule, ScheduleType) {
    let mut schedule = Schedule::default();
    let test_a = ScheduleType { hide: false, friendly_name: "Test A".to_string(), periods, regex: None, color: Some([0, 0, 0]) };
    schedule.definition.schedule_types.insert("test_a".to_string(), test_a.clone());
    schedule.definition.typical_schedule = vec!["test_a".to_string(); 7];
    (schedule, test_a)
}

fn at(date: Date, time: Time) -> LocalDateTime {
    LocalDateTime { date, time }
}

#[test]
fn things() {
    let (schedule, _) = one_type_schedule(vec![class("", "", hms(9, 0, 0), hms(10, 0, 0))]);
    let now = local_now();
    let _display = display(&schedule, &now);
    let response = data(&schedule, &now, Local::now().timestamp());
    assert!(response.is_some());
}

#[test]
fn legacy_formats() {
    assert_eq!(time_to_legacy(hms(9, 5, 0)), "9:5");
    assert_eq!(time_to_legacy(hms(13, 45, 59)), "13:45");
    assert_eq!(date_to_legacy(ymd(2021, 7, 4)), "2021-7-4");
    assert_eq!(date_to_legacy(ymd(-44, 3, 15)), "-44-3-15");
    assert_eq!(weekday_to_legacy(0), "Sunday");
    assert_eq!(weekday_to_legacy(3), "Wednesday");
    assert_eq!(weekday_to_legacy(6), "Saturday");
    assert_eq!(kind_to_debug(&PeriodType::Class("1".to_string())), "Class(\"1\")");
    assert_eq!(kind_to_debug(&PeriodType::ClassOrLunch("a\"b".to_string())), "ClassOrLunch(\"a\\\"b\")");
    assert_eq!(kind_to_debug(&PeriodType::AMSupport), "AMSupport");
    let p = LegacyPeriod::from_period(class("First", "1", hms(8, 0, 0), hms(8, 50, 0)));
    assert_eq!(p.start_time, "8:0");
    assert_eq!(p.end_time, "8:50");
    assert_eq!(p.period_notice, Some("Class(\"1\")".to_string()));
    assert_eq!(p.period_name, "First");
}

#[test]
fn legacy_schedule_during_a_class() {
    let st = ScheduleType {
        hide: false,
        friendly_name: "Test A".to_string(),
        periods: vec![class("P1", "1", hms(9, 0, 0), hms(10, 0, 0))],
        regex: None,
        color: None,
    };
    let now = at(ymd(2021, 7, 27), hms(9, 30, 0));
    let l = LegacySchedule::from_at(st, &now, 1_627_378_200).unwrap();
    assert_eq!(l.schedule.name, "Test A");
    assert_eq!(l.schedule.period_array.len(), 1);
    assert_eq!(l.theSlot, Some("P1".to_string()));
    assert_eq!(l.time, 1_627_378_200);
    assert_eq!(l.theNextSlot, Some("P1".to_string()));
    assert_eq!(l.periodEndTime, Some("10:0".to_string()));
    assert_eq!(l.endOfPreviousPeriod, 0);
    assert_eq!(l.formattedDate, "2021-7-27");
    assert_eq!(l.dayOfWeek, "Tuesday");
    assert_eq!(l.formattedTime, "9:30");
    assert_eq!(l.scheduleCode, None);
    assert!(!l.isListingForDay);
    assert!(l.noSchedule);
    assert!(l.schoolInSession);
    assert_eq!(l.school_id, "1");
    assert_eq!(l.theNextSlot_, "-1");
    assert_eq!(l.timeLeftInPeriod, -570);
    assert_eq!(l.timeSinceLastPeriod, 0);
}

#[test]
fn legacy_schedule_after_school() {
    let st = ScheduleType {
        hide: false,
        friendly_name: "Test A".to_string(),
        periods: vec![
            class("P1", "1", hms(9, 0, 0), hms(10, 0, 0)),
            class("P2", "2", hms(10, 5, 0), hms(11, 0, 0)),
        ],
        regex: None,
        color: None,
    };
    let now = at(ymd(2021, 7, 27), hms(11, 30, 30));
    let l = LegacySchedule::from_at(st, &now, 0).unwrap();
    assert_eq!(l.theSlot, None);
    assert_eq!(l.periodEndTime, None);
    assert_eq!(l.theNextSlot, Some("P1".to_string()));
    assert_eq!(l.theNextSlot_, "-1");
    assert!(l.schoolInSession);
    assert_eq!(l.timeSinceLastPeriod, 30);
    assert!(l.endOfPreviousPeriod > 0);
}

#[test]
fn legacy_schedule_without_periods() {
    let st = ScheduleType { hide: false, friendly_name: "None".to_string(), periods: vec![], regex: None, color: None };
    let l = LegacySchedule::from_at(st, &at(ymd(2021, 7, 25), hms(7, 0, 0)), 5).unwrap();
    assert!(!l.noSchedule);
    assert!(!l.schoolInSession);
    assert_eq!(l.theNextSlot, None);
    assert_eq!(l.theNextSlot_, "-1");
    assert_eq!(l.dayOfWeek, "Sunday");
    assert_eq!(l.timeLeftInPeriod, -420);
}

#[test]
fn legacy_display_context() {
    let (schedule, _) = one_type_schedule(vec![
        class("A", "1", hms(8, 0, 0), hms(14, 0, 0)),
        class("B", "2", hms(10, 0, 0), hms(12, 0, 0)),
    ]);
    let d = display(&schedule, &at(ymd(2021, 7, 27), hms(11, 0, 0)));
    assert_eq!(d.friendly_name, "A, B");
    assert_eq!(d.next_friendly_name, "No Period");
    assert_eq!(d.start, "No Time");
    assert_eq!(d.end, "14:00:00");
    let d = display(&schedule, &at(ymd(2021, 7, 27), hms(7, 0, 0)));
    assert_eq!(d.friendly_name, "Before School");
    assert_eq!(d.next_friendly_name, "A");
    assert_eq!(d.start, "08:00:00");
    assert_eq!(d.end, "08:00:00");
}

#[test]
fn legacy_display_shows_the_time_of_a_single_period() {
    let (schedule, _) = one_type_schedule(vec![class("P1", "1", hms(8, 0, 0), hms(9, 0, 0))]);
    let d = display(&schedule, &at(ymd(2021, 7, 27), hms(8, 30, 0)));
    assert_eq!(d.friendly_name, "P1");
    assert_eq!(d.next_friendly_name, "No Period");
    assert_eq!(d.start, "No Time");
    assert_eq!(d.end, "09:00:00");
}

#[test]
fn legacy_schedule_names_the_next_class() {
    let lunch = Period {
        friendly_name: "Lunch".to_string(),
        start: hms(10, 0, 0),
        start_timestamp: 0,
        end: hms(11, 0, 0),
        end_timestamp: 0,
        kind: PeriodType::Lunch,
    };
    let st = ScheduleType {
        hide: false,
        friendly_name: "Test A".to_string(),
        periods: vec![class("C1", "1", hms(8, 0, 0), hms(9, 0, 0)), lunch, class("C2", "2", hms(12, 0, 0), hms(13, 0, 0))],
        regex: None,
        color: None,
    };
    let l = LegacySchedule::from_at(st.clone(), &at(ymd(2021, 7, 27), hms(9, 30, 0)), 0).unwrap();
    assert_eq!(l.theNextSlot_, "2");
    assert!(l.noSchedule);
    assert!(l.schoolInSession);
    let l = LegacySchedule::from_at(st, &at(ymd(2021, 7, 27), hms(7, 0, 0)), 0).unwrap();
    assert_eq!(l.theNextSlot_, "1");
}

#[test]
fn widget_context() {
    let (schedule, _) = one_type_schedule(vec![
        class("P1", "1", hms(9, 0, 0), hms(10, 0, 0)),
        class("P2", "2", hms(11, 0, 0), hms(12, 0, 0)),
    ]);
    let w = widget(&schedule, &at(ymd(2021, 7, 27), hms(10, 30, 0)));
    assert_eq!(w.prev_name, "P1");
    assert_eq!(w.current_name, "Passing Period");
    assert_eq!(w.current_start, "10:00:00");
    assert_eq!(w.current_end, "11:00:00");
    assert_eq!(w.next_name, "P2");
    assert_eq!(w.next_start, "11:00:00");
    assert_eq!(w.prev_end, "10:00:00");
    let w = widget(&schedule, &at(ymd(2021, 7, 27), hms(9, 30, 0)));
    assert_eq!(w.prev_name, "None");
    assert_eq!(w.prev_end, "");
    assert_eq!(w.current_name, "P1");
}

#[test]
fn today_endpoints() {
    let (schedule, test_a) = one_type_schedule(vec![class("", "", hms(9, 0, 0), hms(10, 0, 0))]);
    let now = at(ymd(2021, 7, 27), hms(9, 26, 0));
    let mut found = today(&schedule, &now).unwrap();
    assert!(found.periods[0].start_timestamp > 0);
    found.periods[0].start_timestamp = 0;
    found.periods[0].end_timestamp = 0;
    assert_eq!(found, test_a);
    assert_eq!(today_code(&schedule, &now), Some("test_a".to_string()));
    let mut current = today_now(&schedule, &now).unwrap();
    assert_eq!(current.len(), 1);
    current[0].start_timestamp = 0;
    current[0].end_timestamp = 0;
    assert_eq!(current, test_a.periods);
    let near = today_around_now(&schedule, &now).unwrap();
    assert_eq!(near.0, None);
    assert_eq!(near.2, None);
    assert_eq!(near.1.len(), 1);
    let v2 = v2::today_around_now(&schedule, &now).unwrap();
    assert_eq!(v2.previous.len(), 0);
    assert_eq!(v2.current.len(), 1);
    assert_eq!(v2.future.len(), 0);
}

#[test]
fn today_at_endpoint() {
    let (schedule, test_a) = one_type_schedule(vec![class("", "", hms(9, 0, 0), hms(10, 0, 0))]);
    let now = local_now();
    let mut found = today_at(&schedule, "09:30:00", &now).unwrap().unwrap().unwrap();
    found[0].start_timestamp = 0;
    found[0].end_timestamp = 0;
    assert_eq!(found, test_a.periods);
    assert!(today_at(&schedule, "10:30:00", &now).unwrap().unwrap().is_some());
    match today_at(&schedule, "half past nine", &now) {
        Some(Err(e)) => assert_eq!(e.status(), 400),
        _ => panic!("a bad time string must be an error"),
    }
}

#[test]
fn on_endpoints() {
    let mut schedule = Schedule::default();
    let test_a = ScheduleType { hide: false, friendly_name: "Test A".to_string(), periods: vec![], regex: None, color: Some([0, 0, 0]) };
    schedule.definition.schedule_types.insert("test_a".to_string(), test_a.clone());
    let no = ScheduleType { hide: false, friendly_name: "No".to_string(), periods: vec![], regex: Some("No".to_string()), color: Some([0, 0, 0]) };
    schedule.definition.schedule_types.insert("no".to_string(), no.clone());
    schedule.definition.typical_schedule =
        vec!["test_a", "no", "test_a", "no", "test_a", "no", "test_a"].iter().map(|v| (*v).to_string()).collect();
    let now = at(ymd(2021, 7, 10), hms(12, 0, 0));
    assert_eq!(date(&schedule, "2021-07-27", &now).unwrap().unwrap(), test_a);
    assert_eq!(date(&schedule, "2021-07-26", &now).unwrap().unwrap(), no);
    assert_eq!(date_code(&schedule, "2021-07-27").unwrap(), Some("test_a".to_string()));
    assert_eq!(date_code(&schedule, "2021-07-26").unwrap(), Some("no".to_string()));
    match date_code(&schedule, "27 July") {
        Err(OurError::BadString(_)) => {},
        _ => panic!("a bad date string must be an error"),
    }
    assert!(try_date_code(&schedule, "2021-07-26").is_some());
    let codes = schedule_from_to(&schedule, "2021-07-26", "2021-07-28").unwrap();
    assert_eq!(codes.len(), 2);
    match (&codes[0], &codes[1]) {
        (ScheduleCode::Name(a), ScheduleCode::Name(b)) => {
            assert_eq!(a, "no");
            assert_eq!(b, "test_a");
        },
        _ => panic!("named schedules give their names"),
    }
    assert!(try_schedule_from_to(&schedule, "2021-07-28", "2021-07-26").is_none());
    assert!(matches!(schedule_from_to(&schedule, "2021-07-26", "tomorrow"), Err(OurError::BadString(_))));
}

#[test]
fn any_date_is_served() {
    let (mut schedule, _) = one_type_schedule(vec![class("P", "1", hms(9, 0, 0), hms(10, 0, 0))]);
    let february = at(ymd(2021, 2, 10), hms(12, 0, 0));
    let st = try_date(&schedule, "2021-03-31", &february).unwrap().unwrap();
    // 2021-03-31 09:00:00 and 10:00:00 read as UTC
    let start = st.periods[0].start_timestamp as i64;
    let end = st.periods[0].end_timestamp as i64;
    assert!((start - 1_617_181_200).abs() < 86_400);
    assert!((end - 1_617_184_800).abs() < 86_400);
    assert_eq!(end - start, 3600);
    assert!(try_date(&schedule, "2021-03-28", &february).is_some());
    schedule.definition.typical_schedule = vec![];
    assert!(try_date(&schedule, "2021-03-28", &february).is_none());
}

#[test]
fn on_at_endpoint() {
    let (schedule, test_a) = one_type_schedule(vec![class("", "", hms(9, 0, 0), hms(10, 0, 0))]);
    let now = at(ymd(2021, 7, 10), hms(12, 0, 0));
    let mut found = date_at(&schedule, "2021-07-27", "09:26:00", &now).unwrap().unwrap().unwrap();
    found[0].start_timestamp = 0;
    found[0].end_timestamp = 0;
    assert_eq!(found, test_a.periods);
}

#[test]
fn check_endpoints() {
    let v = check_version("1.2.3", Some("abc"), None);
    assert_eq!(v.0, ("1.2.3".to_string(), Some("abc".to_string()), None));
    assert_eq!(check_auth(Authenticated), "ok");
    assert_eq!(license("Alice <a@b.c> : Bob:  Carol "), "Alice <a@b.c>, Bob, Carol");
    assert_eq!(wants_auth().message(), "Needs authorization");
    assert_eq!(*State(5u8).inner(), 5);
}

#[test]
fn error_answers() {
    let bad_string = "x".parse::<chrono::NaiveDate>().unwrap_err();
    let e = OurError::BadString(bad_string);
    assert_eq!(e.status(), 400);
    assert_eq!(e.message(), "Error trying to interpret date/time string; try YYYY-MM-DD or HH:MM:SS");
    let e = OurError::IOError(std::io::Error::new(std::io::ErrorKind::Other, "disk"));
    assert_eq!(e.status(), 500);
    assert_eq!(e.message(), "Error trying to access a file");
    let e = OurError::SerdeError(serde_json::from_str::<serde_json::Value>("{").unwrap_err());
    assert_eq!(e.status(), 400);
    assert_eq!(e.message(), "Error trying to transform some data");
}

#[test]
fn basic_authentication() {
    // "user:pass" in base64
    assert!(Authenticated::from_request(Some("Basic dXNlcjpwYXNz"), "user", "pass").is_ok());
    assert!(Authenticated::from_request(Some("Basic dXNlcjpwYXNz"), "user", "word").is_err());
    assert!(Authenticated::from_request(None, "user", "pass").is_err());
    assert!(Authenticated::from_request(Some("Bearer dXNlcjpwYXNz"), "user", "pass").is_err());
    // "user:pass:more": the password stops at the second colon
    assert!(Authenticated::from_request(Some("Basic dXNlcjpwYXNzOm1vcmU="), "user", "pass").is_ok());
    // not base64: the credentials read as ERROR, which has no colon
    assert!(Authenticated::from_request(Some("Basic !!!"), "user", "pass").is_err());
    assert!(Authenticated::from_request(Some("Basic Zm9v"), "foo", "").is_err());
    assert!(Authenticated::from_request(Some("Basic YWRtaW46cHc="), "admin", "pw").is_ok());
}

#[test]
fn on_at_endpoint_for_any_request() {
    let (schedule, _) = one_type_schedule(vec![class("", "", hms(9, 0, 0), hms(10, 0, 0))]);
    let february = at(ymd(2021, 2, 10), hms(12, 0, 0));
    let found = ethsbell_rewrite::api::v1::try_date_at(&schedule, "2021-03-31", "09:26:00", &february).unwrap().unwrap().unwrap();
    assert!((found[0].start_timestamp as i64 - 1_617_181_200).abs() < 86_400);
    assert!(matches!(
        ethsbell_rewrite::api::v1::try_date_at(&schedule, "2021-03-31", "9 o'clock", &february),
        Some(Err(OurError::BadString(_)))
    ));
    assert!(ethsbell_rewrite::api::v1::try_date_at(&schedule, "2021-03-28", "11:00:00", &february).unwrap().unwrap().is_some());
}

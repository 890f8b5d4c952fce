use chrono::{Datelike, Local, Timelike};
use ethsbell_rewrite::datetime::{Date, LocalDateTime, Time};
use ethsbell_rewrite::ical::IcalEvent;
use ethsbell_rewrite::schedule::{Calendar, Event, Period, PeriodType, Schedule, ScheduleDefinition, ScheduleType, ScheduleTypes};

fn local_now() -> LocalDateTime {
    let now = Local::now().naive_local();
    LocalDateTime {
        date: Date { days: now.date().num_days_from_ce() },
        time: Time { secs: now.time().num_seconds_from_midnight(), frac: now.time().nanosecond() },
    }
}

fn hms(h: u32, m: u32, s: u32) -> Time {
    Time::from_hms_opt(h, m, s).unwrap()
}

fn ymd(y: i32, m: u32, d: u32) -> Date {
    Date::from_ymd_opt(y, m, d).unwrap()
}

fn empty_type(name: &str) -> ScheduleType {
    ScheduleType { hide: false, color: None, friendly_name: name.to_string(), periods: vec![], regex: None }
}

fn lunch(name: &str, start: Time, end: Time) -> Period {
    Period { friendly_name: name.to_string(), start, start_timestamp: 0, end, end_timestamp: 0, kind: PeriodType::Lunch }
}

fn week(names: &[&str]) -> Vec<String> {
    names.iter().map(|v| v.to_string()).collect()
}

#[test]
fn on_date_typical() {
    let mut schedule = Schedule::default();
    let type_a = empty_type("Test A");
    let type_b = empty_type("Test A");
    schedule.last_updated = local_now();
    schedule.definition.schedule_types = {
        let mut result = ScheduleTypes::new();
        result.insert("type_a".to_string(), type_a.clone());
        result.insert("type_b".to_string(), type_b.clone());
        result
    };
    schedule.definition.typical_schedule = week(&["type_a", "type_b", "type_a", "type_b", "type_a", "type_a", "type_b"]);
    assert_eq!(schedule.on_date(ymd(2021, 7, 21)), (type_b, Some("type_b".to_string())));

    assert_eq!(schedule.on_date(ymd(2021, 7, 18)), (type_a, Some("type_a".to_string())));
}

#[test]
fn on_date_override() {
    let date = ymd(2021, 7, 20);
    let type_a = empty_type("Test A");
    let type_b = empty_type("Test A");
    let schedule = Schedule {
        last_updated: local_now(),
        calendar: {
            let mut result = Calendar::new();
            result.insert(date, vec![Event::ScheduleOverride("type_b".to_string())]);
            result
        },
        definition: ScheduleDefinition {
            calendar_urls: vec![],
            schedule_types: {
                let mut result = ScheduleTypes::new();
                result.insert("type_a".to_string(), type_a);
                result.insert("type_b".to_string(), type_b.clone());
                result
            },
            typical_schedule: week(&["type_a", "type_b", "type_a", "type_b", "type_a", "type_a", "type_b"]),
        },
    };
    assert_eq!(schedule.on_date(ymd(2021, 7, 20)), (type_b, Some("type_b".to_string())));
}

#[test]
fn on_date_literal() {
    let literal = empty_type("test_c");
    let date = ymd(2021, 7, 20);
    let schedule = Schedule {
        last_updated: local_now(),
        calendar: {
            let mut result = Calendar::new();
            result.insert(
                date,
                vec![Event::ScheduleLiteral(
                    "{\"friendly_name\":\"test_c\",\"periods\":[],\"regex\":null,\"color\":null,\"hide\":false}".to_string(),
                )],
            );
            result
        },
        definition: ScheduleDefinition { calendar_urls: vec![], schedule_types: ScheduleTypes::new(), typical_schedule: vec![] },
    };
    assert_eq!(schedule.on_date(date), (literal, None));
}

#[test]
fn at_time_typical() {
    let mut test_period = lunch("test_period", hms(8, 0, 0), hms(16, 0, 0));
    let schedule = ScheduleType {
        hide: false,
        color: None,
        friendly_name: String::new(),
        periods: vec![test_period.clone()],
        regex: None,
    };
    // timestamps won't be the same, that's fine
    let new = schedule.at_time(hms(12, 0, 0)).unwrap().1;
    test_period.start_timestamp = new[0].start_timestamp;
    test_period.end_timestamp = new[0].end_timestamp;
    assert_eq!(schedule.at_time(hms(12, 0, 0)).unwrap().1, vec![test_period.clone()]);

    assert_eq!(schedule.at_time(hms(17, 0, 0)).unwrap().0, Some(test_period.clone()));

    assert_eq!(schedule.at_time(hms(6, 0, 0)).unwrap().2, Some(test_period));
}

#[test]
fn at_time_pseudo() {
    let schedule = ScheduleType {
        hide: false,
        color: None,
        friendly_name: String::new(),
        periods: vec![
            lunch("test_period_a", hms(8, 0, 0), hms(12, 0, 0)),
            lunch("test_period_b", hms(14, 0, 0), hms(16, 0, 0)),
        ],
        regex: None,
    };
    assert_eq!(schedule.at_time(hms(13, 0, 0)).unwrap().1[0].friendly_name, "Passing Period");

    assert_eq!(schedule.at_time(hms(17, 0, 0)).unwrap().1[0].friendly_name, "After School");

    assert_eq!(schedule.at_time(hms(6, 0, 0)).unwrap().1[0].friendly_name, "Before School");
}

#[test]
fn at_time_overlap() {
    let schedule = ScheduleType {
        hide: false,
        color: None,
        friendly_name: String::new(),
        periods: vec![
            lunch("test_period_a", hms(8, 0, 0), hms(14, 0, 0)),
            lunch("test_period_b", hms(10, 0, 0), hms(16, 0, 0)),
        ],
        regex: None,
    };
    assert_eq!(schedule.at_time(hms(9, 0, 0)).unwrap().1[0].friendly_name, "test_period_a");

    assert_eq!(schedule.at_time(hms(15, 0, 0)).unwrap().1[0].friendly_name, "test_period_b");

    assert_eq!(
        schedule.at_time(hms(12, 0, 0)).unwrap().1.iter().map(|v| v.friendly_name.clone()).collect::<Vec<String>>(),
        vec!["test_period_a", "test_period_b"]
    );
}

#[test]
fn at_time_envelop() {
    let schedule = ScheduleType {
        hide: false,
        color: None,
        friendly_name: String::new(),
        periods: vec![
            lunch("test_period_a", hms(8, 0, 0), hms(16, 0, 0)),
            lunch("test_period_b", hms(10, 0, 0), hms(12, 0, 0)),
        ],
        regex: None,
    };
    assert_eq!(schedule.at_time(hms(9, 0, 0)).unwrap().1[0].friendly_name, "test_period_a");

    assert_eq!(schedule.at_time(hms(17, 0, 0)).unwrap().1[0].friendly_name, "After School");

    assert_eq!(
        schedule.at_time(hms(11, 0, 0)).unwrap().1.iter().map(|v| v.friendly_name.clone()).collect::<Vec<String>>(),
        vec!["test_period_a", "test_period_b"]
    );
}

#[test]
fn at_time_no_schedule() {
    let schedule = empty_type("");
    assert_eq!(schedule.at_time(hms(12, 0, 0)), Some((None, vec![], None)));
}

#[test]
fn schedule_generate() {
    let mut schedule = Schedule::default();
    schedule.definition.schedule_types = {
        let mut result = ScheduleTypes::new();
        result.insert(
            "type_a".to_string(),
            ScheduleType {
                hide: false,
                color: None,
                friendly_name: "Test".to_string(),
                periods: vec![
                    lunch("test_period_a", hms(8, 0, 0), hms(12, 0, 0)),
                    lunch("test_period_b", hms(14, 0, 0), hms(16, 0, 0)),
                ],
                regex: None,
            },
        );
        result.insert(
            "type_b".to_string(),
            ScheduleType {
                hide: false,
                color: None,
                friendly_name: "Test".to_string(),
                periods: vec![
                    lunch("test_period_c", hms(9, 0, 0), hms(13, 0, 0)),
                    lunch("test_period_d", hms(15, 0, 0), hms(17, 0, 0)),
                ],
                regex: None,
            },
        );
        result.insert(
            "no_school".to_string(),
            ScheduleType {
                hide: false,
                color: None,
                friendly_name: "No School".to_string(),
                periods: vec![],
                regex: Some("a".to_string()),
            },
        );
        result
    };
    schedule.definition.typical_schedule = week(&["type_a", "type_b", "type_a", "type_b", "type_a", "type_a", "type_b"]);
    let _ical = IcalEvent::generate(&schedule, ymd(2020, 1, 1), ymd(2022, 1, 1));
}

#[test]
fn schedule_ical() {
    let now = local_now().time;
    let later = |h: u32| Time { secs: (now.secs + h * 3600) % 86400, frac: now.frac };
    let mut definition = Schedule::default().definition;
    definition.schedule_types.insert(
        "no".to_string(),
        ScheduleType {
            hide: false,
            friendly_name: "No".to_string(),
            periods: vec![Period {
                friendly_name: "No".to_string(),
                start: now,
                end: later(2),
                kind: PeriodType::Break,
                start_timestamp: 0,
                end_timestamp: 0,
            }],
            regex: Some("[Nn]o".to_string()),
            color: Some([0; 3]),
        },
    );
    definition.schedule_types.insert(
        "yes".to_string(),
        ScheduleType {
            hide: false,
            friendly_name: "Yes".to_string(),
            periods: vec![Period {
                friendly_name: "Yes".to_string(),
                start: now,
                end: later(1),
                kind: PeriodType::Break,
                start_timestamp: 0,
                end_timestamp: 0,
            }],
            regex: None,
            color: Some([0; 3]),
        },
    );
    definition.typical_schedule = vec!["yes".to_string(); 7];
    definition.calendar_urls = vec!["https://www.eths.k12.il.us/site/handlers/icalfeed.ashx?MIID=1".to_string()];
    // the calendar is fetched by the program around the library; here it stays empty
    let schedule = Schedule::from_definition(definition);
    let _ical = IcalEvent::generate(&schedule, ymd(2020, 1, 1), ymd(2022, 1, 1));
}

use ethsbell_rewrite::cli::{ftime, period_report};
use ethsbell_rewrite::api::v1::what_time;
use ethsbell_rewrite::datetime::{effective_stamp, moved_to, now_for, Date, LocalDateTime, Time};
use ethsbell_rewrite::ical::IcalEvent;
use ethsbell_rewrite::schedule::{Calendar, Event, Period, PeriodType, Schedule, ScheduleType};

fn hms(h: u32, m: u32, s: u32) -> Time {
    Time::from_hms_opt(h, m, s).unwrap()
}

fn ymd(y: i32, m: u32, d: u32) -> Date {
    Date::from_ymd_opt(y, m, d).unwrap()
}

#[test]
fn calendar_dates() {
    let d = ymd(2021, 7, 27);
    assert_eq!(d.year_month_day(), (2021, 7, 27));
    assert_eq!(d.num_days_from_sunday(), 2);
    assert_eq!(ymd(1, 1, 1).days, 1);
    assert!(Date::from_ymd_opt(2021, 2, 29).is_none());
    assert!(Date::from_ymd_opt(2020, 2, 29).is_some());
    assert_eq!(d.add_days(7).unwrap().year_month_day(), (2021, 8, 3));
    assert_eq!(d.add_days(-27).unwrap().year_month_day(), (2021, 6, 30));
    assert!(Date { days: 95745399 }.add_days(1).is_none());
    assert!(Time::from_hms_opt(24, 0, 0).is_none());
    assert_eq!(hms(13, 45, 6).secs, 49506);
    assert_eq!(hms(13, 45, 6).hour(), 13);
    assert_eq!(hms(13, 45, 6).minute(), 45);
    assert_eq!(hms(13, 45, 6).second(), 6);
}

#[test]
fn spans_of_time() {
    assert_eq!(ftime(3700), "1h1m");
    assert_eq!(ftime(-3700), "1h1m");
    assert_eq!(ftime(125), "2m125s");
    assert_eq!(ftime(59), "59s");
    assert_eq!(ftime(0), "0s");
}

#[test]
fn period_reports() {
    let p = Period {
        friendly_name: "Block 2".to_string(),
        start: hms(9, 0, 0),
        start_timestamp: 0,
        end: hms(10, 30, 0),
        end_timestamp: 0,
        kind: PeriodType::Class("2".to_string()),
    };
    let now = Time { secs: hms(9, 15, 0).secs, frac: 500_000_000 };
    assert_eq!(
        period_report(0, 1, &p, now),
        vec![
            "=== Current Period ===",
            "Name: Block 2",
            "Started 15m900s ago",
            "1h30m long in total",
            "Period is Class(\"2\")",
            "Ends 1h14m from now",
            "",
        ]
    );
    assert_eq!(period_report(2, 2, &p, hms(8, 59, 30)), vec!["=== Next Period ===", "Name: Block 2", ""]);
    assert_eq!(
        period_report(1, 0, &p, hms(11, 0, 0)),
        vec!["=== Last Period ===", "Name: Block 2", "Started 2h0m ago", "Ended 30m1800s ago", ""]
    );
}

#[test]
fn ical_parse() {
    let text = "BEGIN:VCALENDAR\r\nBEGIN:VEVENT\r\nSUMMARY:No School\r\nDTSTART;VALUE=DATE:20210726\r\nDTEND;VALUE=DATE:20210728\r\nEND:VEVENT\r\nEND:VCALENDAR\r\n";
    let events = IcalEvent::try_from_string(text).unwrap();
    assert_eq!(events.len(), 1);
    assert_eq!(events[0].summary, Some("No School".to_string()));
    assert_eq!(events[0].start, Some(ymd(2021, 7, 26)));
    assert_eq!(events[0].end, Some(ymd(2021, 7, 28)));
}

#[test]
fn generated_calendar() {
    let mut schedule = Schedule::default();
    let a = ScheduleType {
        hide: false,
        color: None,
        friendly_name: "A".to_string(),
        periods: vec![Period {
            friendly_name: "First".to_string(),
            start: hms(8, 0, 0),
            start_timestamp: 0,
            end: hms(9, 0, 0),
            end_timestamp: 0,
            kind: PeriodType::Class("1".to_string()),
        }],
        regex: None,
    };
    schedule.definition.schedule_types.insert("a".to_string(), a);
    schedule.definition.schedule_types.insert(
        "off".to_string(),
        ScheduleType { hide: false, color: None, friendly_name: "Off".to_string(), periods: vec![], regex: None },
    );
    schedule.definition.typical_schedule = vec!["a".to_string(); 7];
    let mut calendar = Calendar::new();
    calendar.insert(ymd(2021, 7, 27), vec![Event::ScheduleOverride("a".to_string())]);
    calendar.insert(ymd(2021, 7, 28), vec![Event::ScheduleOverride("off".to_string())]);
    calendar.insert(ymd(2021, 7, 29), vec![Event::SpecialEvent("Assembly".to_string())]);
    calendar.insert(ymd(2022, 7, 29), vec![Event::ScheduleOverride("a".to_string())]);
    schedule.calendar = calendar;
    let text = IcalEvent::generate(&schedule, ymd(2021, 7, 1), ymd(2021, 8, 1));
    assert!(text.starts_with("BEGIN:VCALENDAR\nVERSION:2.0\nPRODID:ETHSBell Rewrite\n"));
    assert!(text.ends_with("END:VCALENDAR\n"));
    assert!(text.contains("SUMMARY:First\nDTSTAMP:20210727T080000\nDTSTART:20210727T080000\nDTEND:20210727T090000\nEND:VEVENT\n"));
    assert!(!text.contains("DTSTART:20220729"));
    assert_eq!(text.matches("RRULE:FREQ=WEEKLY;BYDAY=").count(), 7);
    assert!(text.contains("RRULE:FREQ=WEEKLY;BYDAY=SA\nEXDATE:20210727T000000,20210728T000000\nEND:VEVENT\n"));
    assert!(text.contains("DTSTART:20210701T080000\nDTEND:20210701T090000\nSUMMARY:First\nRRULE"));
    assert_eq!(text.matches("BEGIN:VEVENT").count(), 8);
    let mut broken = schedule;
    broken.definition.typical_schedule.push("missing".to_string());
    assert!(IcalEvent::try_generate(&broken, ymd(2021, 7, 1), ymd(2021, 8, 1)).is_none());
}

fn without_uids(text: &str) -> String {
    text.lines().filter(|l| !l.starts_with("UID:")).collect::<Vec<&str>>().join("\n")
}

#[test]
fn generation_ignores_days_outside_the_range() {
    let mut schedule = Schedule::default();
    let a = ScheduleType {
        hide: false,
        color: None,
        friendly_name: "A".to_string(),
        periods: vec![Period {
            friendly_name: "First".to_string(),
            start: hms(8, 0, 0),
            start_timestamp: 0,
            end: hms(9, 0, 0),
            end_timestamp: 0,
            kind: PeriodType::Class("1".to_string()),
        }],
        regex: None,
    };
    schedule.definition.schedule_types.insert("a".to_string(), a);
    schedule.definition.typical_schedule = vec!["a".to_string(); 7];
    schedule.calendar.insert(ymd(2021, 7, 27), vec![Event::ScheduleOverride("a".to_string())]);
    let before = IcalEvent::generate(&schedule, ymd(2021, 7, 1), ymd(2021, 8, 1));
    schedule.calendar.insert(ymd(2021, 8, 2), vec![Event::ScheduleOverride("a".to_string())]);
    schedule.calendar.insert(ymd(2021, 6, 30), vec![Event::ScheduleOverride("missing".to_string())]);
    assert!(IcalEvent::try_generate(&schedule, ymd(2021, 7, 1), ymd(2021, 8, 1)).is_some());
    let after = IcalEvent::generate(&schedule, ymd(2021, 7, 1), ymd(2021, 8, 1));
    assert_eq!(without_uids(&before), without_uids(&after));
    assert_eq!(after.matches("BEGIN:VEVENT").count(), 8);
}

#[test]
fn moments_of_timestamps() {
    assert_eq!(effective_stamp(1_627_378_200), 1_627_378_200);
    assert_eq!(effective_stamp(-5), -5);
    assert_eq!(effective_stamp(i64::MAX), 0);
    assert_eq!(effective_stamp(i64::MIN), 0);
    let t = now_for(Some(1_627_378_200));
    let naive = (t.date.days as i64 - 719_163) * 86_400 + t.time.secs as i64;
    assert!((naive - 1_627_378_200).abs() < 86_400);
    assert_eq!(t.time.frac, 0);
    let far = now_for(Some(i64::MAX));
    let naive = (far.date.days as i64 - 719_163) * 86_400 + far.time.secs as i64;
    assert!(naive.abs() < 86_400);
    let text = what_time(Some(0));
    assert!(text.contains("1970") || text.contains("1969"));
    assert!(what_time(Some(i64::MAX)).contains("19"));
    let moved = moved_to(&LocalDateTime { date: ymd(2021, 2, 10), time: hms(12, 0, 0) }, ymd(2021, 3, 31));
    assert_eq!(moved.date, ymd(2021, 3, 31));
    assert_eq!(moved.time, hms(12, 0, 0));
}

#[test]
fn generation_depends_on_days_in_range() {
    let a = ScheduleType {
        hide: false,
        color: None,
        friendly_name: "A".to_string(),
        periods: vec![Period {
            friendly_name: "First".to_string(),
            start: hms(8, 0, 0),
            start_timestamp: 0,
            end: hms(9, 0, 0),
            end_timestamp: 0,
            kind: PeriodType::Class("1".to_string()),
        }],
        regex: None,
    };
    let mut s1 = Schedule::default();
    s1.definition.schedule_types.insert("a".to_string(), a);
    s1.definition.typical_schedule = vec!["a".to_string(); 7];
    let mut s2 = s1.clone();
    s1.calendar.insert(ymd(2021, 7, 27), vec![Event::ScheduleOverride("a".to_string())]);
    s1.calendar.insert(ymd(2021, 7, 29), vec![Event::ScheduleOverride("a".to_string())]);
    s1.calendar.insert(ymd(2021, 9, 1), vec![Event::ScheduleOverride("a".to_string())]);
    s2.calendar.insert(ymd(2020, 1, 1), vec![Event::SpecialEvent("x".to_string())]);
    s2.calendar.insert(ymd(2021, 7, 27), vec![Event::ScheduleOverride("a".to_string())]);
    s2.calendar.insert(ymd(2022, 3, 3), vec![Event::ScheduleOverride("missing".to_string())]);
    s2.calendar.insert(ymd(2021, 7, 29), vec![Event::ScheduleOverride("a".to_string())]);
    let t1 = IcalEvent::generate(&s1, ymd(2021, 7, 1), ymd(2021, 8, 1));
    let t2 = IcalEvent::generate(&s2, ymd(2021, 7, 1), ymd(2021, 8, 1));
    assert_eq!(without_uids(&t1), without_uids(&t2));
    assert!(t1.contains("EXDATE:20210727T000000,20210729T000000"));
}

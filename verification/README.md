# ETHSBell bell-schedule library

ETHSBell tracks a school's bell schedule: the types of day the school has, the
typical week, and a calendar of events (fetched as iCalendar feeds) that
override the schedule of single days. This crate holds that logic, verified
with Verus.

## Layout

- `src/datetime.rs`: dates and times of day as plain integers, and the calls
  into chrono that read, write and place them.
- `src/schedule/`: periods, schedule types, the definition of a schedule, the
  calendar of events, and what the schedule of a day is (`Schedule::on_date`)
  and where a moment falls in it (`ScheduleType::at_time`). Calendars are
  written in ascending order of importance, so the last override or literal
  schedule written for a day decides it.
- `src/ical/`: reading iCalendar text into events and writing a schedule out
  as iCalendar text.
- `src/api/`: what each endpoint of the web API computes from a schedule, for
  versions 1 and 2 and the legacy API.
- `src/login.rs`: the basic-authentication check of the admin editor.
- `src/cli.rs`: what the command-line client prints about a period.
- `src/json.rs`, `src/pattern.rs`, `src/text.rs`: JSON values, regular
  expressions and text helpers.
- `tests/`: tests of the library on concrete schedules.
- `app/`: the command-line client, which fetches the current periods from a
  server, or computes them here from a definition file and its calendars.

Contracts speak of spec functions over the views of the types; laws that
relate several functions are public proof functions named `law_*`.

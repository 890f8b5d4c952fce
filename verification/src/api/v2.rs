//! Version 2 of the API: what each endpoint computes from the schedule.
use vstd::prelude::*;

use crate::aliases::v2::NearbyPeriods;
use crate::api::v1::day_of;
use crate::datetime::LocalDateTime;
use crate::schedule::period::{all_placed_on, Period};
use crate::schedule::schedule_inner::{day_periods, lemma_on_date_periods, Schedule};
use crate::schedule::schedule_type::{all_populated_from, nearby_all_at, nothing_near, zone_places_all, ScheduleType};

verus! {

/// Returns the current period type and its neighbors: every period before that
/// ends last, the periods going on and every period after that starts first,
/// with timestamps set from `now`; `None` where a period cannot be placed on
/// that day in the local time zone.
pub fn today_around_now(schedule: &Schedule, now: &LocalDateTime) -> (r: Option<NearbyPeriods>)
    requires
        now.wf(),
        schedule.on_date_defined(now.date),
    ensures
        r matches Some(x) ==> exists|day: (ScheduleType, Option<String>), u: (Seq<Period>, Seq<Period>, Seq<Period>)| {
            &&& day_of(*schedule, now.date, day)
            &&& nearby_all_at(day.0.periods@, now.time, u)
            &&& all_populated_from(x.previous@, u.0)
            &&& all_populated_from(x.current@, u.1)
            &&& all_populated_from(x.future@, u.2)
        },
        r matches Some(x) ==> all_placed_on(x.previous@, now.date) && all_placed_on(x.current@, now.date)
            && all_placed_on(x.future@, now.date),
        zone_places_all(*now, day_periods(*schedule, now.date)->0) ==> r is Some,
        nothing_near(day_periods(*schedule, now.date)->0, now.time) ==> (r matches Some(x) && x.previous@.len() == 0
            && x.current@.len() == 0 && x.future@.len() == 0),
{
    let day = schedule.on_date(now.date);
    let ghost d = day;
    assert(day_of(*schedule, now.date, d));
    proof {
        lemma_on_date_periods(*schedule, now.date, d);
    }
    match day.0.at_time_v2_on(now.time, now) {
        Some((previous, current, future)) => Some(NearbyPeriods { previous, current, future }),
        None => None,
    }
}

} // verus!

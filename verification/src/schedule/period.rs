//! Periods of a school day and their kinds.
use vstd::prelude::*;

use crate::datetime::{local_timestamp_at, within_a_day, Date, LocalDateTime, Time};

verus! {

/// The types a period can be.
#[derive(Debug)]
pub enum PeriodType {
    /// This period has a class in it, and it is this index in a student's schedule.
    Class(String),
    /// This period is either a lunch or a class, depending on the student's schedule.
    ClassOrLunch(String),
    /// This period is always lunch.
    Lunch,
    /// This period is always a break.
    Break,
    /// This period is AM support.
    AMSupport,
    /// This period is always a passing period.
    /// Declaring this is optional; frontends report a passing period between two periods by themselves.
    Passing,
    /// This period is before school.
    BeforeSchool,
    /// This period is after school.
    AfterSchool,
    /// This period contains announcements.
    Announcements,
}

impl PeriodType {
    /// The two kinds are the same variant with the same text.
    pub open spec fn same(self, other: PeriodType) -> bool {
        match (self, other) {
            (PeriodType::Class(a), PeriodType::Class(b)) => a@ == b@,
            (PeriodType::ClassOrLunch(a), PeriodType::ClassOrLunch(b)) => a@ == b@,
            (PeriodType::Lunch, PeriodType::Lunch) => true,
            (PeriodType::Break, PeriodType::Break) => true,
            (PeriodType::AMSupport, PeriodType::AMSupport) => true,
            (PeriodType::Passing, PeriodType::Passing) => true,
            (PeriodType::BeforeSchool, PeriodType::BeforeSchool) => true,
            (PeriodType::AfterSchool, PeriodType::AfterSchool) => true,
            (PeriodType::Announcements, PeriodType::Announcements) => true,
            _ => false,
        }
    }

    /// Whether this is the `Passing` kind.
    pub fn is_passing(&self) -> (r: bool)
        ensures
            r == (*self is Passing),
    {
        match self {
            PeriodType::Passing => true,
            _ => false,
        }
    }

    /// Whether this is the `Class(_)` kind.
    pub fn is_class(&self) -> (r: bool)
        ensures
            r == (*self is Class),
    {
        match self {
            PeriodType::Class(_) => true,
            _ => false,
        }
    }
}

impl Clone for PeriodType {
    fn clone(&self) -> (r: Self)
        ensures
            r == *self,
    {
        match self {
            PeriodType::Class(s) => PeriodType::Class(s.clone()),
            PeriodType::ClassOrLunch(s) => PeriodType::ClassOrLunch(s.clone()),
            PeriodType::Lunch => PeriodType::Lunch,
            PeriodType::Break => PeriodType::Break,
            PeriodType::AMSupport => PeriodType::AMSupport,
            PeriodType::Passing => PeriodType::Passing,
            PeriodType::BeforeSchool => PeriodType::BeforeSchool,
            PeriodType::AfterSchool => PeriodType::AfterSchool,
            PeriodType::Announcements => PeriodType::Announcements,
        }
    }
}

impl PartialEq for PeriodType {
    fn eq(&self, other: &Self) -> (r: bool) {
        match (self, other) {
            (PeriodType::Class(a), PeriodType::Class(b)) => *a == *b,
            (PeriodType::ClassOrLunch(a), PeriodType::ClassOrLunch(b)) => *a == *b,
            (PeriodType::Lunch, PeriodType::Lunch) => true,
            (PeriodType::Break, PeriodType::Break) => true,
            (PeriodType::AMSupport, PeriodType::AMSupport) => true,
            (PeriodType::Passing, PeriodType::Passing) => true,
            (PeriodType::BeforeSchool, PeriodType::BeforeSchool) => true,
            (PeriodType::AfterSchool, PeriodType::AfterSchool) => true,
            (PeriodType::Announcements, PeriodType::Announcements) => true,
            _ => false,
        }
    }
}

impl vstd::std_specs::cmp::PartialEqSpecImpl for PeriodType {
    open spec fn obeys_eq_spec() -> bool {
        true
    }

    open spec fn eq_spec(&self, other: &PeriodType) -> bool {
        self.same(*other)
    }
}

/// The definition for a period.
#[derive(Debug)]
pub struct Period {
    /// A human-friendly name for this period, like "First Period".
    pub friendly_name: String,
    /// The start of this period.
    pub start: Time,
    /// The start of this period as a Unix timestamp; zero until populated.
    pub start_timestamp: u64,
    /// The end of this period.
    pub end: Time,
    /// The end of this period as a Unix timestamp; zero until populated.
    pub end_timestamp: u64,
    /// The type of this period.
    pub kind: PeriodType,
}

/// A timestamp stored as its 64-bit two's-complement pattern, read back with
/// its sign.
pub open spec fn signed_stamp(stamp: u64) -> int {
    if stamp < 0x8000_0000_0000_0000 {
        stamp as int
    } else {
        stamp - 0x1_0000_0000_0000_0000
    }
}

/// Storing a timestamp and reading it back gives it again.
proof fn lemma_signed_stamp(x: i64)
    ensures
        signed_stamp(x as u64) == x,
{
    if x >= 0 {
        assert(x >= 0 ==> (x as u64) as int == x as int) by (bit_vector);
    } else {
        assert(x < 0 ==> (x as u64) as int == x as int + 0x1_0000_0000_0000_0000) by (bit_vector);
    }
}

/// The local time zone may leave the time `t` unplaced on the local day of
/// `at`: coming back empty is a possible outcome of asking chrono for the
/// timestamp of that day at `t`'s hour, minute and second.
pub closed spec fn zone_may_not_place(at: LocalDateTime, t: Time) -> bool {
    call_ensures(local_timestamp_at, (&at, t.secs / 3600, t.secs / 60 % 60, t.secs % 60), None::<i64>)
}

/// The local time zone places both times of the period on the local day of `at`.
pub open spec fn zone_places(at: LocalDateTime, p: Period) -> bool {
    !zone_may_not_place(at, p.start) && !zone_may_not_place(at, p.end)
}

/// Both timestamps of the period are the moments of its start and end on the
/// local day `d`, in a time zone less than a day off UTC.
pub open spec fn placed_on(p: Period, d: Date) -> bool {
    &&& within_a_day(signed_stamp(p.start_timestamp), d, p.start.secs as int)
    &&& within_a_day(signed_stamp(p.end_timestamp), d, p.end.secs as int)
}

/// Every period of the list is placed on the local day `d`.
pub open spec fn all_placed_on(ps: Seq<Period>, d: Date) -> bool {
    forall|i: int| 0 <= i < ps.len() ==> placed_on(#[trigger] ps[i], d)
}

/// A time of day is its hours, minutes and seconds.
proof fn lemma_time_parts(t: Time)
    ensures
        (t.secs / 3600) * 3600 + (t.secs / 60 % 60) * 60 + t.secs % 60 == t.secs,
{
    let s = t.secs as int;
    assert((s / 3600) * 3600 + (s / 60 % 60) * 60 + s % 60 == s) by (nonlinear_arith)
        requires
            s >= 0,
    {
        assert(s == 60 * (s / 60) + s % 60);
        assert(s / 60 == 60 * (s / 60 / 60) + s / 60 % 60);
        assert(s / 60 / 60 == s / 3600);
    }
}

impl Period {
    /// The two periods agree in every field, texts compared by their characters.
    pub open spec fn same(self, other: Period) -> bool {
        &&& self.friendly_name@ == other.friendly_name@
        &&& self.start == other.start
        &&& self.start_timestamp == other.start_timestamp
        &&& self.end == other.end
        &&& self.end_timestamp == other.end_timestamp
        &&& self.kind.same(other.kind)
    }

    /// The period with both timestamps set from the given Unix timestamps:
    /// `None` where either is missing. A timestamp is stored as its 64-bit
    /// two's-complement pattern.
    pub fn with_timestamps(self, start: Option<i64>, end: Option<i64>) -> (r: Option<Period>)
        ensures
            r is Some <==> (start is Some && end is Some),
            r matches Some(p) ==> {
                &&& p.friendly_name == self.friendly_name
                &&& p.start == self.start
                &&& p.end == self.end
                &&& p.kind == self.kind
                &&& p.start_timestamp == start->0 as u64
                &&& p.end_timestamp == end->0 as u64
            },
    {
        match (start, end) {
            (Some(s), Some(e)) => {
                let mut p = self;
                p.start_timestamp = s as u64;
                p.end_timestamp = e as u64;
                Some(p)
            },
            _ => None,
        }
    }

    /// Populate a period's timestamp fields, which are normally 0: each becomes the
    /// Unix timestamp of the local day of `date` at the period's hour, minute and
    /// second. `None` where the local time zone has no such moment on that day.
    pub fn populate(self, date: &LocalDateTime) -> (r: Option<Period>)
        ensures
            r matches Some(p) ==> {
                &&& p.friendly_name == self.friendly_name
                &&& p.start == self.start
                &&& p.end == self.end
                &&& p.kind == self.kind
                &&& placed_on(p, date.date)
            },
            zone_places(*date, self) ==> r is Some,
    {
        let stamp = local_timestamp_at;
        let start = stamp(date, self.start.hour(), self.start.minute(), self.start.second());
        let end = stamp(date, self.end.hour(), self.end.minute(), self.end.second());
        proof {
            lemma_time_parts(self.start);
            lemma_time_parts(self.end);
            if let Some(x) = start {
                lemma_signed_stamp(x);
            }
            if let Some(x) = end {
                lemma_signed_stamp(x);
            }
        }
        self.with_timestamps(start, end)
    }
}

impl Clone for Period {
    fn clone(&self) -> (r: Self)
        ensures
            r == *self,
    {
        Period {
            friendly_name: self.friendly_name.clone(),
            start: self.start,
            start_timestamp: self.start_timestamp,
            end: self.end,
            end_timestamp: self.end_timestamp,
            kind: self.kind.clone(),
        }
    }
}

impl PartialEq for Period {
    fn eq(&self, other: &Self) -> (r: bool) {
        self.friendly_name == other.friendly_name && self.start == other.start
            && self.start_timestamp == other.start_timestamp && self.end == other.end
            && self.end_timestamp == other.end_timestamp && self.kind == other.kind
    }
}

impl vstd::std_specs::cmp::PartialEqSpecImpl for Period {
    open spec fn obeys_eq_spec() -> bool {
        true
    }

    open spec fn eq_spec(&self, other: &Period) -> bool {
        self.same(*other)
    }
}

} // verus!

//! Everything relating to our schedule structures.

pub mod period;

pub use period::{Period, PeriodType};
pub mod schedule_type;

pub use schedule_type::ScheduleType;
pub mod literal;
pub mod event;

pub use event::{Calendar, CalendarDay, Event};
pub mod def;

pub use def::{ScheduleDefinition, ScheduleTypes};
pub mod schedule_inner;

pub use schedule_inner::Schedule;

//! A library for running the ETHSBell bell-schedule logic: schedules, periods,
//! calendar events and the iCalendar format they are read from and written to.

pub mod datetime;
pub mod schedule;
pub mod json;
pub mod pattern;
pub mod text;
pub mod ical;
pub mod impls;
pub mod locks;
pub mod frontend;
pub mod aliases;

pub use locks::SpecLock;
pub mod login;
pub mod api;
pub mod cli;

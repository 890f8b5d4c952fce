//! Reading and writing iCalendar files.
use vstd::prelude::*;

pub mod format;
pub mod event;

pub use event::IcalEvent;
pub mod generate;

verus! {

/// A response of the web server wrapping String to allow responding with ical data.
#[derive(Debug)]
pub struct IcalResponder {
    /// The inner String containing ICal data.
    pub inner: String,
}

} // verus!

//! The shape of the data that API V2 returns.
use vstd::prelude::*;

use crate::schedule::Period;

verus! {

/// This is the type of the data returned by /api/v2/today/now/near.
/// The periods returned by `previous` and `future` will have either the
/// same end time (for `previous`) or the same start time (for `future`)
/// if there are multiple periods.
#[derive(Debug)]
pub struct NearbyPeriods {
    /// The `Period`(s) that occurred before this one
    pub previous: Vec<Period>,
    /// The `Period`(s) that are going on right now
    pub current: Vec<Period>,
    /// The `Period`(s) that will occur after this one
    pub future: Vec<Period>,
}

} // verus!

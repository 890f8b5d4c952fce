//! The shape of the data that API V1 returns.
use vstd::prelude::*;

use crate::schedule::Period;

verus! {

/// This is the type of the data returned by /api/v1/today/now/near.
pub type NearbyPeriods = (Option<Period>, Vec<Period>, Option<Period>);

} // verus!

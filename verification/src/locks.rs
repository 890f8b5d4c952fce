//! This file contains structs used to persist lock states between requests.
use vstd::prelude::*;

use crate::datetime::LocalDateTime;

verus! {

/// This is a struct used to persist the admin editor's lock state between
/// requests: when it was taken, in local time, if it is held.
#[derive(Clone, Copy, Debug)]
pub struct SpecLock(pub Option<LocalDateTime>);

} // verus!

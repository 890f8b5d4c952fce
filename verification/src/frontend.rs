//! Defines frontend behavior.
use vstd::prelude::*;

verus! {

/// The fairing that serves the frontend from disk; the server that mounts it
/// lives outside this library.
pub struct FrontendFairing;

} // verus!

//! Contains type aliases which may be useful to those consuming `ETHSBell` as a library.

/// Type aliases for API V1
pub mod v1;
/// Type aliases for API V2
pub mod v2;

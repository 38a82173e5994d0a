//! The values that pass to and from the C libraries the tools link against.
pub mod crypto;
pub mod dbm;

//! Data models stored by the adapters.
pub mod user;

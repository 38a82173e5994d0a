//! Files under `/proc`.
pub mod net;

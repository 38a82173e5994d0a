//! Files under `/etc`.
pub mod fstab;

//! The decisions and the text of the command line tools (`chmod`, `stat`, `tree`).
pub mod chmod;
pub mod stat;
pub mod tree;

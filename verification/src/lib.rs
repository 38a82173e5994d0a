//! Linux system programming helpers: parsers for kernel tables and config files,
//! network checksums, record layouts and the text shown by the small command line tools.
pub mod commands;
pub mod database;
pub mod dylibs_binding;
pub mod errno;
pub mod file_system;
pub mod network;
pub mod number;
pub mod split;
pub mod strftime;
pub mod system_call;
pub mod text;
pub mod time;

use vstd::prelude::*;

verus! {

/// Longest file name component a directory entry can hold (`linux/limits.h`).
pub const NAME_MAX: usize = 256;

} // verus!

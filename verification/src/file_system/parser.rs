//! Parsers for system files, each a function on the file's text.
pub mod etc;
pub mod proc;

//! Database adapters: the parts of each that do not talk to the storage.
pub mod fread_fwrite_struct;
pub mod mmap;
pub mod mysql;

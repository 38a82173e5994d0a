//! dbm/gdbm: a key-value single file database facilities
use vstd::prelude::*;

verus! {

/// store_mode arg of dbm_store
pub struct StoreMode;

impl StoreMode {
    /// Store only when the key is not there yet.
    pub const DBM_INSERT: i32 = 0;

    /// Store, replacing what the key held.
    pub const DBM_REPLACE: i32 = 1;
}

} // verus!

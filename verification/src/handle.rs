//! The handle type the adapter returns from `open`: one open reference to a
//! logical file, identified by the file's path and a process-unique id.

use vstd::prelude::*;

verus! {

/// One open reference to a logical file.  The adapter only ever looks a
/// handle up by its path and id; the embedded engine owns the handle itself.
#[derive(Clone, Debug)]
pub struct SlatedbVfsHandle {
    /// Path naming the logical file this handle refers to.
    pub path: String,
    /// Process-unique identifier, drawn from the adapter's counter.
    pub handle_id: u64,
    /// Whether the handle was opened read-only.
    pub readonly: bool,
}

impl SlatedbVfsHandle {
    pub fn new(path: String, readonly: bool, handle_id: u64) -> (r: Self)
        ensures
            r.path == path,
            r.handle_id == handle_id,
            r.readonly == readonly,
    {
        Self { path, readonly, handle_id }
    }

    /// The adapter's files are never memory-backed from the engine's point
    /// of view.
    pub fn in_memory(&self) -> (r: bool)
        ensures
            !r,
    {
        false
    }
}

} // verus!

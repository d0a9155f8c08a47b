//! SQLite result codes, file-control opcodes and device-characteristic flags
//! used across the VFS surface.  The values follow the SQLite C header.

use vstd::prelude::*;

verus! {

/// Successful result.
pub const SQLITE_OK: i32 = 0;

/// The database file is locked; the caller is expected to retry.
pub const SQLITE_BUSY: i32 = 5;

/// Unknown opcode passed to `file_control`, or an unrecognized pragma.
pub const SQLITE_NOTFOUND: i32 = 12;

/// Unable to open the database file.
pub const SQLITE_CANTOPEN: i32 = 14;

/// Generic I/O error class; the extended codes below refine it.
pub const SQLITE_IOERR: i32 = 10;

/// I/O error while reading a page.
pub const SQLITE_IOERR_READ: i32 = 266;

/// I/O error while writing a page.
pub const SQLITE_IOERR_WRITE: i32 = 778;

/// I/O error while flushing to durable storage.
pub const SQLITE_IOERR_FSYNC: i32 = 1034;

/// I/O error while deleting a page or file marker.
pub const SQLITE_IOERR_DELETE: i32 = 2570;

/// `file_control` opcode: start buffering writes for an atomic batch.
pub const SQLITE_FCNTL_BEGIN_ATOMIC_WRITE: i32 = 31;

/// `file_control` opcode: submit the buffered writes as one atomic batch.
pub const SQLITE_FCNTL_COMMIT_ATOMIC_WRITE: i32 = 32;

/// `file_control` opcode: discard the buffered writes.
pub const SQLITE_FCNTL_ROLLBACK_ATOMIC_WRITE: i32 = 33;

/// Device characteristic: writes of any size are atomic.
pub const SQLITE_IOCAP_ATOMIC: i32 = 0x1;

/// Device characteristic: data is appended before the file size is extended.
pub const SQLITE_IOCAP_SAFE_APPEND: i32 = 0x200;

/// Device characteristic: information is written in the order of the writes.
pub const SQLITE_IOCAP_SEQUENTIAL: i32 = 0x400;

/// Device characteristic: a crash leaves bytes outside the written range intact.
pub const SQLITE_IOCAP_POWERSAFE_OVERWRITE: i32 = 0x1000;

/// Device characteristic: the file system supports atomic batch writes.
pub const SQLITE_IOCAP_BATCH_ATOMIC: i32 = 0x4000;

/// The characteristics every adapter of this family reports, before the
/// optional batch-atomic capability is added in: atomic writes, powersafe
/// overwrite, safe append, and sequential writes.
pub const DEFAULT_DEVICE_CHARACTERISTICS: i32 = 0x1 | 0x1000 | 0x200 | 0x400;

} // verus!

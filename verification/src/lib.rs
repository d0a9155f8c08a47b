//! A verified core for a page-oriented virtual file system (VFS) that lets an
//! embedded SQL engine run on top of a key-value store.
//!
//! The crate models the three pieces the VFS contract needs:
//! a page store that turns byte-range reads and writes into whole-page
//! operations against a key-value map, a per-file hierarchical lock manager
//! implementing the five-level SQLite locking protocol, and a batch-write
//! coordinator that makes multi-page writes atomic.  The adapter in
//! [`vfs`] ties them together behind the synchronous callback surface the
//! engine expects.  Process glue (the real key-value backend, the C
//! registration ABI, logging) lives outside this crate; everything here is
//! plain data in, plain data out, with proved contracts.

pub mod sqlite_codes;
pub mod handle;
pub mod smap;
pub mod lock_manager;
pub mod page;
pub mod kv_store;
pub mod vfs;
pub mod laws;
pub mod bootstrap;
pub mod history;
pub mod queries;
pub mod sql_state;
pub mod analyzer;
pub mod bench;
pub mod error;

//! Scenario tests of the VFS adapter: page I/O, truncation, atomic batches,
//! pragmas and device characteristics.

use slatedb_vfs::handle::SlatedbVfsHandle;
use slatedb_vfs::sqlite_codes::{
    SQLITE_CANTOPEN, SQLITE_FCNTL_BEGIN_ATOMIC_WRITE, SQLITE_FCNTL_COMMIT_ATOMIC_WRITE,
    SQLITE_FCNTL_ROLLBACK_ATOMIC_WRITE, SQLITE_NOTFOUND,
};
use slatedb_vfs::vfs::{PragmaErr, SlatedbVfs};

fn open(vfs: &mut SlatedbVfs, path: &str) -> SlatedbVfsHandle {
    vfs.open(&path.to_string(), false).expect("open")
}

#[test]
fn write_then_read_round_trip_within_a_page() {
    let mut vfs = SlatedbVfs::new();
    let mut h = open(&mut vfs, "t");
    let data = b"hello page".to_vec();
    assert_eq!(vfs.write(&mut h, 100, &data), Ok(data.len()));
    assert_eq!(vfs.read(&h, 100, data.len()), Ok(data));
}

#[test]
fn write_then_read_round_trip_on_a_later_page() {
    let mut vfs = SlatedbVfs::new();
    let mut h = open(&mut vfs, "t");
    let data = vec![7u8; 64];
    assert_eq!(vfs.write(&mut h, 3 * 4096 + 17, &data), Ok(64));
    assert_eq!(vfs.read(&h, 3 * 4096 + 17, 64), Ok(data));
}

#[test]
fn sparse_write_beyond_the_end_reads_back() {
    let mut vfs = SlatedbVfs::new();
    let mut h = open(&mut vfs, "t");
    // Nothing was ever written below this offset.
    let data = vec![9u8; 10];
    assert_eq!(vfs.write(&mut h, 8192 + 40, &data), Ok(10));
    assert_eq!(vfs.read(&h, 8192 + 40, 10), Ok(data));
    // The hole before it reads as empty.
    assert_eq!(vfs.read(&h, 0, 10), Ok(Vec::new()));
}

#[test]
fn straddling_write_at_page_boundary() {
    // The example scenario: ten bytes at offset 4090 cross the 4096-byte
    // page boundary, read back whole, and the size covers them.
    let mut vfs = SlatedbVfs::new();
    let mut h = open(&mut vfs, "t");
    let data: Vec<u8> = (0u8..10).collect();
    assert_eq!(vfs.write(&mut h, 4090, &data), Ok(10));
    assert_eq!(vfs.read(&h, 4090, 10), Ok(data));
    let size = vfs.file_size(&h).expect("file_size");
    assert!(size >= 4100);
    assert_eq!(size, 4100);
}

#[test]
fn file_size_derives_from_the_page_chain() {
    let mut vfs = SlatedbVfs::new();
    let mut h = open(&mut vfs, "t");
    assert_eq!(vfs.file_size(&h), Ok(0));
    assert_eq!(vfs.write(&mut h, 0, &vec![1u8; 4096]), Ok(4096));
    assert_eq!(vfs.file_size(&h), Ok(4096));
    assert_eq!(vfs.write(&mut h, 4096, &vec![2u8; 1000]), Ok(1000));
    assert_eq!(vfs.file_size(&h), Ok(5096));
}

#[test]
fn truncate_mid_page_keeps_exactly_the_prefix() {
    let mut vfs = SlatedbVfs::new();
    let mut h = open(&mut vfs, "t");
    assert_eq!(vfs.write(&mut h, 0, &vec![1u8; 4096]), Ok(4096));
    assert_eq!(vfs.write(&mut h, 4096, &vec![2u8; 4096]), Ok(4096));
    assert_eq!(vfs.truncate(&mut h, 4500), Ok(()));
    assert_eq!(vfs.file_size(&h), Ok(4500));
    // Below the cut the old bytes remain.
    assert_eq!(vfs.read(&h, 4400, 50), Ok(vec![2u8; 50]));
    assert_eq!(vfs.read(&h, 10, 5), Ok(vec![1u8; 5]));
    // At and past the cut nothing is readable.
    assert_eq!(vfs.read(&h, 4500, 10), Ok(Vec::new()));
    assert_eq!(vfs.read(&h, 4600, 10), Ok(Vec::new()));
}

#[test]
fn truncate_to_zero_removes_all_pages() {
    let mut vfs = SlatedbVfs::new();
    let mut h = open(&mut vfs, "t");
    assert_eq!(vfs.write(&mut h, 0, &vec![1u8; 4096]), Ok(4096));
    assert_eq!(vfs.write(&mut h, 4096, &vec![2u8; 100]), Ok(100));
    assert_eq!(vfs.truncate(&mut h, 0), Ok(()));
    assert_eq!(vfs.file_size(&h), Ok(0));
    assert_eq!(vfs.read(&h, 0, 10), Ok(Vec::new()));
}

#[test]
fn delete_removes_pages_and_marker() {
    let mut vfs = SlatedbVfs::new();
    let mut h = open(&mut vfs, "t");
    assert_eq!(vfs.access(&"t".to_string()), Ok(true));
    assert_eq!(vfs.write(&mut h, 0, b"x"), Ok(1));
    assert_eq!(vfs.delete(&"t".to_string()), Ok(()));
    assert_eq!(vfs.access(&"t".to_string()), Ok(false));
    assert_eq!(vfs.file_size(&h), Ok(0));
}

#[test]
fn atomic_batch_commit_applies_writes_in_order() {
    let mut vfs = SlatedbVfs::new();
    let mut h = open(&mut vfs, "t");
    assert_eq!(vfs.file_control(&mut h, SQLITE_FCNTL_BEGIN_ATOMIC_WRITE), Ok(()));
    // Three overlapping writes to the same page; the later ones override.
    assert_eq!(vfs.write(&mut h, 0, &vec![1u8; 8]), Ok(8));
    assert_eq!(vfs.write(&mut h, 4, &vec![2u8; 8]), Ok(8));
    assert_eq!(vfs.write(&mut h, 2, &vec![3u8; 4]), Ok(4));
    // Nothing is visible before the commit.
    assert_eq!(vfs.read(&h, 0, 12), Ok(Vec::new()));
    assert_eq!(vfs.file_control(&mut h, SQLITE_FCNTL_COMMIT_ATOMIC_WRITE), Ok(()));
    let expect = vec![1u8, 1, 3, 3, 3, 3, 2, 2, 2, 2, 2, 2];
    assert_eq!(vfs.read(&h, 0, 12), Ok(expect));
}

#[test]
fn atomic_batch_commit_spans_pages_atomically() {
    let mut vfs = SlatedbVfs::new();
    let mut h = open(&mut vfs, "t");
    assert_eq!(vfs.file_control(&mut h, SQLITE_FCNTL_BEGIN_ATOMIC_WRITE), Ok(()));
    assert_eq!(vfs.write(&mut h, 0, &vec![5u8; 16]), Ok(16));
    assert_eq!(vfs.write(&mut h, 4096, &vec![6u8; 16]), Ok(16));
    assert_eq!(vfs.file_control(&mut h, SQLITE_FCNTL_COMMIT_ATOMIC_WRITE), Ok(()));
    assert_eq!(vfs.read(&h, 0, 16), Ok(vec![5u8; 16]));
    assert_eq!(vfs.read(&h, 4096, 16), Ok(vec![6u8; 16]));
}

#[test]
fn atomic_batch_rollback_leaves_the_file_unchanged() {
    let mut vfs = SlatedbVfs::new();
    let mut h = open(&mut vfs, "t");
    assert_eq!(vfs.write(&mut h, 0, b"before"), Ok(6));
    assert_eq!(vfs.file_control(&mut h, SQLITE_FCNTL_BEGIN_ATOMIC_WRITE), Ok(()));
    assert_eq!(vfs.write(&mut h, 0, b"AFTER!"), Ok(6));
    assert_eq!(vfs.file_control(&mut h, SQLITE_FCNTL_ROLLBACK_ATOMIC_WRITE), Ok(()));
    assert_eq!(vfs.read(&h, 0, 6), Ok(b"before".to_vec()));
    // A later write goes straight to the store again.
    assert_eq!(vfs.write(&mut h, 0, b"direct"), Ok(6));
    assert_eq!(vfs.read(&h, 0, 6), Ok(b"direct".to_vec()));
}

#[test]
fn empty_batch_commits_as_a_no_op() {
    let mut vfs = SlatedbVfs::new();
    let mut h = open(&mut vfs, "t");
    assert_eq!(vfs.write(&mut h, 0, b"keep"), Ok(4));
    assert_eq!(vfs.file_control(&mut h, SQLITE_FCNTL_BEGIN_ATOMIC_WRITE), Ok(()));
    assert_eq!(vfs.file_control(&mut h, SQLITE_FCNTL_COMMIT_ATOMIC_WRITE), Ok(()));
    assert_eq!(vfs.read(&h, 0, 4), Ok(b"keep".to_vec()));
}

#[test]
fn unknown_file_control_opcode_is_not_found() {
    let mut vfs = SlatedbVfs::new();
    let mut h = open(&mut vfs, "t");
    assert_eq!(vfs.file_control(&mut h, 999), Err(SQLITE_NOTFOUND));
}

#[test]
fn handles_get_fresh_increasing_ids() {
    let mut vfs = SlatedbVfs::new();
    let h1 = open(&mut vfs, "a");
    let h2 = open(&mut vfs, "b");
    assert_eq!(h1.handle_id, 1);
    assert_eq!(h2.handle_id, 2);
    assert_eq!(h1.path, "a");
    assert!(!h1.readonly);
    assert!(!h1.in_memory());
}

#[test]
fn readonly_open_is_supported_with_point_in_time_reads() {
    let mut vfs = SlatedbVfs::new();
    let h = vfs.open(&"r".to_string(), true).expect("readonly open");
    assert!(h.readonly);
    let _ = SQLITE_CANTOPEN;
}

#[test]
fn pragma_answers_only_the_adapter_name() {
    let vfs = SlatedbVfs::new();
    let mut h = SlatedbVfsHandle::new("t".to_string(), false, 1);
    let answer = vfs.pragma(&mut h, &"slatedb_vfs".to_string());
    assert_eq!(answer.unwrap(), Some("slatedb_vfs".to_string()));
    let missing = vfs.pragma(&mut h, &"page_size".to_string());
    assert!(matches!(missing, Err(PragmaErr::NotFound)));
}

#[test]
fn device_characteristics_include_batch_atomic() {
    let vfs = SlatedbVfs::new();
    // Atomic | powersafe-overwrite | safe-append | sequential, plus
    // batch-atomic.
    assert_eq!(vfs.device_characteristics(), 0x1 | 0x1000 | 0x200 | 0x400 | 0x4000);
    assert_eq!(vfs.sector_size(), 4096);
}

#[test]
fn check_reserved_lock_sees_reserved_and_higher() {
    let mut vfs = SlatedbVfs::new();
    let mut h = open(&mut vfs, "t");
    assert_eq!(vfs.check_reserved_lock(&h), Ok(0));
    assert_eq!(vfs.lock(&mut h, slatedb_vfs::lock_manager::LockLevel::Shared), Ok(()));
    assert_eq!(vfs.check_reserved_lock(&h), Ok(0));
    assert_eq!(vfs.lock(&mut h, slatedb_vfs::lock_manager::LockLevel::Reserved), Ok(()));
    assert_eq!(vfs.check_reserved_lock(&h), Ok(1));
}

#[test]
fn sync_succeeds_on_the_in_process_store() {
    let mut vfs = SlatedbVfs::new();
    let h = open(&mut vfs, "t");
    assert_eq!(vfs.sync(&h), Ok(()));
}

#[test]
fn close_releases_the_handle() {
    let mut vfs = SlatedbVfs::new();
    let mut h = open(&mut vfs, "t");
    assert_eq!(vfs.lock(&mut h, slatedb_vfs::lock_manager::LockLevel::Shared), Ok(()));
    assert_eq!(vfs.unlock(&mut h, slatedb_vfs::lock_manager::LockLevel::Unlocked), Ok(()));
    assert_eq!(vfs.close(h), Ok(()));
}

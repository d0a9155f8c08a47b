//! Scenario tests of the five-level lock protocol.

use slatedb_vfs::lock_manager::{LockLevel, LockManager, VfsFileState};
use slatedb_vfs::sqlite_codes::SQLITE_BUSY;

fn path(s: &str) -> String {
    s.to_string()
}

#[test]
fn lock_level_codes_follow_the_protocol_order() {
    assert_eq!(LockLevel::Unlocked.code(), 0);
    assert_eq!(LockLevel::Shared.code(), 1);
    assert_eq!(LockLevel::Reserved.code(), 2);
    assert_eq!(LockLevel::Pending.code(), 3);
    assert_eq!(LockLevel::Exclusive.code(), 4);
}

#[test]
fn exclusive_excludes_every_other_lock() {
    let mut lm = LockManager::new();
    let db = path("main.db");
    assert_eq!(lm.lock(&db, 1, LockLevel::Exclusive), Ok(()));
    // No other handle may take any lock at or above Shared.
    assert_eq!(lm.lock(&db, 2, LockLevel::Shared), Err(SQLITE_BUSY));
    assert_eq!(lm.lock(&db, 2, LockLevel::Reserved), Err(SQLITE_BUSY));
    assert_eq!(lm.lock(&db, 2, LockLevel::Exclusive), Err(SQLITE_BUSY));
    assert_eq!(lm.get_global_lock_level(&db).code(), LockLevel::Exclusive.code());
}

#[test]
fn multiple_shared_locks_coexist() {
    let mut lm = LockManager::new();
    let db = path("main.db");
    assert_eq!(lm.lock(&db, 1, LockLevel::Shared), Ok(()));
    assert_eq!(lm.lock(&db, 2, LockLevel::Shared), Ok(()));
    assert_eq!(lm.get_global_lock_level(&db).code(), LockLevel::Shared.code());
    // A third handle still gets Shared while one holder has upgraded to
    // Reserved.
    assert_eq!(lm.lock(&db, 1, LockLevel::Reserved), Ok(()));
    assert_eq!(lm.lock(&db, 3, LockLevel::Shared), Ok(()));
    assert_eq!(lm.get_global_lock_level(&db).code(), LockLevel::Reserved.code());
}

#[test]
fn busy_on_exclusive_while_another_holds_shared() {
    let mut lm = LockManager::new();
    let db = path("main.db");
    assert_eq!(lm.lock(&db, 1, LockLevel::Shared), Ok(()));
    assert_eq!(lm.lock(&db, 2, LockLevel::Exclusive), Err(SQLITE_BUSY));
    // The sole shared holder itself may upgrade.
    assert_eq!(lm.lock(&db, 1, LockLevel::Exclusive), Ok(()));
}

#[test]
fn busy_on_shared_while_pending() {
    let mut st = VfsFileState::new();
    assert_eq!(st.lock(7, LockLevel::Pending), Ok(()));
    assert_eq!(st.lock(8, LockLevel::Shared), Err(SQLITE_BUSY));
}

#[test]
fn reserved_needs_shared_base() {
    let mut lm = LockManager::new();
    let db = path("main.db");
    assert_eq!(lm.lock(&db, 1, LockLevel::Shared), Ok(()));
    assert_eq!(lm.lock(&db, 1, LockLevel::Reserved), Ok(()));
    // A second reservation is refused while the first stands.
    assert_eq!(lm.lock(&db, 2, LockLevel::Reserved), Err(SQLITE_BUSY));
}

#[test]
fn unlock_downgrades_and_releases() {
    let mut lm = LockManager::new();
    let db = path("main.db");
    assert_eq!(lm.lock(&db, 1, LockLevel::Shared), Ok(()));
    assert_eq!(lm.lock(&db, 1, LockLevel::Reserved), Ok(()));
    assert_eq!(lm.unlock(&db, 1, LockLevel::Shared), Ok(()));
    assert_eq!(lm.get_global_lock_level(&db).code(), LockLevel::Shared.code());
    assert_eq!(lm.unlock(&db, 1, LockLevel::Unlocked), Ok(()));
    assert_eq!(lm.get_global_lock_level(&db).code(), LockLevel::Unlocked.code());
}

#[test]
fn cleanup_after_all_handles_unlock_and_close() {
    let mut lm = LockManager::new();
    let db = path("main.db");
    assert_eq!(lm.lock(&db, 1, LockLevel::Shared), Ok(()));
    assert_eq!(lm.lock(&db, 2, LockLevel::Shared), Ok(()));
    assert_eq!(lm.unlock(&db, 1, LockLevel::Unlocked), Ok(()));
    assert_eq!(lm.unlock(&db, 2, LockLevel::Unlocked), Ok(()));
    lm.remove_handle(&db, 1);
    lm.remove_handle(&db, 2);
    // Nothing is left behind: the file reads as fully unlocked, and a fresh
    // handle may take Exclusive at once.
    assert_eq!(lm.get_global_lock_level(&db).code(), LockLevel::Unlocked.code());
    assert_eq!(lm.lock(&db, 3, LockLevel::Exclusive), Ok(()));
}

#[test]
fn closing_a_handle_that_still_holds_a_lock_keeps_the_lock() {
    let mut lm = LockManager::new();
    let db = path("main.db");
    assert_eq!(lm.lock(&db, 1, LockLevel::Shared), Ok(()));
    lm.remove_handle(&db, 1);
    // The defensive no-op: the lock was not released before close.
    assert_eq!(lm.get_global_lock_level(&db).code(), LockLevel::Shared.code());
}

#[test]
fn locks_on_distinct_files_do_not_interfere() {
    let mut lm = LockManager::new();
    let a = path("a.db");
    let b = path("b.db");
    assert_eq!(lm.lock(&a, 1, LockLevel::Exclusive), Ok(()));
    assert_eq!(lm.lock(&b, 2, LockLevel::Exclusive), Ok(()));
    assert_eq!(lm.get_global_lock_level(&a).code(), LockLevel::Exclusive.code());
    assert_eq!(lm.get_global_lock_level(&b).code(), LockLevel::Exclusive.code());
}

#[test]
fn max_lock_is_the_global_level() {
    let mut st = VfsFileState::new();
    assert_eq!(st.max_lock().code(), LockLevel::Unlocked.code());
    assert_eq!(st.lock(1, LockLevel::Shared), Ok(()));
    assert_eq!(st.lock(2, LockLevel::Shared), Ok(()));
    assert_eq!(st.max_lock().code(), LockLevel::Shared.code());
    assert_eq!(st.lock(1, LockLevel::Reserved), Ok(()));
    assert_eq!(st.max_lock().code(), LockLevel::Reserved.code());
    assert_eq!(st.max_lock().code(), st.global_level().code());
    assert_eq!(st.unlock(1, LockLevel::Unlocked), Ok(()));
    assert_eq!(st.max_lock().code(), LockLevel::Shared.code());
}

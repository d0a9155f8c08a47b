//! The per-file hierarchical lock manager: an in-process registry, keyed by
//! file path, of per-handle lock levels and a derived global level per file.
//!
//! It emulates the five-level SQLite locking protocol for multiple handles
//! that share one logical file inside one process.  A denied request returns
//! the busy code immediately; nothing blocks.  The registry maintains three
//! invariants: handle ids are recorded at most once per file, the global
//! level of a file equals the maximum level held by any of its handles, and
//! while one handle holds `Exclusive` every other handle of that file holds
//! `Unlocked`.

use vstd::prelude::*;

use crate::smap::{
    find_skey, lemma_skey_absent, lemma_skey_index, lemma_skey_push_after_erase,
    lemma_skey_remove, lemma_skey_some, lemma_skey_uniq_remove, skey_get, skey_map, skey_uniq,
};
use crate::sqlite_codes::SQLITE_BUSY;

verus! {

/// The five SQLite lock levels, ordered
/// `Unlocked < Shared < Reserved < Pending < Exclusive`.
#[derive(Clone, Copy, Debug, PartialEq, Eq, Structural)]
pub enum LockLevel {
    /// No lock is held; the file may be neither read nor written.
    Unlocked,
    /// The file may be read; many handles can hold `Shared` at once.
    Shared,
    /// A shared lock with the intention to upgrade; at most one at a time.
    Reserved,
    /// An upgrade to `Exclusive` in progress; no new shared locks.
    Pending,
    /// The file may be read and written; no other lock can coexist.
    Exclusive,
}

impl LockLevel {
    /// Numeric rank of the level; coincides with SQLite's lock-level codes.
    pub open spec fn rank(self) -> int {
        match self {
            LockLevel::Unlocked => 0,
            LockLevel::Shared => 1,
            LockLevel::Reserved => 2,
            LockLevel::Pending => 3,
            LockLevel::Exclusive => 4,
        }
    }

    /// The level's numeric code, as SQLite passes it across the VFS boundary.
    pub fn code(self) -> (r: i32)
        ensures
            r == self.rank(),
    {
        match self {
            LockLevel::Unlocked => 0,
            LockLevel::Shared => 1,
            LockLevel::Reserved => 2,
            LockLevel::Pending => 3,
            LockLevel::Exclusive => 4,
        }
    }
}

/// The level a handle id is recorded at in an association list, taking the
/// latest entry when several carry the same id.
pub open spec fn hget(s: Seq<(u64, LockLevel)>, h: u64) -> Option<LockLevel>
    decreases s.len(),
{
    if s.len() == 0 {
        None
    } else if s.last().0 == h {
        Some(s.last().1)
    } else {
        hget(s.drop_last(), h)
    }
}

/// Each handle id occurs at most once.
pub open spec fn huniq(s: Seq<(u64, LockLevel)>) -> bool {
    forall|i: int, j: int| 0 <= i < j < s.len() ==> s[i].0 != s[j].0
}

/// The per-handle lock levels of a file, as a map from handle id to level.
pub open spec fn holders_of(s: Seq<(u64, LockLevel)>) -> Map<u64, LockLevel> {
    Map::new(|h: u64| hget(s, h) is Some, |h: u64| hget(s, h).unwrap())
}

/// `l` bounds every recorded level and is attained unless it is `Unlocked`:
/// exactly the derived "global" level of a file.
pub open spec fn is_holders_max(m: Map<u64, LockLevel>, l: LockLevel) -> bool {
    &&& forall|k: u64| m.contains_key(k) ==> m[k].rank() <= l.rank()
    &&& (l == LockLevel::Unlocked || exists|k: u64| m.contains_key(k) && m[k] == l)
}

/// While one handle holds `Exclusive`, every other handle holds `Unlocked`.
pub open spec fn excl_invariant(m: Map<u64, LockLevel>) -> bool {
    forall|k1: u64, k2: u64|
        m.contains_key(k1) && m.contains_key(k2) && k1 != k2 && m[k1] == LockLevel::Exclusive
            ==> m[k2] == LockLevel::Unlocked
}

/// Whether a lock request by handle `h` for level `req` is granted, given
/// the file's current global level and per-handle levels.  The cases are
/// tried in order: from `Unlocked` any level can be taken; `Shared` joins
/// other shared holders and is admitted beside a `Reserved` holder but not
/// once the file is `Pending`; `Reserved` is granted only from `Shared`;
/// `Exclusive` only while no other handle holds any lock; nothing is granted
/// while the file is `Exclusive`.  Remaining combinations are accepted as
/// no-ops.
pub open spec fn lock_granted(
    global: LockLevel,
    holders: Map<u64, LockLevel>,
    h: u64,
    req: LockLevel,
) -> bool {
    if global == LockLevel::Unlocked {
        true
    } else if global == LockLevel::Shared && req == LockLevel::Shared {
        true
    } else if req == LockLevel::Reserved {
        global == LockLevel::Shared
    } else if global == LockLevel::Reserved && req == LockLevel::Shared {
        true
    } else if global == LockLevel::Pending && req == LockLevel::Shared {
        false
    } else if req == LockLevel::Exclusive {
        forall|k: u64| holders.contains_key(k) && k != h ==> holders[k] == LockLevel::Unlocked
    } else if global == LockLevel::Exclusive {
        false
    } else {
        true
    }
}

/// A granted request that records nothing: the remaining combinations of the
/// transition table, accepted without touching the file's state.
pub open spec fn lock_is_noop(global: LockLevel, req: LockLevel) -> bool {
    &&& global != LockLevel::Unlocked
    &&& global != LockLevel::Exclusive
    &&& (req == LockLevel::Unlocked || req == LockLevel::Pending)
}

/// Whether an unlock request changes anything: the handle must currently
/// hold a level above the requested one, and only `Unlocked` and `Shared`
/// can be the target of a release.
pub open spec fn unlock_applies(
    holders: Map<u64, LockLevel>,
    h: u64,
    level: LockLevel,
) -> bool {
    let own = if holders.contains_key(h) {
        holders[h]
    } else {
        LockLevel::Unlocked
    };
    own.rank() > level.rank() && (level == LockLevel::Unlocked || level == LockLevel::Shared)
}

/// The per-handle levels after an unlock request.
pub open spec fn holders_after_unlock(
    holders: Map<u64, LockLevel>,
    h: u64,
    level: LockLevel,
) -> Map<u64, LockLevel> {
    if unlock_applies(holders, h, level) {
        if level == LockLevel::Unlocked {
            holders.remove(h)
        } else {
            holders.insert(h, level)
        }
    } else {
        holders
    }
}

/// Whether closing handle `h` drops it from the file's registry: only a
/// handle that holds no lock is dropped.
pub open spec fn close_drops_handle(holders: Map<u64, LockLevel>, h: u64) -> bool {
    !holders.contains_key(h) || holders[h] == LockLevel::Unlocked
}

/// The lock state of one file: the derived global level plus the level each
/// handle holds.
pub struct VfsFileState {
    global_lock: LockLevel,
    handles: Vec<(u64, LockLevel)>,
}

impl VfsFileState {
    /// The file's global lock level.
    pub closed spec fn global(&self) -> LockLevel {
        self.global_lock
    }

    /// The level each handle currently holds.
    pub closed spec fn holders(&self) -> Map<u64, LockLevel> {
        holders_of(self.handles@)
    }

    /// Well-formedness: unique handle ids, the global level is the maximum
    /// held level, and `Exclusive` excludes every other lock.
    pub closed spec fn wf(&self) -> bool {
        &&& huniq(self.handles@)
        &&& is_holders_max(self.holders(), self.global_lock)
        &&& excl_invariant(self.holders())
    }

    /// A fresh lock state: no handles, global level `Unlocked`.
    pub fn new() -> (r: Self)
        ensures
            r.wf(),
            r.holders() == Map::<u64, LockLevel>::empty(),
            r.global() == LockLevel::Unlocked,
    {
        let r = VfsFileState { global_lock: LockLevel::Unlocked, handles: Vec::new() };
        proof {
            assert(r.holders() =~= Map::<u64, LockLevel>::empty());
        }
        r
    }

    /// The file's global lock level.
    pub fn global_level(&self) -> (r: LockLevel)
        ensures
            r == self.global(),
    {
        self.global_lock
    }

    /// The standing invariant of every file: the global level always equals
    /// the maximum level held by any handle (`Unlocked` when none holds
    /// one).  Exported so callers can connect the holder map of a post-state
    /// to its global level.
    pub proof fn lemma_global_is_max(&self)
        requires
            self.wf(),
        ensures
            is_holders_max(self.holders(), self.global()),
    {
    }

    /// The maximum level held by any handle, `Unlocked` when none is
    /// recorded: the value the global level is recomputed to.
    pub fn max_lock(&self) -> (r: LockLevel)
        requires
            self.wf(),
        ensures
            is_holders_max(self.holders(), r),
            r == self.global(),
    {
        let mut m = LockLevel::Unlocked;
        let mut i: usize = 0;
        while i < self.handles.len()
            invariant
                huniq(self.handles@),
                i <= self.handles@.len(),
                forall|j: int| 0 <= j < i ==> self.handles@[j].1.rank() <= m.rank(),
                m == LockLevel::Unlocked || exists|j: int|
                    0 <= j < i && self.handles@[j].1 == m,
            decreases self.handles@.len() - i,
        {
            if m.code() < self.handles[i].1.code() {
                m = self.handles[i].1;
            }
            i += 1;
        }
        proof {
            lemma_seq_max_to_map(self.handles@, m);
            lemma_holders_max_unique(self.holders(), m, self.global_lock);
        }
        m
    }

    fn find_handle(&self, h: u64) -> (r: Option<usize>)
        ensures
            match r {
                Some(i) => i < self.handles@.len() && self.handles@[i as int].0 == h,
                None => forall|i: int| 0 <= i < self.handles@.len() ==> self.handles@[i].0 != h,
            },
    {
        let mut i: usize = 0;
        while i < self.handles.len()
            invariant
                i <= self.handles@.len(),
                forall|j: int| 0 <= j < i ==> self.handles@[j].0 != h,
            decreases self.handles@.len() - i,
        {
            if self.handles[i].0 == h {
                return Some(i);
            }
            i += 1;
        }
        None
    }

    /// The level handle `h` holds, `Unlocked` when it holds none.
    pub fn held_level(&self, h: u64) -> (r: LockLevel)
        requires
            self.wf(),
        ensures
            r == if self.holders().contains_key(h) {
                self.holders()[h]
            } else {
                LockLevel::Unlocked
            },
    {
        match self.find_handle(h) {
            Some(i) => {
                proof {
                    lemma_hget_index(self.handles@, i as int);
                }
                self.handles[i].1
            },
            None => {
                proof {
                    lemma_hget_absent(self.handles@, h);
                }
                LockLevel::Unlocked
            },
        }
    }

    /// Record handle `h` at level `l`, replacing any earlier record.
    fn upsert(&mut self, h: u64, l: LockLevel)
        requires
            huniq(old(self).handles@),
        ensures
            huniq(final(self).handles@),
            final(self).holders() == old(self).holders().insert(h, l),
            final(self).global_lock == old(self).global_lock,
            final(self).global() == old(self).global(),
    {
        let ghost s0 = self.handles@;
        match self.find_handle(h) {
            Some(i) => {
                self.handles.remove(i);
                let ghost s1 = self.handles@;
                self.handles.push((h, l));
                proof {
                    lemma_huniq_remove(s0, i as int);
                    assert forall|k: u64| true implies #[trigger] hget(s1, k) == (
                        if k == h { None::<LockLevel> } else { hget(s0, k) }
                    ) by {
                        lemma_hget_remove(s0, i as int, k);
                    }
                    lemma_push_after_erase(s0, s1, h, l);
                }
            },
            None => {
                let ghost s1 = self.handles@;
                self.handles.push((h, l));
                proof {
                    assert forall|k: u64| true implies #[trigger] hget(s1, k) == (
                        if k == h { None::<LockLevel> } else { hget(s0, k) }
                    ) by {
                        if k == h {
                            lemma_hget_absent(s0, h);
                        }
                    }
                    lemma_push_after_erase(s0, s1, h, l);
                }
            },
        }
    }

    /// Drop handle `h` from the records, if present.
    fn drop_handle(&mut self, h: u64)
        requires
            huniq(old(self).handles@),
        ensures
            huniq(final(self).handles@),
            final(self).holders() == old(self).holders().remove(h),
            final(self).global_lock == old(self).global_lock,
            final(self).handles@.len() == 0 <==> final(self).holders().dom() =~= Set::<
                u64,
            >::empty(),
            final(self).handles@.len() == 0 ==> old(self).holders().dom().subset_of(
                Set::empty().insert(h),
            ),
    {
        let ghost s0 = self.handles@;
        match self.find_handle(h) {
            Some(i) => {
                self.handles.remove(i);
                proof {
                    lemma_huniq_remove(s0, i as int);
                    assert forall|k: u64| true implies hget(self.handles@, k) == (
                        if k == h { None::<LockLevel> } else { hget(s0, k) }
                    ) by {
                        lemma_hget_remove(s0, i as int, k);
                    }
                    assert(holders_of(self.handles@) =~= holders_of(s0).remove(h));
                }
            },
            None => {
                proof {
                    lemma_hget_absent(s0, h);
                    assert(holders_of(self.handles@) =~= holders_of(s0).remove(h));
                }
            },
        }
        proof {
            lemma_holders_empty(self.handles@);
            if self.handles@.len() == 0 {
                assert forall|k: u64| old(self).holders().dom().contains(k) implies Set::<
                    u64,
                >::empty().insert(h).contains(k) by {
                    if k != h {
                        assert(final(self).holders().contains_key(k));
                    }
                }
            }
        }
    }

    /// Recompute the global level as the maximum held level.
    fn recompute_global(&mut self)
        requires
            huniq(old(self).handles@),
        ensures
            final(self).handles@ == old(self).handles@,
            final(self).holders() == old(self).holders(),
            is_holders_max(final(self).holders(), final(self).global_lock),
            final(self).global() == final(self).global_lock,
    {
        let mut m = LockLevel::Unlocked;
        let mut i: usize = 0;
        while i < self.handles.len()
            invariant
                i <= self.handles@.len(),
                forall|j: int| 0 <= j < i ==> self.handles@[j].1.rank() <= m.rank(),
                m == LockLevel::Unlocked || exists|j: int|
                    0 <= j < i && self.handles@[j].1 == m,
            decreases self.handles@.len() - i,
        {
            if m.code() < self.handles[i].1.code() {
                m = self.handles[i].1;
            }
            i += 1;
        }
        proof {
            lemma_seq_max_to_map(self.handles@, m);
        }
        self.global_lock = m;
    }

    /// Handle `h` requests lock level `new_lock`.  A denied request returns
    /// the busy code and leaves the state untouched; a granted one records
    /// the handle at the new level (or, for the table's residual no-op
    /// combinations, records nothing) and rederives the global level.
    pub fn lock(&mut self, h: u64, new_lock: LockLevel) -> (r: Result<(), i32>)
        requires
            old(self).wf(),
        ensures
            final(self).wf(),
            is_holders_max(final(self).holders(), final(self).global()),
            r is Ok <==> lock_granted(old(self).global(), old(self).holders(), h, new_lock),
            r is Err ==> r == Err::<(), i32>(SQLITE_BUSY) && *final(self) == *old(self),
            r is Ok ==> final(self).holders() == (
                if lock_is_noop(old(self).global(), new_lock) {
                    old(self).holders()
                } else {
                    old(self).holders().insert(h, new_lock)
                }
            ),
            r is Ok && !lock_is_noop(old(self).global(), new_lock)
                ==> final(self).holders()[h] == new_lock,
    {
        let granted: bool = match (self.global_lock, new_lock) {
            (LockLevel::Unlocked, _) => true,
            (LockLevel::Shared, LockLevel::Shared) => true,
            (_, LockLevel::Reserved) => {
                if self.global_lock == LockLevel::Shared {
                    true
                } else {
                    return Err(SQLITE_BUSY);
                }
            },
            (LockLevel::Reserved, LockLevel::Shared) => true,
            (LockLevel::Pending, LockLevel::Shared) => {
                return Err(SQLITE_BUSY);
            },
            (_, LockLevel::Exclusive) => {
                if self.others_hold_locks(h) {
                    return Err(SQLITE_BUSY);
                } else {
                    true
                }
            },
            (LockLevel::Exclusive, _) => {
                return Err(SQLITE_BUSY);
            },
            (_, _) => {
                // Accepted without recording anything: releasing or moving
                // to Pending goes through unlock, not lock.
                return Ok(());
            },
        };
        assert(lock_granted(self.global(), self.holders(), h, new_lock));
        proof {
            if self.global_lock == LockLevel::Unlocked {
                lemma_max_unlocked_all_unlocked(self.holders(), self.global_lock);
            }
        }
        let ghost m0 = self.holders();
        let ghost g0 = self.global_lock;
        self.upsert(h, new_lock);
        self.recompute_global();
        proof {
            // Exclusion is preserved: either everything else was unlocked
            // (fresh file or exclusive grant), or the file was at most
            // Reserved, so nothing held Exclusive before or after.
            assert(excl_invariant(self.holders())) by {
                assert forall|k1: u64, k2: u64|
                    self.holders().contains_key(k1) && self.holders().contains_key(k2) && k1 != k2
                        && self.holders()[k1] == LockLevel::Exclusive implies self.holders()[k2]
                    == LockLevel::Unlocked by {
                    if k1 != h {
                        assert(m0.contains_key(k1) && m0[k1] == LockLevel::Exclusive);
                        assert(m0[k1].rank() <= g0.rank());
                        assert(g0 == LockLevel::Exclusive);
                        assert(false);
                    } else {
                        assert(new_lock == LockLevel::Exclusive);
                        if g0 != LockLevel::Unlocked {
                            assert(m0.contains_key(k2) ==> m0[k2] == LockLevel::Unlocked);
                        }
                    }
                }
            }
        }
        Ok(())
    }

    fn others_hold_locks(&self, h: u64) -> (r: bool)
        requires
            huniq(self.handles@),
        ensures
            r == exists|k: u64|
                self.holders().contains_key(k) && k != h && self.holders()[k]
                    != LockLevel::Unlocked,
    {
        let mut i: usize = 0;
        let mut found = false;
        while i < self.handles.len()
            invariant
                huniq(self.handles@),
                i <= self.handles@.len(),
                found == exists|j: int|
                    0 <= j < i && self.handles@[j].0 != h && self.handles@[j].1
                        != LockLevel::Unlocked,
            decreases self.handles@.len() - i,
        {
            if self.handles[i].0 != h && self.handles[i].1.code() != 0 {
                found = true;
            }
            i += 1;
        }
        proof {
            if found {
                let j = choose|j: int|
                    0 <= j < self.handles@.len() && self.handles@[j].0 != h && self.handles@[j].1
                        != LockLevel::Unlocked;
                lemma_hget_index(self.handles@, j);
                let k = self.handles@[j].0;
                assert(self.holders().contains_key(k) && k != h && self.holders()[k]
                    != LockLevel::Unlocked);
            } else {
                assert forall|k: u64|
                    self.holders().contains_key(k) && k != h implies self.holders()[k]
                    == LockLevel::Unlocked by {
                    lemma_hget_some(self.handles@, k);
                    let j = choose|j: int|
                        0 <= j < self.handles@.len() && self.handles@[j] == (
                            k,
                            hget(self.handles@, k).unwrap(),
                        );
                    assert(self.handles@[j].0 != h);
                }
            }
        }
        found
    }

    /// Handle `h` releases down to `level`.  Only a handle holding more than
    /// the requested level changes anything: it is recorded at the lower
    /// level, or dropped entirely when releasing to `Unlocked`, and the
    /// global level is rederived.  Unlock never fails.
    pub fn unlock(&mut self, h: u64, level: LockLevel) -> (r: Result<(), i32>)
        requires
            old(self).wf(),
        ensures
            final(self).wf(),
            is_holders_max(final(self).holders(), final(self).global()),
            r == Ok::<(), i32>(()),
            final(self).holders() == holders_after_unlock(old(self).holders(), h, level),
    {
        let own = self.held_level(h);
        if own.code() > level.code() && (level.code() == 0 || level.code() == 1) {
            let ghost m0 = self.holders();
            assert(level == LockLevel::Unlocked || level == LockLevel::Shared);
            if level.code() == 0 {
                self.drop_handle(h);
            } else {
                self.upsert(h, level);
            }
            self.recompute_global();
            proof {
                assert(excl_invariant(self.holders())) by {
                    assert forall|k1: u64, k2: u64|
                        self.holders().contains_key(k1) && self.holders().contains_key(k2) && k1
                            != k2 && self.holders()[k1] == LockLevel::Exclusive implies self
                        .holders()[k2] == LockLevel::Unlocked by {
                        assert(m0.contains_key(k1) && m0[k1] == LockLevel::Exclusive);
                    }
                }
            }
        }
        Ok(())
    }

    /// Drop handle `h` on close if it holds no lock; report whether the file
    /// now has no recorded handles at all.
    pub fn close_handle(&mut self, h: u64) -> (now_empty: bool)
        requires
            old(self).wf(),
        ensures
            final(self).wf(),
            is_holders_max(final(self).holders(), final(self).global()),
            final(self).holders() == if close_drops_handle(old(self).holders(), h) {
                old(self).holders().remove(h)
            } else {
                old(self).holders()
            },
            now_empty ==> close_drops_handle(old(self).holders(), h),
            now_empty <==> final(self).holders().dom() =~= Set::<u64>::empty(),
            now_empty ==> old(self).holders().dom().subset_of(Set::empty().insert(h)),
    {
        let own = self.held_level(h);
        let ghost m0 = self.holders();
        if own.code() == 0 {
            self.drop_handle(h);
            let now_empty = self.handles.len() == 0;
            self.recompute_global();
            proof {
                assert(excl_invariant(self.holders())) by {
                    assert forall|k1: u64, k2: u64|
                        self.holders().contains_key(k1) && self.holders().contains_key(k2) && k1
                            != k2 && self.holders()[k1] == LockLevel::Exclusive implies self
                        .holders()[k2] == LockLevel::Unlocked by {
                        assert(m0.contains_key(k1) && m0[k1] == LockLevel::Exclusive);
                    }
                }
                if !now_empty {
                    assert(!(final(self).holders().dom() =~= Set::<u64>::empty())) by {
                        lemma_holders_empty(self.handles@);
                    }
                }
            }
            now_empty
        } else {
            proof {
                lemma_holders_empty(self.handles@);
                assert(self.holders().contains_key(h));
                assert(!(self.holders().dom() =~= Set::<u64>::empty()));
            }
            false
        }
    }
}

/// The registry of lock states, keyed by file path.  All of a file's
/// handles, whichever connection they serve, meet in its single entry here.
pub struct LockManager {
    files: Vec<(String, VfsFileState)>,
}

impl LockManager {
    /// The registry as a map from file path to that file's lock state.
    pub closed spec fn files_map(&self) -> Map<Seq<char>, VfsFileState> {
        skey_map(self.files@)
    }

    /// Well-formedness: paths are registered at most once and every
    /// registered lock state is itself well-formed.
    pub closed spec fn wf(&self) -> bool {
        &&& skey_uniq(self.files@)
        &&& forall|i: int| 0 <= i < self.files@.len() ==> (#[trigger] self.files@[i].1).wf()
    }

    /// Every lock state reachable through the map view is well-formed.
    pub proof fn lemma_wf_map(&self)
        requires
            self.wf(),
        ensures
            forall|k: Seq<char>|
                self.files_map().contains_key(k) ==> (#[trigger] self.files_map()[k]).wf(),
    {
        assert forall|k: Seq<char>|
            self.files_map().contains_key(k) implies (#[trigger] self.files_map()[k]).wf() by {
            lemma_skey_some(self.files@, k);
        }
    }

    /// An empty registry.
    pub fn new() -> (r: Self)
        ensures
            r.wf(),
            r.files_map() == Map::<Seq<char>, VfsFileState>::empty(),
    {
        let r = LockManager { files: Vec::new() };
        proof {
            assert(r.files_map() =~= Map::<Seq<char>, VfsFileState>::empty());
        }
        r
    }

    /// Acquire a lock on a file for a specific handle.  The entry for the
    /// path is created on its first lock request.  A denied request returns
    /// the busy code at once rather than blocking.
    pub fn lock(&mut self, file_path: &String, handle_id: u64, level: LockLevel) -> (r: Result<
        (),
        i32,
    >)
        requires
            old(self).wf(),
        ensures
            final(self).wf(),
            ({
                let v0 = old(self).files_map();
                let v1 = final(self).files_map();
                let m0 = if v0.contains_key(file_path@) {
                    v0[file_path@].holders()
                } else {
                    Map::<u64, LockLevel>::empty()
                };
                let g0 = if v0.contains_key(file_path@) {
                    v0[file_path@].global()
                } else {
                    LockLevel::Unlocked
                };
                &&& (r is Ok <==> lock_granted(g0, m0, handle_id, level))
                &&& (r is Err ==> r == Err::<(), i32>(SQLITE_BUSY))
                &&& v1.contains_key(file_path@)
                &&& v1[file_path@].wf()
                &&& is_holders_max(v1[file_path@].holders(), v1[file_path@].global())
                &&& v1[file_path@].holders() == if r is Ok && !lock_is_noop(g0, level) {
                    m0.insert(handle_id, level)
                } else {
                    m0
                }
                &&& v1.remove(file_path@) == v0.remove(file_path@)
            }),
    {
        let ghost v0 = self.files_map();
        match find_skey(&self.files, file_path) {
            Some(i) => {
                let ghost s0 = self.files@;
                proof {
                    lemma_skey_index(s0, i as int);
                }
                let mut entry = self.files.remove(i);
                let ghost s1 = self.files@;
                let r = entry.1.lock(handle_id, level);
                self.files.push(entry);
                proof {
                    lemma_skey_uniq_remove(s0, i as int);
                    let e = self.files@.last();
                    assert(self.files@ == s1.push(e));
                    assert(e.0@ == file_path@);
                    assert forall|k: Seq<char>| true implies #[trigger] skey_get(s1, k) == (
                        if k == e.0@ { None::<VfsFileState> } else { skey_get(s0, k) }
                    ) by {
                        lemma_skey_remove(s0, i as int, k);
                    }
                    lemma_skey_push_after_erase(s0, s1, e);
                    assert(v1_insert_facts(v0, self.files_map(), file_path@, e.1));
                }
                r
            },
            None => {
                let ghost s0 = self.files@;
                let mut st = VfsFileState::new();
                let r = st.lock(handle_id, level);
                assert(r is Ok);
                self.files.push((file_path.clone(), st));
                proof {
                    let e = self.files@.last();
                    assert(self.files@ == s0.push(e));
                    assert(e.0@ == file_path@);
                    assert forall|k: Seq<char>| true implies #[trigger] skey_get(s0, k) == (
                        if k == e.0@ { None::<VfsFileState> } else { skey_get(s0, k) }
                    ) by {
                        if k == e.0@ {
                            lemma_skey_absent(s0, k);
                        }
                    }
                    lemma_skey_push_after_erase(s0, s0, e);
                    assert(v1_insert_facts(v0, self.files_map(), file_path@, e.1));
                    assert(st.holders() == Map::<u64, LockLevel>::empty().insert(
                        handle_id,
                        level,
                    ));
                }
                r
            },
        }
    }

    /// Release or downgrade a lock on a file for a specific handle.  A path
    /// without an entry is left untouched; unlock never fails.
    pub fn unlock(&mut self, file_path: &String, handle_id: u64, level: LockLevel) -> (r: Result<
        (),
        i32,
    >)
        requires
            old(self).wf(),
        ensures
            final(self).wf(),
            r == Ok::<(), i32>(()),
            ({
                let v0 = old(self).files_map();
                let v1 = final(self).files_map();
                if v0.contains_key(file_path@) {
                    &&& v1.contains_key(file_path@)
                    &&& v1[file_path@].wf()
                    &&& is_holders_max(v1[file_path@].holders(), v1[file_path@].global())
                    &&& v1[file_path@].holders() == holders_after_unlock(
                        v0[file_path@].holders(),
                        handle_id,
                        level,
                    )
                    &&& v1.remove(file_path@) == v0.remove(file_path@)
                } else {
                    v1 == v0
                }
            }),
    {
        let ghost v0 = self.files_map();
        match find_skey(&self.files, file_path) {
            Some(i) => {
                let ghost s0 = self.files@;
                proof {
                    lemma_skey_index(s0, i as int);
                }
                let mut entry = self.files.remove(i);
                let ghost s1 = self.files@;
                let r = entry.1.unlock(handle_id, level);
                self.files.push(entry);
                proof {
                    lemma_skey_uniq_remove(s0, i as int);
                    let e = self.files@.last();
                    assert(self.files@ == s1.push(e));
                    assert(e.0@ == file_path@);
                    assert forall|k: Seq<char>| true implies #[trigger] skey_get(s1, k) == (
                        if k == e.0@ { None::<VfsFileState> } else { skey_get(s0, k) }
                    ) by {
                        lemma_skey_remove(s0, i as int, k);
                    }
                    lemma_skey_push_after_erase(s0, s1, e);
                    assert(v1_insert_facts(v0, self.files_map(), file_path@, e.1));
                }
                r
            },
            None => {
                proof {
                    lemma_skey_absent(self.files@, file_path@);
                }
                Ok(())
            },
        }
    }

    /// Drop a handle entirely, called on file close.  A handle that still
    /// holds a lock is left in place (the caller should have unlocked
    /// first); once a file has no recorded handles, its whole entry leaves
    /// the registry.
    pub fn remove_handle(&mut self, file_path: &String, handle_id: u64)
        requires
            old(self).wf(),
        ensures
            final(self).wf(),
            ({
                let v0 = old(self).files_map();
                let v1 = final(self).files_map();
                if v0.contains_key(file_path@) {
                    let m0 = v0[file_path@].holders();
                    let m1 = if close_drops_handle(m0, handle_id) {
                        m0.remove(handle_id)
                    } else {
                        m0
                    };
                    if close_drops_handle(m0, handle_id) && m0.remove(handle_id).dom() =~= Set::<
                        u64,
                    >::empty() {
                        v1 == v0.remove(file_path@)
                    } else {
                        &&& v1.contains_key(file_path@)
                        &&& v1[file_path@].wf()
                        &&& is_holders_max(v1[file_path@].holders(), v1[file_path@].global())
                        &&& v1[file_path@].holders() == m1
                        &&& v1.remove(file_path@) == v0.remove(file_path@)
                    }
                } else {
                    v1 == v0
                }
            }),
    {
        let ghost v0 = self.files_map();
        match find_skey(&self.files, file_path) {
            Some(i) => {
                let ghost s0 = self.files@;
                proof {
                    lemma_skey_index(s0, i as int);
                }
                let mut entry = self.files.remove(i);
                let ghost s1 = self.files@;
                let now_empty = entry.1.close_handle(handle_id);
                proof {
                    lemma_skey_uniq_remove(s0, i as int);
                    assert forall|k: Seq<char>| true implies #[trigger] skey_get(s1, k) == (
                        if k == file_path@ { None::<VfsFileState> } else { skey_get(s0, k) }
                    ) by {
                        lemma_skey_remove(s0, i as int, k);
                    }
                }
                if now_empty {
                    proof {
                        assert(self.files_map() =~= v0.remove(file_path@));
                    }
                } else {
                    self.files.push(entry);
                    proof {
                        let e = self.files@.last();
                        assert(self.files@ == s1.push(e));
                        assert(e.0@ == file_path@);
                        assert forall|k: Seq<char>| true implies #[trigger] skey_get(s1, k) == (
                            if k == e.0@ { None::<VfsFileState> } else { skey_get(s0, k) }
                        ) by {
                            lemma_skey_remove(s0, i as int, k);
                        }
                        lemma_skey_push_after_erase(s0, s1, e);
                        assert(v1_insert_facts(v0, self.files_map(), file_path@, e.1));
                    }
                }
            },
            None => {
                proof {
                    lemma_skey_absent(self.files@, file_path@);
                }
            },
        }
    }

    /// The file's current global lock level; `Unlocked` for a file without
    /// an entry.  Answers "is there a reserved-or-higher lock on this file".
    pub fn get_global_lock_level(&self, file_path: &String) -> (r: LockLevel)
        requires
            self.wf(),
        ensures
            r == if self.files_map().contains_key(file_path@) {
                self.files_map()[file_path@].global()
            } else {
                LockLevel::Unlocked
            },
    {
        match find_skey(&self.files, file_path) {
            Some(i) => {
                proof {
                    lemma_skey_index(self.files@, i as int);
                }
                self.files[i].1.global_level()
            },
            None => {
                proof {
                    lemma_skey_absent(self.files@, file_path@);
                }
                LockLevel::Unlocked
            },
        }
    }
}

/// After inserting an entry, the registry view relates to the old one by a
/// map insert; spelled out once so each operation can assert it.
pub open spec fn v1_insert_facts(
    v0: Map<Seq<char>, VfsFileState>,
    v1: Map<Seq<char>, VfsFileState>,
    k: Seq<char>,
    st: VfsFileState,
) -> bool {
    &&& v1 == v0.insert(k, st)
    &&& v1.contains_key(k)
    &&& v1[k] == st
    &&& v1.remove(k) =~= v0.remove(k)
}

// ---------------------------------------------------------------------------
// Laws of the lock protocol.
// ---------------------------------------------------------------------------

/// Lock mutual exclusion: at most one handle holds `Exclusive` at a time,
/// and no other handle holds any lock at or above `Shared` while one holds
/// `Exclusive`.  This holds for every file of every well-formed registry.
pub proof fn lemma_exclusive_mutual_exclusion(
    lm: &LockManager,
    path: Seq<char>,
    h1: u64,
    h2: u64,
)
    requires
        lm.wf(),
        lm.files_map().contains_key(path),
        lm.files_map()[path].holders().contains_key(h1),
        lm.files_map()[path].holders()[h1] == LockLevel::Exclusive,
        lm.files_map()[path].holders().contains_key(h2),
        h2 != h1,
    ensures
        lm.files_map()[path].holders()[h2] == LockLevel::Unlocked,
        lm.files_map()[path].holders()[h2].rank() < LockLevel::Shared.rank(),
{
    lm.lemma_wf_map();
}

/// Multiple shared locks: while a file's global level is `Shared` (some
/// handles hold `Shared` and nothing higher), any further handle is granted
/// `Shared`, and afterwards both handles hold `Shared` side by side.
pub proof fn lemma_shared_locks_coexist(st: &VfsFileState, h1: u64, h2: u64)
    requires
        st.wf(),
        st.global() == LockLevel::Shared,
        st.holders().contains_key(h1),
        st.holders()[h1] == LockLevel::Shared,
        h2 != h1,
    ensures
        lock_granted(st.global(), st.holders(), h2, LockLevel::Shared),
        st.holders().insert(h2, LockLevel::Shared)[h1] == LockLevel::Shared,
        st.holders().insert(h2, LockLevel::Shared)[h2] == LockLevel::Shared,
{
}

/// Multiple shared locks beside a reservation: a handle requesting `Shared`
/// while the file stands at `Reserved` still succeeds.
pub proof fn lemma_shared_lock_beside_reserved(st: &VfsFileState, h: u64)
    requires
        st.wf(),
        st.global() == LockLevel::Reserved,
    ensures
        lock_granted(st.global(), st.holders(), h, LockLevel::Shared),
        st.holders().insert(h, LockLevel::Shared)[h] == LockLevel::Shared,
{
}

/// A maximum is unique: two levels that both bound and attain the holder
/// map are the same level.
pub proof fn lemma_holders_max_unique(m: Map<u64, LockLevel>, l1: LockLevel, l2: LockLevel)
    requires
        is_holders_max(m, l1),
        is_holders_max(m, l2),
    ensures
        l1 == l2,
{
    if l1 != LockLevel::Unlocked {
        let k = choose|k: u64| m.contains_key(k) && m[k] == l1;
        assert(l1.rank() <= l2.rank());
    }
    if l2 != LockLevel::Unlocked {
        let k = choose|k: u64| m.contains_key(k) && m[k] == l2;
        assert(l2.rank() <= l1.rank());
    }
}

/// An `Exclusive` request is granted exactly when no other handle holds any
/// lock, whatever the file's global level: from `Unlocked` everything is
/// granted (and nothing else is held), and in every other state the request
/// reaches the no-other-holder test.  A handle already holding `Exclusive`
/// is granted its re-request.
pub proof fn lemma_exclusive_grant_iff(st: &VfsFileState, h: u64)
    requires
        st.wf(),
    ensures
        lock_granted(st.global(), st.holders(), h, LockLevel::Exclusive) <==> (forall|k: u64|
            st.holders().contains_key(k) && k != h ==> st.holders()[k] == LockLevel::Unlocked),
{
    st.lemma_global_is_max();
    if st.global() == LockLevel::Unlocked {
        assert forall|k: u64|
            st.holders().contains_key(k) && k != h implies st.holders()[k]
            == LockLevel::Unlocked by {
            assert(st.holders()[k].rank() <= 0);
        }
    }
}

/// Recording a handle at a level no other level exceeds puts the file's
/// global level exactly there: the grant of `Exclusive`, or a `Shared` join
/// of a file whose holders are all at most `Shared`, fixes the post-state
/// global level.
pub proof fn lemma_global_after_upgrade(
    st: &VfsFileState,
    m0: Map<u64, LockLevel>,
    h: u64,
    l: LockLevel,
)
    requires
        st.wf(),
        st.holders() == m0.insert(h, l),
        forall|k: u64| m0.contains_key(k) ==> m0[k].rank() <= l.rank(),
    ensures
        st.global() == l,
{
    st.lemma_global_is_max();
    assert(is_holders_max(st.holders(), l)) by {
        assert(st.holders().contains_key(h) && st.holders()[h] == l);
    }
    lemma_holders_max_unique(st.holders(), l, st.global());
}

/// Recording a handle at or below the file's global level, while another
/// handle keeps attaining that level, leaves the global level unchanged: a
/// new `Shared` holder joining a `Reserved` file keeps the file `Reserved`.
pub proof fn lemma_global_after_join(
    st: &VfsFileState,
    m0: Map<u64, LockLevel>,
    g0: LockLevel,
    h: u64,
    l: LockLevel,
)
    requires
        st.wf(),
        st.holders() == m0.insert(h, l),
        is_holders_max(m0, g0),
        l.rank() <= g0.rank(),
        exists|k: u64| k != h && m0.contains_key(k) && m0[k] == g0,
    ensures
        st.global() == g0,
{
    st.lemma_global_is_max();
    assert(is_holders_max(st.holders(), g0)) by {
        let k = choose|k: u64| k != h && m0.contains_key(k) && m0[k] == g0;
        assert(st.holders().contains_key(k) && st.holders()[k] == g0);
        assert(g0 != LockLevel::Unlocked || st.holders()[k] == g0);
    }
    lemma_holders_max_unique(st.holders(), g0, st.global());
}

/// Busy correctness, exclusive side: a handle requesting `Exclusive` while
/// any other handle holds a lock at or above `Shared` is denied.
pub proof fn lemma_busy_on_exclusive_request(st: &VfsFileState, h: u64, other: u64)
    requires
        st.wf(),
        st.holders().contains_key(other),
        other != h,
        st.holders()[other].rank() >= LockLevel::Shared.rank(),
    ensures
        !lock_granted(st.global(), st.holders(), h, LockLevel::Exclusive),
{
    assert(st.holders()[other].rank() <= st.global().rank());
    assert(st.global() != LockLevel::Unlocked);
}

/// Busy correctness, pending side: a handle requesting `Shared` while the
/// file is in `Pending` is denied.
pub proof fn lemma_busy_on_shared_while_pending(st: &VfsFileState, h: u64)
    requires
        st.wf(),
        st.global() == LockLevel::Pending,
    ensures
        !lock_granted(st.global(), st.holders(), h, LockLevel::Shared),
{
}

/// Lock monotonic cleanup: once a file's last handle releases to `Unlocked`,
/// closing that handle leaves nothing behind — `unlock` empties the holder
/// map and `remove_handle` then removes the file's entry from the registry
/// (its ensures gives `v1 == v0.remove(path)` exactly under the conditions
/// established here).
pub proof fn lemma_cleanup_after_last_handle(m: Map<u64, LockLevel>, h: u64)
    requires
        m.dom().subset_of(Set::<u64>::empty().insert(h)),
    ensures
        close_drops_handle(holders_after_unlock(m, h, LockLevel::Unlocked), h),
        holders_after_unlock(m, h, LockLevel::Unlocked).remove(h).dom() =~= Set::<u64>::empty(),
{
    let m1 = holders_after_unlock(m, h, LockLevel::Unlocked);
    assert forall|k: u64| !m1.remove(h).dom().contains(k) by {
        if k != h && m1.remove(h).dom().contains(k) {
            assert(m.dom().contains(k));
            assert(Set::<u64>::empty().insert(h).contains(k));
        }
    }
}

// ---------------------------------------------------------------------------
// Association-list lemmas for the handle records.
// ---------------------------------------------------------------------------

proof fn lemma_hget_absent(s: Seq<(u64, LockLevel)>, h: u64)
    requires
        forall|i: int| 0 <= i < s.len() ==> s[i].0 != h,
    ensures
        hget(s, h) is None,
    decreases s.len(),
{
    if s.len() > 0 {
        lemma_hget_absent(s.drop_last(), h);
    }
}

/// With unique ids, the record at any index is what lookup returns.
proof fn lemma_hget_index(s: Seq<(u64, LockLevel)>, i: int)
    requires
        huniq(s),
        0 <= i < s.len(),
    ensures
        hget(s, s[i].0) == Some(s[i].1),
    decreases s.len(),
{
    if i == s.len() - 1 {
    } else {
        lemma_huniq_drop_last(s);
        lemma_hget_index(s.drop_last(), i);
    }
}

/// Any recorded id resolves to something, uniqueness not needed.
proof fn lemma_hget_index_weak(s: Seq<(u64, LockLevel)>, i: int)
    requires
        0 <= i < s.len(),
    ensures
        hget(s, s[i].0) is Some,
    decreases s.len(),
{
    if i < s.len() - 1 && s.last().0 != s[i].0 {
        lemma_hget_index_weak(s.drop_last(), i);
    }
}

proof fn lemma_hget_some(s: Seq<(u64, LockLevel)>, h: u64)
    requires
        hget(s, h) is Some,
    ensures
        exists|i: int| 0 <= i < s.len() && s[i] == (h, hget(s, h).unwrap()),
    decreases s.len(),
{
    if s.len() > 0 {
        if s.last().0 == h {
            assert(s[s.len() - 1] == (h, hget(s, h).unwrap()));
        } else {
            lemma_hget_some(s.drop_last(), h);
            let i = choose|i: int|
                0 <= i < s.drop_last().len() && s.drop_last()[i] == (
                    h,
                    hget(s.drop_last(), h).unwrap(),
                );
            assert(s[i] == (h, hget(s, h).unwrap()));
        }
    }
}

/// Appending a record for an id that is absent from the list produces the
/// inserted map.
proof fn lemma_push_after_erase(
    s0: Seq<(u64, LockLevel)>,
    s1: Seq<(u64, LockLevel)>,
    h: u64,
    l: LockLevel,
)
    requires
        huniq(s1),
        forall|k: u64| #[trigger] hget(s1, k) == if k == h {
            None::<LockLevel>
        } else {
            hget(s0, k)
        },
    ensures
        huniq(s1.push((h, l))),
        holders_of(s1.push((h, l))) == holders_of(s0).insert(h, l),
{
    let s2 = s1.push((h, l));
    assert(s2.drop_last() =~= s1);
    assert forall|i: int, j: int| 0 <= i < j < s2.len() implies s2[i].0 != s2[j].0 by {
        if j == s2.len() - 1 {
            assert(s2[i] == s1[i]);
            if s1[i].0 == h {
                lemma_hget_index_weak(s1, i);
            }
        } else {
            assert(s2[i] == s1[i] && s2[j] == s1[j]);
        }
    }
    assert forall|k: u64| true implies #[trigger] hget(s2, k) == (
        if k == h { Some(l) } else { hget(s0, k) }
    ) by {
        if k != h {
            assert(hget(s2, k) == hget(s1, k));
        }
    }
    assert(holders_of(s2) =~= holders_of(s0).insert(h, l));
}

proof fn lemma_huniq_drop_last(s: Seq<(u64, LockLevel)>)
    requires
        huniq(s),
        s.len() > 0,
    ensures
        huniq(s.drop_last()),
{
}

proof fn lemma_huniq_remove(s: Seq<(u64, LockLevel)>, i: int)
    requires
        huniq(s),
        0 <= i < s.len(),
    ensures
        huniq(s.remove(i)),
{
    assert forall|a: int, b: int|
        0 <= a < b < s.remove(i).len() implies s.remove(i)[a].0 != s.remove(i)[b].0 by {
        if a < i {
            if b < i {
                assert(s.remove(i)[a] == s[a] && s.remove(i)[b] == s[b]);
            } else {
                assert(s.remove(i)[a] == s[a] && s.remove(i)[b] == s[b + 1]);
            }
        } else {
            assert(s.remove(i)[a] == s[a + 1] && s.remove(i)[b] == s[b + 1]);
        }
    }
}

/// Removing index `i` removes exactly the id recorded there.
proof fn lemma_hget_remove(s: Seq<(u64, LockLevel)>, i: int, k: u64)
    requires
        huniq(s),
        0 <= i < s.len(),
    ensures
        hget(s.remove(i), k) == if k == s[i].0 {
            None::<LockLevel>
        } else {
            hget(s, k)
        },
    decreases s.len(),
{
    if i == s.len() - 1 {
        assert(s.remove(i) =~= s.drop_last());
        if k == s[i].0 {
            assert forall|j: int| 0 <= j < s.drop_last().len() implies s.drop_last()[j].0 != k by {
                assert(s[j] == s.drop_last()[j]);
            }
            lemma_hget_absent(s.drop_last(), k);
        }
    } else {
        let s2 = s.remove(i);
        assert(s2.last() == s.last());
        assert(s2.drop_last() =~= s.drop_last().remove(i));
        lemma_huniq_drop_last(s);
        lemma_hget_remove(s.drop_last(), i, k);
        if s.last().0 == k {
            assert(s[i].0 != k);
        }
    }
}

/// A maximum over the record list is a maximum over the holder map.
proof fn lemma_seq_max_to_map(s: Seq<(u64, LockLevel)>, m: LockLevel)
    requires
        huniq(s),
        forall|j: int| 0 <= j < s.len() ==> s[j].1.rank() <= m.rank(),
        m == LockLevel::Unlocked || exists|j: int| 0 <= j < s.len() && s[j].1 == m,
    ensures
        is_holders_max(holders_of(s), m),
{
    assert forall|k: u64| holders_of(s).contains_key(k) implies holders_of(s)[k].rank()
        <= m.rank() by {
        lemma_hget_some(s, k);
    }
    if m != LockLevel::Unlocked {
        let j = choose|j: int| 0 <= j < s.len() && s[j].1 == m;
        lemma_hget_index(s, j);
        assert(holders_of(s).contains_key(s[j].0) && holders_of(s)[s[j].0] == m);
    }
}

/// Below an `Unlocked` maximum every holder is `Unlocked`.
proof fn lemma_max_unlocked_all_unlocked(m: Map<u64, LockLevel>, g: LockLevel)
    requires
        is_holders_max(m, g),
        g == LockLevel::Unlocked,
    ensures
        forall|k: u64| m.contains_key(k) ==> m[k] == LockLevel::Unlocked,
{
    assert forall|k: u64| m.contains_key(k) implies m[k] == LockLevel::Unlocked by {
        assert(m[k].rank() <= 0);
    }
}

/// The holder map is empty exactly when the record list is.
proof fn lemma_holders_empty(s: Seq<(u64, LockLevel)>)
    ensures
        s.len() == 0 <==> holders_of(s).dom() =~= Set::<u64>::empty(),
{
    if s.len() > 0 {
        lemma_hget_index_weak(s, 0);
        assert(holders_of(s).contains_key(s[0].0));
    } else {
        assert forall|k: u64| !holders_of(s).dom().contains(k) by {}
    }
}

} // verus!

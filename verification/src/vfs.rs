//! The VFS adapter: the synchronous callback surface the embedded SQL engine
//! drives, implemented over the page store, the lock manager and the
//! batch-write coordinator.
//!
//! Every operation's contract states the exact effect on the adapter's
//! store view, its per-file batch state and its lock registry.  Byte-range
//! reads and writes address whole pages through keys of the form
//! `"{path}:page:{page_offset}"`; a file's existence is a marker entry under
//! its own path; a file's size is derived by scanning pages forward from
//! offset zero until the first missing page.

use vstd::prelude::*;
use vstd::string::StringExecFns;

use crate::handle::SlatedbVfsHandle;
use crate::kv_store::{clone_bytes, spec_apply_puts, KvStore};
use crate::lock_manager::{
    close_drops_handle, holders_after_unlock, is_holders_max, lock_granted, lock_is_noop,
    LockLevel, LockManager, VfsFileState,
};
use crate::page::{
    apply_write, page_key, page_offset_of, read_from_page, spec_apply_write, spec_page_key,
    spec_page_offset, spec_read_page, PAGE_SIZE,
};
use crate::smap::{
    find_skey, lemma_skey_absent, lemma_skey_index, lemma_skey_push_after_erase,
    lemma_skey_remove, lemma_skey_uniq_remove, skey_get, skey_map, skey_uniq,
};
use crate::sqlite_codes::{
    DEFAULT_DEVICE_CHARACTERISTICS, SQLITE_CANTOPEN, SQLITE_FCNTL_BEGIN_ATOMIC_WRITE,
    SQLITE_FCNTL_COMMIT_ATOMIC_WRITE, SQLITE_FCNTL_ROLLBACK_ATOMIC_WRITE,
    SQLITE_IOCAP_BATCH_ATOMIC, SQLITE_NOTFOUND,
};

verus! {

/// The name under which the adapter registers itself, and the one pragma it
/// answers.
pub open spec fn spec_vfs_name() -> Seq<char> {
    "slatedb_vfs"@
}

/// The adapter's registered name.
pub fn vfs_name() -> (r: &'static str)
    ensures
        r@ == spec_vfs_name(),
{
    "slatedb_vfs"
}

/// The static, read-only descriptor of the adapter's feature set.
#[derive(Clone, Debug)]
pub struct Capabilities {
    /// Whether the adapter offers atomic multi-page batch writes.
    pub atomic_batch: bool,
    /// Whether read-only opens are supported.
    pub point_in_time_reads: bool,
    /// The sector size the adapter reports.
    pub sector_size: i32,
}

/// One buffered write of an open atomic batch.
#[derive(Debug)]
pub struct BatchWrite {
    /// File-relative byte offset of the write.
    pub offset: usize,
    /// The bytes written.
    pub data: Vec<u8>,
}

/// Per-file write-batch state: whether a batch is open, and the writes
/// buffered since it was opened.  The state is file-scoped: writes from any
/// handle of the file are buffered while its batch is open.
pub struct FileState {
    batch_open: bool,
    pending_writes: Vec<BatchWrite>,
}

/// A buffered write as the specs see it: offset and bytes.
pub open spec fn write_model(w: &BatchWrite) -> (nat, Seq<u8>) {
    (w.offset as nat, w.data@)
}

impl FileState {
    /// Whether an atomic batch is open for the file.
    pub closed spec fn spec_batch_open(&self) -> bool {
        self.batch_open
    }

    /// The buffered writes, oldest first.
    pub closed spec fn pending(&self) -> Seq<(nat, Seq<u8>)> {
        Seq::new(self.pending_writes@.len(), |i: int| write_model(&self.pending_writes@[i]))
    }

    /// Every buffered write stays within the address space.
    pub open spec fn pending_fits(&self) -> bool {
        forall|i: int|
            0 <= i < self.pending().len() ==> (#[trigger] self.pending()[i]).0
                + self.pending()[i].1.len() <= usize::MAX
    }

    fn new() -> (r: Self)
        ensures
            !r.spec_batch_open(),
            r.pending() == Seq::<(nat, Seq<u8>)>::empty(),
            r.pending_fits(),
    {
        let r = FileState { batch_open: false, pending_writes: Vec::new() };
        proof {
            assert(r.pending() =~= Seq::<(nat, Seq<u8>)>::empty());
        }
        r
    }
}

/// The store contents after a single page write: the page owning `offset`
/// (or a fresh empty page) with `data` written at the in-page offset.
pub open spec fn spec_store_after_write(
    m: Map<Seq<char>, Seq<u8>>,
    path: Seq<char>,
    offset: nat,
    data: Seq<u8>,
) -> Map<Seq<char>, Seq<u8>> {
    let pk = spec_page_key(path, spec_page_offset(offset as int) as nat);
    let page0 = if m.contains_key(pk) {
        m[pk]
    } else {
        Seq::<u8>::empty()
    };
    m.insert(pk, spec_apply_write(page0, (offset as int) % (PAGE_SIZE as int), data))
}

/// The bytes a read returns: the overlap of the request with the page owning
/// `offset`, empty when that page is absent.
pub open spec fn spec_read_result(
    m: Map<Seq<char>, Seq<u8>>,
    path: Seq<char>,
    offset: nat,
    len: nat,
) -> Seq<u8> {
    let pk = spec_page_key(path, spec_page_offset(offset as int) as nat);
    if m.contains_key(pk) {
        spec_read_page(m[pk], (offset as int) % (PAGE_SIZE as int), len as int)
    } else {
        Seq::<u8>::empty()
    }
}

/// The VFS adapter: capabilities, the page store, the per-file batch-write
/// states, the handle counter, and the lock manager.
pub struct SlatedbVfs {
    capabilities: Capabilities,
    store: KvStore,
    files: Vec<(String, FileState)>,
    handle_counter: u64,
    lock_manager: LockManager,
}

impl SlatedbVfs {
    /// The page store's contents.
    pub closed spec fn store(&self) -> Map<Seq<char>, Seq<u8>> {
        self.store@
    }

    /// The number of keys the store holds.
    pub closed spec fn store_size(&self) -> nat {
        self.store.size()
    }

    /// The per-file batch-write states.
    pub closed spec fn batches(&self) -> Map<Seq<char>, FileState> {
        skey_map(self.files@)
    }

    /// The lock registry.
    pub closed spec fn locks(&self) -> Map<Seq<char>, VfsFileState> {
        self.lock_manager.files_map()
    }

    /// The id the next opened handle will get.
    pub closed spec fn next_handle(&self) -> u64 {
        self.handle_counter
    }

    /// The adapter's capability descriptor.
    pub closed spec fn caps(&self) -> Capabilities {
        self.capabilities
    }

    /// Whether an atomic batch is open for `path`.
    pub open spec fn batch_open_for(&self, path: Seq<char>) -> bool {
        self.batches().contains_key(path) && self.batches()[path].spec_batch_open()
    }

    /// The writes buffered for `path`, oldest first.
    pub open spec fn pending_for(&self, path: Seq<char>) -> Seq<(nat, Seq<u8>)> {
        if self.batches().contains_key(path) {
            self.batches()[path].pending()
        } else {
            Seq::empty()
        }
    }

    /// Well-formedness of the whole adapter.  Buffered writes always fit the
    /// address space because `write` admits them only then.
    pub closed spec fn wf(&self) -> bool {
        &&& self.store.wf()
        &&& skey_uniq(self.files@)
        &&& forall|i: int|
            0 <= i < self.files@.len() ==> (#[trigger] self.files@[i].1).pending_fits()
        &&& self.lock_manager.wf()
    }

    /// A fresh adapter over an empty store: atomic batches and point-in-time
    /// reads enabled, sector size one page, handle ids starting at one.
    pub fn new() -> (r: Self)
        ensures
            r.wf(),
            r.store() == Map::<Seq<char>, Seq<u8>>::empty(),
            r.batches() == Map::<Seq<char>, FileState>::empty(),
            r.locks() == Map::<Seq<char>, VfsFileState>::empty(),
            r.next_handle() == 1,
            r.caps().atomic_batch,
            r.caps().point_in_time_reads,
            r.caps().sector_size == 4096,
    {
        let r = SlatedbVfs {
            capabilities: Capabilities {
                atomic_batch: true,
                point_in_time_reads: true,
                sector_size: 4096,
            },
            store: KvStore::new(),
            files: Vec::new(),
            handle_counter: 1,
            lock_manager: LockManager::new(),
        };
        proof {
            assert(r.batches() =~= Map::<Seq<char>, FileState>::empty());
        }
        r
    }

    /// Open a logical file.  A read-only open is rejected when the adapter
    /// has no point-in-time reads; otherwise the file's existence marker is
    /// written (for non-empty paths) and a fresh handle is returned, with a
    /// monotonically increasing id.
    pub fn open(&mut self, path: &String, readonly: bool) -> (r: Result<SlatedbVfsHandle, i32>)
        requires
            old(self).wf(),
            old(self).next_handle() < u64::MAX,
        ensures
            final(self).wf(),
            final(self).caps() == old(self).caps(),
            final(self).batches() == old(self).batches(),
            final(self).locks() == old(self).locks(),
            if readonly && !old(self).caps().point_in_time_reads {
                &&& r == Err::<SlatedbVfsHandle, i32>(SQLITE_CANTOPEN)
                &&& final(self).store() == old(self).store()
                &&& final(self).next_handle() == old(self).next_handle()
            } else {
                &&& r matches Ok(h) && h.path@ == path@ && h.readonly == readonly
                    && h.handle_id == old(self).next_handle()
                &&& final(self).next_handle() == old(self).next_handle() + 1
                &&& final(self).store() == if path@.len() > 0 {
                    old(self).store().insert(path@, Seq::<u8>::empty())
                } else {
                    old(self).store()
                }
            },
    {
        if readonly && !self.capabilities.point_in_time_reads {
            return Err(SQLITE_CANTOPEN);
        }
        if path.as_str().unicode_len() > 0 {
            let _ = self.store.put(path.clone(), Vec::new());
        }
        let handle_id = self.handle_counter;
        self.handle_counter = self.handle_counter + 1;
        Ok(SlatedbVfsHandle::new(path.clone(), readonly, handle_id))
    }

    /// Close a handle: drop it from the lock manager's bookkeeping.  Pending
    /// batches are not flushed; callers commit or roll back explicitly.
    pub fn close(&mut self, handle: SlatedbVfsHandle) -> (r: Result<(), i32>)
        requires
            old(self).wf(),
        ensures
            final(self).wf(),
            r == Ok::<(), i32>(()),
            final(self).caps() == old(self).caps(),
            final(self).store() == old(self).store(),
            final(self).batches() == old(self).batches(),
            final(self).next_handle() == old(self).next_handle(),
            ({
                let v0 = old(self).locks();
                let v1 = final(self).locks();
                if v0.contains_key(handle.path@) {
                    let m0 = v0[handle.path@].holders();
                    let m1 = if close_drops_handle(m0, handle.handle_id) {
                        m0.remove(handle.handle_id)
                    } else {
                        m0
                    };
                    if close_drops_handle(m0, handle.handle_id) && m0.remove(
                        handle.handle_id,
                    ).dom() =~= Set::<u64>::empty() {
                        v1 == v0.remove(handle.path@)
                    } else {
                        &&& v1.contains_key(handle.path@)
                        &&& v1[handle.path@].wf()
                        &&& is_holders_max(v1[handle.path@].holders(), v1[handle.path@].global())
                        &&& v1[handle.path@].holders() == m1
                        &&& v1.remove(handle.path@) == v0.remove(handle.path@)
                    }
                } else {
                    v1 == v0
                }
            }),
    {
        self.lock_manager.remove_handle(&handle.path, handle.handle_id);
        Ok(())
    }

    /// Whether the file exists: its marker key is present.
    pub fn access(&self, path: &String) -> (r: Result<bool, i32>)
        requires
            self.wf(),
        ensures
            r == Ok::<bool, i32>(self.store().contains_key(path@)),
    {
        match self.store.get(path) {
            Some(_) => Ok(true),
            None => Ok(false),
        }
    }

    /// Read up to `len` bytes at `offset`.  The read is served from the page
    /// owning `offset`: a missing page reads as a hole (zero bytes), and a
    /// read is cut short at the end of the page's actual contents.  Callers
    /// issue further reads for multi-page spans.
    pub fn read(&self, handle: &SlatedbVfsHandle, offset: usize, len: usize) -> (r: Result<
        Vec<u8>,
        i32,
    >)
        requires
            self.wf(),
        ensures
            r matches Ok(v) && v@ == spec_read_result(self.store(), handle.path@, offset as nat, len as nat),
            r matches Ok(v) && v@.len() <= len,
    {
        let page_offset = page_offset_of(offset);
        let key = page_key(&handle.path, page_offset);
        let offset_in_page = offset - page_offset;
        proof {
            vstd::arithmetic::div_mod::lemma_fundamental_div_mod(offset as int, PAGE_SIZE as int);
        }
        match self.store.get(&key) {
            Some(page) => Ok(read_from_page(page, offset_in_page, len)),
            None => {
                let r: Vec<u8> = Vec::new();
                Ok(r)
            },
        }
    }

    /// Write `data` at `offset`.  While the file's atomic batch is open the
    /// write is buffered; otherwise the page owning `offset` is fetched (or
    /// started empty), grown and zero-filled as needed, overwritten, and
    /// persisted whole.  Reports the full length written.
    pub fn write(&mut self, handle: &SlatedbVfsHandle, offset: usize, data: &[u8]) -> (r: Result<
        usize,
        i32,
    >)
        requires
            old(self).wf(),
            offset + data@.len() <= usize::MAX,
        ensures
            final(self).wf(),
            r == Ok::<usize, i32>(data@.len() as usize),
            final(self).caps() == old(self).caps(),
            final(self).locks() == old(self).locks(),
            final(self).next_handle() == old(self).next_handle(),
            if old(self).batch_open_for(handle.path@) {
                &&& final(self).store() == old(self).store()
                &&& final(self).batches().contains_key(handle.path@)
                &&& final(self).batches()[handle.path@].spec_batch_open()
                &&& final(self).pending_for(handle.path@) == old(self).pending_for(
                    handle.path@,
                ).push((offset as nat, data@))
                &&& final(self).batches().remove(handle.path@) == old(self).batches().remove(
                    handle.path@,
                )
            } else {
                &&& final(self).store() == spec_store_after_write(
                    old(self).store(),
                    handle.path@,
                    offset as nat,
                    data@,
                )
                &&& final(self).batches().contains_key(handle.path@)
                &&& !final(self).batches()[handle.path@].spec_batch_open()
                &&& final(self).pending_for(handle.path@) == old(self).pending_for(handle.path@)
                &&& final(self).batches().remove(handle.path@) == old(self).batches().remove(
                    handle.path@,
                )
            },
    {
        let is_batch = self.ensure_file_state_open_flag(&handle.path);
        if is_batch {
            self.buffer_write(&handle.path, offset, data);
            return Ok(data.len());
        }
        let page_offset = page_offset_of(offset);
        let key = page_key(&handle.path, page_offset);
        let offset_in_page = offset - page_offset;
        proof {
            vstd::arithmetic::div_mod::lemma_fundamental_div_mod(offset as int, PAGE_SIZE as int);
        }
        let page = match self.store.get(&key) {
            Some(existing) => clone_bytes(existing),
            None => Vec::new(),
        };
        let new_page = apply_write(page, offset_in_page, data);
        let _ = self.store.put(key, new_page);
        Ok(data.len())
    }

    /// Look the file's batch state up, creating a closed, empty state on
    /// first touch, and report whether its batch is open.
    fn ensure_file_state_open_flag(&mut self, path: &String) -> (is_batch: bool)
        requires
            old(self).wf(),
        ensures
            final(self).wf(),
            is_batch == old(self).batch_open_for(path@),
            final(self).store() == old(self).store(),
            final(self).locks() == old(self).locks(),
            final(self).caps() == old(self).caps(),
            final(self).next_handle() == old(self).next_handle(),
            final(self).batches().contains_key(path@),
            final(self).batches()[path@].spec_batch_open() == old(self).batch_open_for(path@),
            final(self).pending_for(path@) == old(self).pending_for(path@),
            final(self).batches().remove(path@) == old(self).batches().remove(path@),
    {
        let ghost s0 = self.files@;
        match find_skey(&self.files, path) {
            Some(i) => {
                proof {
                    lemma_skey_index(s0, i as int);
                }
                self.files[i].1.batch_open
            },
            None => {
                let st = FileState::new();
                self.files.push((path.clone(), st));
                proof {
                    let e = self.files@.last();
                    assert(self.files@ == s0.push(e));
                    assert(e.0@ == path@);
                    assert forall|k: Seq<char>| true implies #[trigger] skey_get(s0, k) == (
                        if k == e.0@ { None::<FileState> } else { skey_get(s0, k) }
                    ) by {
                        if k == e.0@ {
                            lemma_skey_absent(s0, k);
                        }
                    }
                    lemma_skey_push_after_erase(s0, s0, e);
                    assert(self.batches().remove(path@) =~= old(self).batches().remove(path@));
                    assert(self.pending_for(path@) =~= old(self).pending_for(path@));
                }
                false
            },
        }
    }

    /// Append a write to the file's open batch buffer.
    fn buffer_write(&mut self, path: &String, offset: usize, data: &[u8])
        requires
            old(self).wf(),
            old(self).batches().contains_key(path@),
            offset + data@.len() <= usize::MAX,
        ensures
            final(self).wf(),
            final(self).store() == old(self).store(),
            final(self).locks() == old(self).locks(),
            final(self).caps() == old(self).caps(),
            final(self).next_handle() == old(self).next_handle(),
            final(self).batches().contains_key(path@),
            final(self).batches()[path@].spec_batch_open() == old(
                self,
            ).batches()[path@].spec_batch_open(),
            final(self).pending_for(path@) == old(self).pending_for(path@).push(
                (offset as nat, data@),
            ),
            final(self).batches().remove(path@) == old(self).batches().remove(path@),
    {
        let ghost s0 = self.files@;
        match find_skey(&self.files, path) {
            Some(i) => {
                proof {
                    lemma_skey_index(s0, i as int);
                }
                let mut entry = self.files.remove(i);
                let ghost s1 = self.files@;
                let ghost p0 = entry.1.pending();
                entry.1.pending_writes.push(BatchWrite { offset, data: slice_to_vec(data) });
                proof {
                    assert(entry.1.pending() =~= p0.push((offset as nat, data@)));
                }
                self.files.push(entry);
                proof {
                    lemma_skey_uniq_remove(s0, i as int);
                    let e = self.files@.last();
                    assert(self.files@ == s1.push(e));
                    assert(e.0@ == path@);
                    assert forall|k: Seq<char>| true implies #[trigger] skey_get(s1, k) == (
                        if k == e.0@ { None::<FileState> } else { skey_get(s0, k) }
                    ) by {
                        lemma_skey_remove(s0, i as int, k);
                    }
                    lemma_skey_push_after_erase(s0, s1, e);
                    assert(self.batches().remove(path@) =~= old(self).batches().remove(path@));
                }
            },
            None => {
                proof {
                    lemma_skey_absent(s0, path@);
                    assert(false);
                }
            },
        }
    }

    /// The adapter's device characteristics: the default set, plus the
    /// batch-atomic flag when the capability descriptor enables it.
    pub fn device_characteristics(&self) -> (r: i32)
        ensures
            r == if self.caps().atomic_batch {
                DEFAULT_DEVICE_CHARACTERISTICS | SQLITE_IOCAP_BATCH_ATOMIC
            } else {
                DEFAULT_DEVICE_CHARACTERISTICS
            },
    {
        let mut characteristics: i32 = DEFAULT_DEVICE_CHARACTERISTICS;
        if self.capabilities.atomic_batch {
            characteristics = characteristics | SQLITE_IOCAP_BATCH_ATOMIC;
        }
        characteristics
    }

    /// The sector size the adapter reports.
    pub fn sector_size(&self) -> (r: i32)
        ensures
            r == self.caps().sector_size,
    {
        self.capabilities.sector_size
    }

    /// The adapter answers exactly one pragma: its own name, with the name
    /// itself as the value, which the bootstrap self-check uses to prove the
    /// adapter is active.  Every other pragma is "not found".
    pub fn pragma(&self, _handle: &SlatedbVfsHandle, name: &String) -> (r: Result<
        Option<String>,
        PragmaErr,
    >)
        ensures
            name@ == spec_vfs_name() ==> (r matches Ok(o) && o matches Some(s) && s@ == name@),
            name@ != spec_vfs_name() ==> (r matches Err(e) && e is NotFound),
    {
        let own = String::from_str(vfs_name());
        if name.eq(&own) {
            Ok(Some(name.clone()))
        } else {
            Err(PragmaErr::NotFound)
        }
    }

    /// Durability barrier: flush the underlying store.
    pub fn sync(&self, _handle: &SlatedbVfsHandle) -> (r: Result<(), i32>)
        ensures
            r == Ok::<(), i32>(()),
    {
        self.store.flush()
    }

    /// Acquire `level` for the handle; a denied request reports busy.
    pub fn lock(&mut self, handle: &SlatedbVfsHandle, level: LockLevel) -> (r: Result<(), i32>)
        requires
            old(self).wf(),
        ensures
            final(self).wf(),
            final(self).store() == old(self).store(),
            final(self).batches() == old(self).batches(),
            final(self).caps() == old(self).caps(),
            final(self).next_handle() == old(self).next_handle(),
            ({
                let v0 = old(self).locks();
                let v1 = final(self).locks();
                let m0 = if v0.contains_key(handle.path@) {
                    v0[handle.path@].holders()
                } else {
                    Map::<u64, LockLevel>::empty()
                };
                let g0 = if v0.contains_key(handle.path@) {
                    v0[handle.path@].global()
                } else {
                    LockLevel::Unlocked
                };
                &&& (r is Ok <==> lock_granted(g0, m0, handle.handle_id, level))
                &&& (r is Err ==> r == Err::<(), i32>(crate::sqlite_codes::SQLITE_BUSY))
                &&& v1.contains_key(handle.path@)
                &&& v1[handle.path@].wf()
                &&& is_holders_max(v1[handle.path@].holders(), v1[handle.path@].global())
                &&& v1[handle.path@].holders() == if r is Ok && !lock_is_noop(g0, level) {
                    m0.insert(handle.handle_id, level)
                } else {
                    m0
                }
                &&& v1.remove(handle.path@) == v0.remove(handle.path@)
            }),
    {
        self.lock_manager.lock(&handle.path, handle.handle_id, level)
    }

    /// Release down to `level` for the handle; never fails.
    pub fn unlock(&mut self, handle: &SlatedbVfsHandle, level: LockLevel) -> (r: Result<(), i32>)
        requires
            old(self).wf(),
        ensures
            final(self).wf(),
            r == Ok::<(), i32>(()),
            final(self).store() == old(self).store(),
            final(self).batches() == old(self).batches(),
            final(self).caps() == old(self).caps(),
            final(self).next_handle() == old(self).next_handle(),
            ({
                let v0 = old(self).locks();
                let v1 = final(self).locks();
                if v0.contains_key(handle.path@) {
                    &&& v1.contains_key(handle.path@)
                    &&& v1[handle.path@].wf()
                    &&& is_holders_max(v1[handle.path@].holders(), v1[handle.path@].global())
                    &&& v1[handle.path@].holders() == holders_after_unlock(
                        v0[handle.path@].holders(),
                        handle.handle_id,
                        level,
                    )
                    &&& v1.remove(handle.path@) == v0.remove(handle.path@)
                } else {
                    v1 == v0
                }
            }),
    {
        self.lock_manager.unlock(&handle.path, handle.handle_id, level)
    }

    /// Whether a reserved-or-higher lock is held on the file: 1 if so, 0
    /// otherwise.
    pub fn check_reserved_lock(&self, handle: &SlatedbVfsHandle) -> (r: Result<i32, i32>)
        requires
            self.wf(),
        ensures
            ({
                let g = if self.locks().contains_key(handle.path@) {
                    self.locks()[handle.path@].global()
                } else {
                    LockLevel::Unlocked
                };
                r == Ok::<i32, i32>(
                    if g.rank() >= LockLevel::Reserved.rank() {
                        1
                    } else {
                        0
                    },
                )
            }),
    {
        let level = self.lock_manager.get_global_lock_level(&handle.path);
        if level.code() >= LockLevel::Reserved.code() {
            Ok(1)
        } else {
            Ok(0)
        }
    }
}

// ---------------------------------------------------------------------------
// Page scans: file size, delete, truncate.
// ---------------------------------------------------------------------------

/// The store key of the `i`-th page of a file.
pub open spec fn page_key_at(path: Seq<char>, i: int) -> Seq<char> {
    spec_page_key(path, (i * (PAGE_SIZE as int)) as nat)
}

/// Pages `start` to `n` (exclusive) are all present.
pub open spec fn pages_present_range(
    m: Map<Seq<char>, Seq<u8>>,
    path: Seq<char>,
    start: int,
    n: int,
) -> bool {
    forall|i: int| start <= i < n ==> m.contains_key(#[trigger] page_key_at(path, i))
}

/// A forward page scan from index `start` stops exactly at index `n`: every
/// page before it is present and page `n` is the first missing one.
pub open spec fn is_scan_end(
    m: Map<Seq<char>, Seq<u8>>,
    path: Seq<char>,
    start: int,
    n: int,
) -> bool {
    &&& start <= n
    &&& pages_present_range(m, path, start, n)
    &&& !m.contains_key(page_key_at(path, n))
}

/// The derived file size when the scan from offset zero stops at page `n`:
/// the last present page's offset plus its length.
pub open spec fn scan_size_at(m: Map<Seq<char>, Seq<u8>>, path: Seq<char>, n: int) -> int {
    if n == 0 {
        0
    } else {
        (n - 1) * (PAGE_SIZE as int) + m[page_key_at(path, n - 1)].len()
    }
}

/// Machine limit on the size scan: the scan ends, the page offsets it visits
/// fit in `usize`, and so does every intermediate size.
pub open spec fn file_scan_fits(m: Map<Seq<char>, Seq<u8>>, path: Seq<char>) -> bool {
    exists|n: int|
        {
            &&& #[trigger] is_scan_end(m, path, 0, n)
            &&& n * (PAGE_SIZE as int) <= usize::MAX
            &&& forall|k: int| 1 <= k <= n ==> #[trigger] scan_size_at(m, path, k) <= usize::MAX
        }
}

/// Machine limit on a delete scan from `start`: the scan ends and the page
/// offsets it visits fit in `usize`.
pub open spec fn delete_scan_fits(
    m: Map<Seq<char>, Seq<u8>>,
    path: Seq<char>,
    start: int,
) -> bool {
    exists|n: int| #[trigger] is_scan_end(m, path, start, n) && n * (PAGE_SIZE as int) <= usize::MAX
}

/// The page keys a delete scan removes: pages `start` to `n` (exclusive).
pub open spec fn chain_keys(path: Seq<char>, start: int, n: int) -> Set<Seq<char>> {
    Set::new(|k: Seq<char>| exists|i: int| start <= i < n && k == #[trigger] page_key_at(path, i))
}

/// The store after a truncation point has been applied to the page owning
/// byte `size`: that page is shrunk in place when it extends past the point.
pub open spec fn spec_shrunk(
    m: Map<Seq<char>, Seq<u8>>,
    path: Seq<char>,
    size: nat,
) -> Map<Seq<char>, Seq<u8>> {
    let pk = spec_page_key(path, spec_page_offset(size as int) as nat);
    let cut = (size as int) % (PAGE_SIZE as int);
    if m.contains_key(pk) && m[pk].len() > cut {
        m.insert(pk, m[pk].subrange(0, cut))
    } else {
        m
    }
}

/// Distinct page indexes of one file have distinct keys.
pub proof fn lemma_page_key_at_injective(path: Seq<char>, i: int, j: int)
    requires
        i >= 0,
        j >= 0,
        page_key_at(path, i) == page_key_at(path, j),
    ensures
        i == j,
{
    crate::page::lemma_page_key_injective(
        path,
        (i * (PAGE_SIZE as int)) as nat,
        (j * (PAGE_SIZE as int)) as nat,
    );
    assert(i == j) by (nonlinear_arith)
        requires
            i >= 0,
            j >= 0,
            i * (PAGE_SIZE as int) == j * (PAGE_SIZE as int),
            PAGE_SIZE as int == 4096,
    ;
}

/// A scan has exactly one end.
pub proof fn lemma_scan_end_unique(
    m: Map<Seq<char>, Seq<u8>>,
    path: Seq<char>,
    start: int,
    n1: int,
    n2: int,
)
    requires
        is_scan_end(m, path, start, n1),
        is_scan_end(m, path, start, n2),
    ensures
        n1 == n2,
{
    if n1 < n2 {
        assert(m.contains_key(page_key_at(path, n1)));
    }
    if n2 < n1 {
        assert(m.contains_key(page_key_at(path, n2)));
    }
}

impl SlatedbVfs {
    /// The file's size: pages are scanned forward from offset zero and the
    /// size is the last present page's offset plus its length.  The cost is
    /// linear in the file's page count by design; callers must not assume
    /// constant time.
    pub fn file_size(&self, handle: &SlatedbVfsHandle) -> (r: Result<usize, i32>)
        requires
            self.wf(),
            file_scan_fits(self.store(), handle.path@),
        ensures
            r matches Ok(sz) && exists|n: int|
                is_scan_end(self.store(), handle.path@, 0, n) && sz == scan_size_at(
                    self.store(),
                    handle.path@,
                    n,
                ),
    {
        let ghost m = self.store();
        let ghost path = handle.path@;
        let ghost nn = choose|n: int|
            {
                &&& #[trigger] is_scan_end(m, path, 0, n)
                &&& n * (PAGE_SIZE as int) <= usize::MAX
                &&& forall|k: int| 1 <= k <= n ==> #[trigger] scan_size_at(m, path, k) <= usize::MAX
            };
        let mut size: usize = 0;
        let mut idx: usize = 0;
        let mut done = false;
        while !done
            invariant
                self.wf(),
                m == self.store(),
                path == handle.path@,
                is_scan_end(m, path, 0, nn),
                nn * (PAGE_SIZE as int) <= usize::MAX,
                forall|k: int| 1 <= k <= nn ==> #[trigger] scan_size_at(m, path, k) <= usize::MAX,
                idx as int <= nn,
                !done ==> pages_present_range(m, path, 0, idx as int),
                size == scan_size_at(m, path, idx as int),
                done ==> is_scan_end(m, path, 0, idx as int),
            decreases nn - idx + (if done { 0int } else { 1 }),
        {
            proof {
                vstd::arithmetic::mul::lemma_mul_inequality(
                    idx as int,
                    nn,
                    PAGE_SIZE as int,
                );
            }
            let offset = idx * PAGE_SIZE;
            let key = page_key(&handle.path, offset);
            match self.store.get(&key) {
                Some(page) => {
                    proof {
                        if idx as int == nn {
                            assert(m.contains_key(page_key_at(path, nn)));
                            assert(false);
                        }
                        assert(scan_size_at(m, path, idx as int + 1) <= usize::MAX);
                    }
                    size = offset + page.len();
                    idx = idx + 1;
                },
                None => {
                    done = true;
                },
            }
        }
        Ok(size)
    }

    /// Remove pages `start` onward, scanning forward until the first missing
    /// page, and report the scan end.
    fn delete_pages_from(&mut self, path: &String, start: usize) -> (n_end: usize)
        requires
            old(self).wf(),
            delete_scan_fits(old(self).store(), path@, start as int),
        ensures
            final(self).wf(),
            is_scan_end(old(self).store(), path@, start as int, n_end as int),
            final(self).store() == old(self).store().remove_keys(
                chain_keys(path@, start as int, n_end as int),
            ),
            final(self).batches() == old(self).batches(),
            final(self).locks() == old(self).locks(),
            final(self).caps() == old(self).caps(),
            final(self).next_handle() == old(self).next_handle(),
    {
        let ghost m0 = old(self).store();
        let ghost p = path@;
        let ghost nn = choose|n: int|
            #[trigger] is_scan_end(m0, p, start as int, n) && n * (PAGE_SIZE as int) <= usize::MAX;
        let mut idx: usize = start;
        let mut done = false;
        while !done
            invariant
                self.wf(),
                p == path@,
                is_scan_end(m0, p, start as int, nn),
                nn * (PAGE_SIZE as int) <= usize::MAX,
                start as int <= idx as int <= nn,
                self.store() == m0.remove_keys(chain_keys(p, start as int, idx as int)),
                done ==> idx as int == nn,
                self.batches() == old(self).batches(),
                self.locks() == old(self).locks(),
                self.caps() == old(self).caps(),
                self.next_handle() == old(self).next_handle(),
            decreases nn - idx + (if done { 0int } else { 1 }),
        {
            proof {
                vstd::arithmetic::mul::lemma_mul_inequality(idx as int, nn, PAGE_SIZE as int);
            }
            let offset = idx * PAGE_SIZE;
            let key = page_key(path, offset);
            proof {
                // The current key is outside what was removed so far, so
                // presence in the current store matches the starting store.
                assert forall|i: int| start as int <= i < idx as int implies page_key_at(p, i)
                    != key@ by {
                    if page_key_at(p, i) == key@ {
                        lemma_page_key_at_injective(p, i, idx as int);
                    }
                }
                assert(self.store().contains_key(key@) <==> m0.contains_key(key@));
            }
            match self.store.get(&key) {
                Some(_) => {
                    proof {
                        if idx as int == nn {
                            assert(m0.contains_key(page_key_at(p, nn)));
                            assert(false);
                        }
                    }
                    let ghost prev_idx = idx as int;
                    let _ = self.store.delete(&key);
                    idx = idx + 1;
                    proof {
                        assert(key@ == page_key_at(p, prev_idx));
                        assert forall|k: Seq<char>| true implies #[trigger] chain_keys(
                            p,
                            start as int,
                            idx as int,
                        ).contains(k) == (chain_keys(p, start as int, prev_idx).contains(k) || k
                            == key@) by {
                            if chain_keys(p, start as int, idx as int).contains(k) {
                                let i = choose|i: int|
                                    start as int <= i < idx as int && k == #[trigger] page_key_at(
                                        p,
                                        i,
                                    );
                                if i < prev_idx {
                                    assert(chain_keys(p, start as int, prev_idx).contains(k));
                                }
                            }
                            if chain_keys(p, start as int, prev_idx).contains(k) {
                                assert(chain_keys(p, start as int, idx as int).contains(k));
                            }
                            if k == key@ {
                                assert(chain_keys(p, start as int, idx as int).contains(k));
                            }
                        }
                        assert(self.store() =~= m0.remove_keys(
                            chain_keys(p, start as int, idx as int),
                        ));
                    }
                },
                None => {
                    proof {
                        if (idx as int) < nn {
                            assert(m0.contains_key(page_key_at(p, idx as int)));
                        }
                    }
                    done = true;
                },
            }
        }
        idx
    }

    /// Delete the file: remove every page found by a forward scan from
    /// offset zero, then the file's existence marker.
    pub fn delete(&mut self, path: &String) -> (r: Result<(), i32>)
        requires
            old(self).wf(),
            delete_scan_fits(old(self).store(), path@, 0),
        ensures
            final(self).wf(),
            r == Ok::<(), i32>(()),
            exists|n: int|
                is_scan_end(old(self).store(), path@, 0, n) && final(self).store() == old(
                    self,
                ).store().remove_keys(chain_keys(path@, 0, n)).remove(path@),
            final(self).batches() == old(self).batches(),
            final(self).locks() == old(self).locks(),
            final(self).caps() == old(self).caps(),
            final(self).next_handle() == old(self).next_handle(),
    {
        let n_end = self.delete_pages_from(path, 0);
        let _ = self.store.delete(path);
        Ok(())
    }

    /// Truncate the file to `size` bytes.  Truncating to zero deletes the
    /// file's pages and marker outright.  Otherwise the page owning byte
    /// `size` is shrunk in place when it extends past the cut, and every
    /// subsequent page found by a forward scan is removed.
    pub fn truncate(&mut self, handle: &SlatedbVfsHandle, size: usize) -> (r: Result<(), i32>)
        requires
            old(self).wf(),
            size == 0 ==> delete_scan_fits(old(self).store(), handle.path@, 0),
            size > 0 ==> delete_scan_fits(
                spec_shrunk(old(self).store(), handle.path@, size as nat),
                handle.path@,
                (size as int) / (PAGE_SIZE as int) + 1,
            ),
        ensures
            final(self).wf(),
            r == Ok::<(), i32>(()),
            size == 0 ==> exists|n: int|
                is_scan_end(old(self).store(), handle.path@, 0, n) && final(self).store() == old(
                    self,
                ).store().remove_keys(chain_keys(handle.path@, 0, n)).remove(handle.path@),
            size > 0 ==> exists|n: int|
                {
                    &&& #[trigger] is_scan_end(
                        spec_shrunk(old(self).store(), handle.path@, size as nat),
                        handle.path@,
                        (size as int) / (PAGE_SIZE as int) + 1,
                        n,
                    )
                    &&& final(self).store() == spec_shrunk(
                        old(self).store(),
                        handle.path@,
                        size as nat,
                    ).remove_keys(
                        chain_keys(handle.path@, (size as int) / (PAGE_SIZE as int) + 1, n),
                    )
                },
            final(self).batches() == old(self).batches(),
            final(self).locks() == old(self).locks(),
            final(self).caps() == old(self).caps(),
            final(self).next_handle() == old(self).next_handle(),
    {
        if size == 0 {
            return self.delete(&handle.path);
        }
        let truncate_page_offset = page_offset_of(size);
        let cut = size - truncate_page_offset;
        proof {
            vstd::arithmetic::div_mod::lemma_fundamental_div_mod(size as int, PAGE_SIZE as int);
        }
        let key = page_key(&handle.path, truncate_page_offset);
        let shrink: Option<Vec<u8>> = match self.store.get(&key) {
            Some(page) => {
                if cut < page.len() {
                    let mut copy = clone_bytes(page);
                    copy.truncate(cut);
                    Some(copy)
                } else {
                    None
                }
            },
            None => None,
        };
        match shrink {
            Some(copy) => {
                let _ = self.store.put(key, copy);
            },
            None => {},
        }
        proof {
            assert(self.store() =~= spec_shrunk(old(self).store(), handle.path@, size as nat));
        }
        let start = truncate_page_offset / PAGE_SIZE + 1;
        proof {
            assert(start as int == (size as int) / (PAGE_SIZE as int) + 1) by {
                assert(truncate_page_offset as int == ((size as int) / (PAGE_SIZE as int)) * (
                PAGE_SIZE as int));
                vstd::arithmetic::div_mod::lemma_div_by_multiple(
                    (size as int) / (PAGE_SIZE as int),
                    PAGE_SIZE as int,
                );
            }
        }
        let _ = self.delete_pages_from(&handle.path, start);
        Ok(())
    }
}

// ---------------------------------------------------------------------------
// Atomic batch writes: begin, commit, rollback.
// ---------------------------------------------------------------------------

/// A list of buffered writes as the specs see them: offsets and bytes.
pub open spec fn pending_model(s: Seq<BatchWrite>) -> Seq<(nat, Seq<u8>)> {
    Seq::new(s.len(), |i: int| (s[i].offset as nat, s[i].data@))
}

/// Whether some buffered write touches the page at boundary `po`.
pub open spec fn affected(writes: Seq<(nat, Seq<u8>)>, po: int) -> bool {
    exists|i: int|
        0 <= i < writes.len() && spec_page_offset((#[trigger] writes[i]).0 as int) == po
}

/// Every one of the first `n` buffered writes has its page boundary listed
/// in `pos`.
pub open spec fn covers_batch_offsets(
    writes: Seq<(nat, Seq<u8>)>,
    pos: Seq<usize>,
    n: int,
) -> bool {
    forall|w: int|
        0 <= w < n ==> exists|j: int|
            0 <= j < pos.len() && pos[j] as int == spec_page_offset(
                (#[trigger] writes[w]).0 as int,
            )
}

/// The buffered writes that touch the page at boundary `po`, in buffer
/// order.
pub open spec fn writes_for_page(writes: Seq<(nat, Seq<u8>)>, po: int) -> Seq<(nat, Seq<u8>)> {
    writes.filter(|w: (nat, Seq<u8>)| spec_page_offset(w.0 as int) == po)
}

/// Apply buffered writes to one page, oldest first: a later write overrides
/// the bytes an earlier one put at the same place.
pub open spec fn apply_writes_to_page(page: Seq<u8>, writes: Seq<(nat, Seq<u8>)>) -> Seq<u8>
    decreases writes.len(),
{
    if writes.len() == 0 {
        page
    } else {
        apply_writes_to_page(
            spec_apply_write(
                page,
                (writes.first().0 as int) % (PAGE_SIZE as int),
                writes.first().1,
            ),
            writes.drop_first(),
        )
    }
}

/// The contents the page at boundary `po` has after a commit: the stored
/// page (or a fresh empty one) with that page's buffered writes applied in
/// buffer order.
pub open spec fn page_result(
    m: Map<Seq<char>, Seq<u8>>,
    path: Seq<char>,
    writes: Seq<(nat, Seq<u8>)>,
    po: int,
) -> Seq<u8> {
    let pk = spec_page_key(path, po as nat);
    let page0 = if m.contains_key(pk) {
        m[pk]
    } else {
        Seq::<u8>::empty()
    };
    apply_writes_to_page(page0, writes_for_page(writes, po))
}

/// Whether `k` is the key of a page some buffered write touches.
pub open spec fn key_of_affected_page(
    path: Seq<char>,
    writes: Seq<(nat, Seq<u8>)>,
    k: Seq<char>,
) -> bool {
    exists|po: int| #[trigger] affected(writes, po) && k == spec_page_key(path, po as nat)
}

/// What committing a batch does to the store: every touched page holds its
/// `page_result`, and every other key — other pages, other files, markers —
/// is untouched.
pub open spec fn is_commit_result(
    m0: Map<Seq<char>, Seq<u8>>,
    path: Seq<char>,
    writes: Seq<(nat, Seq<u8>)>,
    m1: Map<Seq<char>, Seq<u8>>,
) -> bool {
    &&& forall|po: int| #[trigger] affected(writes, po) ==> m1.contains_key(
        spec_page_key(path, po as nat),
    ) && m1[spec_page_key(path, po as nat)] == page_result(m0, path, writes, po)
    &&& forall|k: Seq<char>| !key_of_affected_page(path, writes, k) ==> (
        #[trigger] m1.contains_key(k) <==> m0.contains_key(k)) && (m0.contains_key(k)
        ==> m1[k] == m0[k])
}

proof fn lemma_writes_for_page_push(writes: Seq<(nat, Seq<u8>)>, w: (nat, Seq<u8>), po: int)
    ensures
        writes_for_page(writes.push(w), po) == if spec_page_offset(w.0 as int) == po {
            writes_for_page(writes, po).push(w)
        } else {
            writes_for_page(writes, po)
        },
{
    reveal(Seq::filter);
    assert(writes.push(w).drop_last() =~= writes);
}

proof fn lemma_apply_writes_push(page: Seq<u8>, writes: Seq<(nat, Seq<u8>)>, w: (nat, Seq<u8>))
    ensures
        apply_writes_to_page(page, writes.push(w)) == spec_apply_write(
            apply_writes_to_page(page, writes),
            (w.0 as int) % (PAGE_SIZE as int),
            w.1,
        ),
    decreases writes.len(),
{
    if writes.len() == 0 {
        assert(writes.push(w).first() == w);
        assert(writes.push(w).drop_first() =~= Seq::<(nat, Seq<u8>)>::empty());
        let x = spec_apply_write(page, (w.0 as int) % (PAGE_SIZE as int), w.1);
        assert(apply_writes_to_page(x, Seq::<(nat, Seq<u8>)>::empty()) == x);
        assert(apply_writes_to_page(page, writes) == page);
        assert(apply_writes_to_page(page, writes.push(w)) == x);
    } else {
        assert(writes.push(w).drop_first() =~= writes.drop_first().push(w));
        assert(writes.push(w).first() == writes.first());
        lemma_apply_writes_push(
            spec_apply_write(
                page,
                (writes.first().0 as int) % (PAGE_SIZE as int),
                writes.first().1,
            ),
            writes.drop_first(),
            w,
        );
    }
}

proof fn lemma_apply_puts_notin(
    m: Map<Seq<char>, Seq<u8>>,
    puts: Seq<(String, Vec<u8>)>,
    k: Seq<char>,
)
    requires
        forall|j: int| 0 <= j < puts.len() ==> (#[trigger] puts[j]).0@ != k,
    ensures
        spec_apply_puts(m, puts).contains_key(k) <==> m.contains_key(k),
        m.contains_key(k) ==> spec_apply_puts(m, puts)[k] == m[k],
    decreases puts.len(),
{
    if puts.len() > 0 {
        assert(puts[0].0@ != k);
        lemma_apply_puts_notin(m.insert(puts.first().0@, puts.first().1@), puts.drop_first(), k);
    }
}

proof fn lemma_apply_puts_at(m: Map<Seq<char>, Seq<u8>>, puts: Seq<(String, Vec<u8>)>, j: int)
    requires
        forall|a: int, b: int| 0 <= a < b < puts.len() ==> puts[a].0@ != puts[b].0@,
        0 <= j < puts.len(),
    ensures
        spec_apply_puts(m, puts).contains_key(puts[j].0@),
        spec_apply_puts(m, puts)[puts[j].0@] == puts[j].1@,
    decreases puts.len(),
{
    let m1 = m.insert(puts.first().0@, puts.first().1@);
    if j == 0 {
        assert forall|a: int|
            0 <= a < puts.drop_first().len() implies (#[trigger] puts.drop_first()[a]).0@
            != puts[0].0@ by {
            assert(puts.drop_first()[a] == puts[a + 1]);
        }
        lemma_apply_puts_notin(m1, puts.drop_first(), puts[0].0@);
    } else {
        assert(puts.drop_first()[j - 1] == puts[j]);
        lemma_apply_puts_at(m1, puts.drop_first(), j - 1);
    }
}

/// The distinct page boundaries a batch's buffered writes touch, in
/// first-appearance order: every listed boundary is touched by some write,
/// and every write's boundary is listed.
pub fn batch_page_offsets(pending: &Vec<BatchWrite>) -> (pos: Vec<usize>)
    ensures
        forall|j1: int, j2: int| 0 <= j1 < j2 < pos@.len() ==> pos@[j1] != pos@[j2],
        forall|j: int|
            0 <= j < pos@.len() ==> affected(pending_model(pending@), #[trigger] pos@[j] as int),
        covers_batch_offsets(pending_model(pending@), pos@, pending@.len() as int),
{
    let ghost ws = pending_model(pending@);
    let mut pos: Vec<usize> = Vec::new();
    let mut i: usize = 0;
    while i < pending.len()
        invariant
            ws == pending_model(pending@),
            i <= pending@.len(),
            forall|j1: int, j2: int| 0 <= j1 < j2 < pos@.len() ==> pos@[j1] != pos@[j2],
            forall|j: int|
                0 <= j < pos@.len() ==> affected(ws, #[trigger] pos@[j] as int),
            covers_batch_offsets(ws, pos@, i as int),
        decreases pending@.len() - i,
    {
        let ghost pos0 = pos@;
        let po = page_offset_of(pending[i].offset);
        let already = contains_usize(&pos, po);
        if !already {
            pos.push(po);
        }
        proof {
            assert(ws[i as int].0 == pending@[i as int].offset as nat);
            assert(affected(ws, po as int));
            if already {
                assert(exists|jj: int| 0 <= jj < pos@.len() && pos@[jj] == po);
            } else {
                assert(pos@[pos@.len() - 1] == po);
            }
            assert(covers_batch_offsets(ws, pos@, i + 1)) by {
                assert forall|w: int|
                    0 <= w < i + 1 implies exists|jj: int|
                        0 <= jj < pos@.len() && pos@[jj] as int == spec_page_offset(
                            (#[trigger] ws[w]).0 as int,
                        ) by {
                    if w < i {
                        let jj = choose|jj: int|
                            0 <= jj < pos0.len() && pos0[jj] as int == spec_page_offset(
                                (#[trigger] ws[w]).0 as int,
                            );
                        assert(pos@[jj] == pos0[jj]);
                    } else {
                        let jj = choose|jj: int| 0 <= jj < pos@.len() && pos@[jj] == po;
                        assert(pos@[jj] as int == spec_page_offset(ws[w].0 as int));
                    }
                }
            }
        }
        i += 1;
    }
    pos
}

/// Apply the batch's buffered writes that address the page at boundary `po`
/// to that page, in buffer order: exactly the contents a commit gives it.
pub fn merge_writes_into_page(page: Vec<u8>, po: usize, pending: &Vec<BatchWrite>) -> (r: Vec<u8>)
    requires
        forall|i: int|
            0 <= i < pending@.len() ==> (#[trigger] pending@[i]).offset as int
                + pending@[i].data@.len() <= usize::MAX,
    ensures
        r@ == apply_writes_to_page(
            page@,
            writes_for_page(pending_model(pending@), po as int),
        ),
{
    let ghost ws = pending_model(pending@);
    let ghost base = page@;
    let mut page = page;
    proof {
        assert(writes_for_page(ws.subrange(0, 0), po as int) =~= Seq::<(
            nat,
            Seq<u8>,
        )>::empty()) by {
            reveal(Seq::filter);
            assert(ws.subrange(0, 0) =~= Seq::<(nat, Seq<u8>)>::empty());
        }
    }
    let mut i: usize = 0;
    while i < pending.len()
        invariant
            ws == pending_model(pending@),
            forall|i2: int|
                0 <= i2 < pending@.len() ==> (#[trigger] pending@[i2]).offset as int
                    + pending@[i2].data@.len() <= usize::MAX,
            i <= pending@.len(),
            page@ == apply_writes_to_page(
                base,
                writes_for_page(ws.subrange(0, i as int), po as int),
            ),
        decreases pending@.len() - i,
    {
        let w_off = pending[i].offset;
        let wpo = page_offset_of(w_off);
        let ghost prefix = ws.subrange(0, i as int);
        proof {
            assert(ws.subrange(0, i + 1) =~= prefix.push(ws[i as int]));
            lemma_writes_for_page_push(prefix, ws[i as int], po as int);
            vstd::arithmetic::div_mod::lemma_fundamental_div_mod(
                w_off as int,
                PAGE_SIZE as int,
            );
        }
        if wpo == po {
            let new_page = apply_write(page, w_off - wpo, pending[i].data.as_slice());
            page = new_page;
            proof {
                lemma_apply_writes_push(base, writes_for_page(prefix, po as int), ws[i as int]);
            }
        }
        i += 1;
    }
    proof {
        assert(ws.subrange(0, ws.len() as int) =~= ws);
    }
    page
}

fn contains_usize(v: &Vec<usize>, x: usize) -> (r: bool)
    ensures
        r == exists|j: int| 0 <= j < v@.len() && v@[j] == x,
{
    let mut i: usize = 0;
    while i < v.len()
        invariant
            i <= v@.len(),
            forall|j: int| 0 <= j < i ==> v@[j] != x,
        decreases v@.len() - i,
    {
        if v[i] == x {
            return true;
        }
        i += 1;
    }
    false
}

impl SlatedbVfs {
    /// Set the file's batch-open flag, creating its batch state on first
    /// touch.  Buffered writes, if any, are kept.
    fn begin_batch(&mut self, path: &String)
        requires
            old(self).wf(),
        ensures
            final(self).wf(),
            final(self).store() == old(self).store(),
            final(self).locks() == old(self).locks(),
            final(self).caps() == old(self).caps(),
            final(self).next_handle() == old(self).next_handle(),
            final(self).batches().contains_key(path@),
            final(self).batches()[path@].spec_batch_open(),
            final(self).pending_for(path@) == old(self).pending_for(path@),
            final(self).batches().remove(path@) == old(self).batches().remove(path@),
    {
        let ghost s0 = self.files@;
        match find_skey(&self.files, path) {
            Some(i) => {
                proof {
                    lemma_skey_index(s0, i as int);
                }
                let mut entry = self.files.remove(i);
                let ghost s1 = self.files@;
                entry.1.batch_open = true;
                self.files.push(entry);
                proof {
                    lemma_skey_uniq_remove(s0, i as int);
                    let e = self.files@.last();
                    assert(self.files@ == s1.push(e));
                    assert(e.0@ == path@);
                    assert forall|k: Seq<char>| true implies #[trigger] skey_get(s1, k) == (
                        if k == e.0@ { None::<FileState> } else { skey_get(s0, k) }
                    ) by {
                        lemma_skey_remove(s0, i as int, k);
                    }
                    lemma_skey_push_after_erase(s0, s1, e);
                    assert(self.batches().remove(path@) =~= old(self).batches().remove(path@));
                    assert(e.1.pending() =~= old(self).pending_for(path@));
                }
            },
            None => {
                let mut st = FileState::new();
                st.batch_open = true;
                self.files.push((path.clone(), st));
                proof {
                    let e = self.files@.last();
                    assert(self.files@ == s0.push(e));
                    assert(e.0@ == path@);
                    assert forall|k: Seq<char>| true implies #[trigger] skey_get(s0, k) == (
                        if k == e.0@ { None::<FileState> } else { skey_get(s0, k) }
                    ) by {
                        if k == e.0@ {
                            lemma_skey_absent(s0, k);
                        }
                    }
                    lemma_skey_push_after_erase(s0, s0, e);
                    assert(self.batches().remove(path@) =~= old(self).batches().remove(path@));
                    assert(self.pending_for(path@) =~= old(self).pending_for(path@));
                }
            },
        }
    }

    /// Clear the file's batch-open flag and drain its buffer, creating the
    /// batch state on first touch.  Returns the drained writes.
    fn end_batch(&mut self, path: &String) -> (drained: Vec<BatchWrite>)
        requires
            old(self).wf(),
        ensures
            final(self).wf(),
            final(self).store() == old(self).store(),
            final(self).locks() == old(self).locks(),
            final(self).caps() == old(self).caps(),
            final(self).next_handle() == old(self).next_handle(),
            final(self).batches().contains_key(path@),
            !final(self).batches()[path@].spec_batch_open(),
            final(self).pending_for(path@) == Seq::<(nat, Seq<u8>)>::empty(),
            final(self).batches().remove(path@) == old(self).batches().remove(path@),
            pending_model(drained@) == old(self).pending_for(path@),
            forall|i: int|
                0 <= i < drained@.len() ==> (#[trigger] drained@[i]).offset as int
                    + drained@[i].data@.len() <= usize::MAX,
    {
        let ghost s0 = self.files@;
        match find_skey(&self.files, path) {
            Some(i) => {
                proof {
                    lemma_skey_index(s0, i as int);
                }
                let entry = self.files.remove(i);
                let ghost s1 = self.files@;
                let (name, st) = entry;
                let FileState { batch_open: _, pending_writes } = st;
                self.files.push((name, FileState { batch_open: false, pending_writes: Vec::new() }));
                proof {
                    lemma_skey_uniq_remove(s0, i as int);
                    let e = self.files@.last();
                    assert(self.files@ == s1.push(e));
                    assert(e.0@ == path@);
                    assert forall|k: Seq<char>| true implies #[trigger] skey_get(s1, k) == (
                        if k == e.0@ { None::<FileState> } else { skey_get(s0, k) }
                    ) by {
                        lemma_skey_remove(s0, i as int, k);
                    }
                    lemma_skey_push_after_erase(s0, s1, e);
                    assert(self.batches().remove(path@) =~= old(self).batches().remove(path@));
                    assert(e.1.pending() =~= Seq::<(nat, Seq<u8>)>::empty());
                    assert(pending_model(pending_writes@) =~= old(self).pending_for(path@));
                    assert forall|q: int|
                        0 <= q < pending_writes@.len() implies (#[trigger] pending_writes@[q]).offset
                        as int + pending_writes@[q].data@.len() <= usize::MAX by {
                        assert(s0[i as int].1.pending_fits());
                        assert(s0[i as int].1.pending()[q] == (
                            pending_writes@[q].offset as nat,
                            pending_writes@[q].data@,
                        ));
                    }
                }
                pending_writes
            },
            None => {
                let st = FileState::new();
                self.files.push((path.clone(), st));
                proof {
                    let e = self.files@.last();
                    assert(self.files@ == s0.push(e));
                    assert(e.0@ == path@);
                    assert forall|k: Seq<char>| true implies #[trigger] skey_get(s0, k) == (
                        if k == e.0@ { None::<FileState> } else { skey_get(s0, k) }
                    ) by {
                        if k == e.0@ {
                            lemma_skey_absent(s0, k);
                        }
                    }
                    lemma_skey_push_after_erase(s0, s0, e);
                    assert(self.batches().remove(path@) =~= old(self).batches().remove(path@));
                    assert(e.1.pending() =~= Seq::<(nat, Seq<u8>)>::empty());
                    assert(pending_model(Seq::<BatchWrite>::empty()) =~= old(self).pending_for(
                        path@,
                    ));
                }
                Vec::new()
            },
        }
    }

    /// Merge the drained writes of one batch into their pages and submit the
    /// whole set to the store as one atomic batch.
    /// Merge the drained writes of one batch into their pages and submit the
    /// whole set to the store as one atomic batch.
    fn commit_pending(&mut self, path: &String, pending: Vec<BatchWrite>)
        requires
            old(self).wf(),
            forall|i: int|
                0 <= i < pending@.len() ==> (#[trigger] pending@[i]).offset as int
                    + pending@[i].data@.len() <= usize::MAX,
        ensures
            final(self).wf(),
            is_commit_result(
                old(self).store(),
                path@,
                pending_model(pending@),
                final(self).store(),
            ),
            final(self).batches() == old(self).batches(),
            final(self).locks() == old(self).locks(),
            final(self).caps() == old(self).caps(),
            final(self).next_handle() == old(self).next_handle(),
    {
        let ghost m0 = self.store();
        let ghost ws = pending_model(pending@);
        let pos = batch_page_offsets(&pending);
        // Build the new contents of each touched page.
        let mut puts: Vec<(String, Vec<u8>)> = Vec::new();
        let mut j: usize = 0;
        while j < pos.len()
            invariant
                self.wf(),
                m0 == self.store(),
                ws == pending_model(pending@),
                forall|i2: int|
                    0 <= i2 < pending@.len() ==> (#[trigger] pending@[i2]).offset as int
                        + pending@[i2].data@.len() <= usize::MAX,
                j <= pos@.len(),
                forall|j1: int, j2: int| 0 <= j1 < j2 < pos@.len() ==> pos@[j1] != pos@[j2],
                forall|q: int|
                    0 <= q < pos@.len() ==> affected(ws, #[trigger] pos@[q] as int),
                covers_batch_offsets(ws, pos@, ws.len() as int),
                puts@.len() == j,
                forall|q: int|
                    0 <= q < j ==> (#[trigger] puts@[q]).0@ == spec_page_key(
                        path@,
                        pos@[q] as nat,
                    ) && puts@[q].1@ == page_result(m0, path@, ws, pos@[q] as int),
                self.batches() == old(self).batches(),
                self.locks() == old(self).locks(),
                self.caps() == old(self).caps(),
                self.next_handle() == old(self).next_handle(),
            decreases pos@.len() - j,
        {
            let po = pos[j];
            let key = page_key(path, po);
            let page: Vec<u8> = match self.store.get(&key) {
                Some(pg) => clone_bytes(pg),
                None => Vec::new(),
            };
            let merged = merge_writes_into_page(page, po, &pending);
            puts.push((key, merged));
            j += 1;
        }
        // One atomic submission makes all the page updates visible together.
        let _ = self.store.write_batch(puts);
        proof {
            let ghost putsv = puts@;
            assert forall|a: int, b: int|
                0 <= a < b < putsv.len() implies putsv[a].0@ != putsv[b].0@ by {
                if putsv[a].0@ == putsv[b].0@ {
                    crate::page::lemma_page_key_injective(
                        path@,
                        pos@[a] as nat,
                        pos@[b] as nat,
                    );
                }
            }
            assert forall|po: int| #[trigger] affected(ws, po) implies self.store().contains_key(
                spec_page_key(path@, po as nat),
            ) && self.store()[spec_page_key(path@, po as nat)] == page_result(
                m0,
                path@,
                ws,
                po,
            ) by {
                let w = choose|w: int|
                    0 <= w < ws.len() && spec_page_offset((#[trigger] ws[w]).0 as int) == po;
                let q = choose|q: int|
                    0 <= q < pos@.len() && pos@[q] as int == spec_page_offset(
                        (#[trigger] ws[w]).0 as int,
                    );
                lemma_apply_puts_at(m0, putsv, q);
            }
            assert forall|k: Seq<char>|
                !key_of_affected_page(path@, ws, k) implies (#[trigger] self.store().contains_key(
                k,
            ) <==> m0.contains_key(k)) && (m0.contains_key(k) ==> self.store()[k] == m0[k]) by {
                assert forall|q: int| 0 <= q < putsv.len() implies (#[trigger] putsv[q]).0@
                    != k by {
                    if putsv[q].0@ == k {
                        assert(affected(ws, pos@[q] as int));
                        assert(key_of_affected_page(path@, ws, k));
                    }
                }
                lemma_apply_puts_notin(m0, putsv, k);
            }
        }
    }

    /// Interpret a file-control opcode: begin, commit or roll back an atomic
    /// write batch.  Any other opcode is reported as not supported.  While a
    /// batch is open, writes to the file are buffered; commit merges the
    /// buffer into its pages and submits them as one atomic batch, an empty
    /// buffer committing as a no-op; rollback discards the buffer without
    /// touching the store.
    pub fn file_control(&mut self, handle: &SlatedbVfsHandle, op: i32) -> (r: Result<(), i32>)
        requires
            old(self).wf(),
        ensures
            final(self).wf(),
            final(self).locks() == old(self).locks(),
            final(self).caps() == old(self).caps(),
            final(self).next_handle() == old(self).next_handle(),
            op == SQLITE_FCNTL_BEGIN_ATOMIC_WRITE ==> {
                &&& r == Ok::<(), i32>(())
                &&& final(self).store() == old(self).store()
                &&& final(self).batch_open_for(handle.path@)
                &&& final(self).pending_for(handle.path@) == old(self).pending_for(handle.path@)
                &&& final(self).batches().remove(handle.path@) == old(self).batches().remove(
                    handle.path@,
                )
            },
            op == SQLITE_FCNTL_COMMIT_ATOMIC_WRITE ==> {
                &&& r == Ok::<(), i32>(())
                &&& is_commit_result(
                    old(self).store(),
                    handle.path@,
                    old(self).pending_for(handle.path@),
                    final(self).store(),
                )
                &&& !final(self).batch_open_for(handle.path@)
                &&& final(self).pending_for(handle.path@) == Seq::<(nat, Seq<u8>)>::empty()
                &&& final(self).batches().remove(handle.path@) == old(self).batches().remove(
                    handle.path@,
                )
            },
            op == SQLITE_FCNTL_ROLLBACK_ATOMIC_WRITE ==> {
                &&& r == Ok::<(), i32>(())
                &&& final(self).store() == old(self).store()
                &&& !final(self).batch_open_for(handle.path@)
                &&& final(self).pending_for(handle.path@) == Seq::<(nat, Seq<u8>)>::empty()
                &&& final(self).batches().remove(handle.path@) == old(self).batches().remove(
                    handle.path@,
                )
            },
            (op != SQLITE_FCNTL_BEGIN_ATOMIC_WRITE && op != SQLITE_FCNTL_COMMIT_ATOMIC_WRITE && op
                != SQLITE_FCNTL_ROLLBACK_ATOMIC_WRITE) ==> {
                &&& r == Err::<(), i32>(SQLITE_NOTFOUND)
                &&& final(self).store() == old(self).store()
                &&& final(self).batches() == old(self).batches()
            },
    {
        if op == SQLITE_FCNTL_BEGIN_ATOMIC_WRITE {
            self.begin_batch(&handle.path);
            Ok(())
        } else if op == SQLITE_FCNTL_COMMIT_ATOMIC_WRITE {
            let pending = self.end_batch(&handle.path);
            if pending.len() == 0 {
                proof {
                    assert(pending_model(pending@) =~= Seq::<(nat, Seq<u8>)>::empty());
                    assert(is_commit_result(
                        old(self).store(),
                        handle.path@,
                        old(self).pending_for(handle.path@),
                        self.store(),
                    ));
                }
                return Ok(());
            }
            self.commit_pending(&handle.path, pending);
            Ok(())
        } else if op == SQLITE_FCNTL_ROLLBACK_ATOMIC_WRITE {
            let _ = self.end_batch(&handle.path);
            Ok(())
        } else {
            Err(SQLITE_NOTFOUND)
        }
    }
}

/// The error a pragma query can produce: the pragma is not one the adapter
/// answers, or it failed with a code and message.
#[derive(Debug)]
pub enum PragmaErr {
    /// The pragma is not recognized by this adapter.
    NotFound,
    /// The pragma failed; the code and message explain why.
    Fail(i32, String),
}

/// Copy a byte slice into a vector.
fn slice_to_vec(data: &[u8]) -> (r: Vec<u8>)
    ensures
        r@ == data@,
{
    let mut out: Vec<u8> = Vec::new();
    let mut i: usize = 0;
    while i < data.len()
        invariant
            i <= data@.len(),
            out@ == data@.subrange(0, i as int),
        decreases data@.len() - i,
    {
        out.push(data[i]);
        proof {
            assert(out@ =~= data@.subrange(0, i + 1 as int));
        }
        i += 1;
    }
    proof {
        assert(out@ =~= data@);
    }
    out
}

} // verus!

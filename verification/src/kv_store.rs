//! An in-process model of the consumed key-value interface: `get`, `put`,
//! `delete`, an atomic multi-key batch write, and a durability flush.
//!
//! The adapter's page store and batch-write coordinator are verified against
//! this store.  Keys are strings; values are raw byte pages.  The store's
//! view is the map from key to contents, and every operation's contract is
//! stated as a map transformation.

use vstd::prelude::*;

use crate::smap::{
    find_skey, lemma_skey_absent, lemma_skey_index,
    lemma_skey_push_after_erase, lemma_skey_remove, lemma_skey_some, lemma_skey_uniq_remove,
    skey_get, skey_uniq,
};

verus! {

/// Apply a list of puts to a map, in list order; a later put to the same key
/// overrides an earlier one.
pub open spec fn spec_apply_puts(
    m: Map<Seq<char>, Seq<u8>>,
    puts: Seq<(String, Vec<u8>)>,
) -> Map<Seq<char>, Seq<u8>>
    decreases puts.len(),
{
    if puts.len() == 0 {
        m
    } else {
        spec_apply_puts(m.insert(puts.first().0@, puts.first().1@), puts.drop_first())
    }
}

/// The key-value store holding one page or marker per key.
pub struct KvStore {
    entries: Vec<(String, Vec<u8>)>,
}

impl View for KvStore {
    type V = Map<Seq<char>, Seq<u8>>;

    closed spec fn view(&self) -> Map<Seq<char>, Seq<u8>> {
        Map::new(
            |k: Seq<char>| skey_get(self.entries@, k) is Some,
            |k: Seq<char>| skey_get(self.entries@, k).unwrap()@,
        )
    }
}

impl KvStore {
    /// Well-formedness: each key is stored at most once.
    pub closed spec fn wf(&self) -> bool {
        skey_uniq(self.entries@)
    }

    /// The number of keys the store holds.
    pub closed spec fn size(&self) -> nat {
        self.entries@.len()
    }

    /// An empty store.
    pub fn new() -> (r: Self)
        ensures
            r.wf(),
            r@ == Map::<Seq<char>, Seq<u8>>::empty(),
            r.size() == 0,
    {
        let r = KvStore { entries: Vec::new() };
        proof {
            assert(r@ =~= Map::<Seq<char>, Seq<u8>>::empty());
        }
        r
    }

    /// Look a key up; `None` when the store has no entry for it.
    pub fn get(&self, key: &String) -> (r: Option<&Vec<u8>>)
        requires
            self.wf(),
        ensures
            match r {
                Some(v) => self@.contains_key(key@) && v@ == self@[key@],
                None => !self@.contains_key(key@),
            },
    {
        match find_skey(&self.entries, key) {
            Some(i) => {
                proof {
                    lemma_skey_index(self.entries@, i as int);
                }
                Some(&self.entries[i].1)
            },
            None => {
                proof {
                    lemma_skey_absent(self.entries@, key@);
                }
                None
            },
        }
    }

    /// Store `value` under `key`, replacing any earlier entry.
    pub fn put(&mut self, key: String, value: Vec<u8>) -> (r: Result<(), i32>)
        requires
            old(self).wf(),
        ensures
            final(self).wf(),
            r == Ok::<(), i32>(()),
            final(self)@ == old(self)@.insert(key@, value@),
            final(self).size() <= old(self).size() + 1,
    {
        let ghost s0 = self.entries@;
        match find_skey(&self.entries, &key) {
            Some(i) => {
                self.entries.remove(i);
                let ghost s1 = self.entries@;
                self.entries.push((key, value));
                proof {
                    lemma_skey_uniq_remove(s0, i as int);
                    let e = self.entries@.last();
                    assert(self.entries@ == s1.push(e));
                    assert forall|k: Seq<char>| true implies #[trigger] skey_get(s1, k) == (
                        if k == e.0@ { None::<Vec<u8>> } else { skey_get(s0, k) }
                    ) by {
                        lemma_skey_remove(s0, i as int, k);
                    }
                    lemma_skey_push_after_erase(s0, s1, e);
                    assert(final(self)@ =~= old(self)@.insert(e.0@, e.1@));
                }
            },
            None => {
                let ghost s0 = self.entries@;
                self.entries.push((key, value));
                proof {
                    let e = self.entries@.last();
                    assert(self.entries@ == s0.push(e));
                    assert forall|k: Seq<char>| true implies #[trigger] skey_get(s0, k) == (
                        if k == e.0@ { None::<Vec<u8>> } else { skey_get(s0, k) }
                    ) by {
                        if k == e.0@ {
                            lemma_skey_absent(s0, k);
                        }
                    }
                    lemma_skey_push_after_erase(s0, s0, e);
                    assert(final(self)@ =~= old(self)@.insert(e.0@, e.1@));
                }
            },
        }
        Ok(())
    }

    /// Remove the entry for `key`, if any.
    pub fn delete(&mut self, key: &String) -> (r: Result<(), i32>)
        requires
            old(self).wf(),
        ensures
            final(self).wf(),
            r == Ok::<(), i32>(()),
            final(self)@ == old(self)@.remove(key@),
            final(self).size() == if old(self)@.contains_key(key@) {
                (old(self).size() - 1) as nat
            } else {
                old(self).size()
            },
    {
        let ghost s0 = self.entries@;
        match find_skey(&self.entries, key) {
            Some(i) => {
                self.entries.remove(i);
                proof {
                    lemma_skey_uniq_remove(s0, i as int);
                    lemma_skey_index(s0, i as int);
                    assert forall|k: Seq<char>| true implies #[trigger] skey_get(
                        self.entries@,
                        k,
                    ) == (if k == key@ { None::<Vec<u8>> } else { skey_get(s0, k) }) by {
                        lemma_skey_remove(s0, i as int, k);
                    }
                    assert(final(self)@ =~= old(self)@.remove(key@));
                }
            },
            None => {
                proof {
                    lemma_skey_absent(s0, key@);
                    assert(final(self)@ =~= old(self)@.remove(key@));
                }
            },
        }
        Ok(())
    }

    /// Apply a list of puts as one atomic batch: either the whole batch is
    /// applied (here, always) or nothing would be.  Later puts override
    /// earlier ones on the same key.
    pub fn write_batch(&mut self, puts: Vec<(String, Vec<u8>)>) -> (r: Result<(), i32>)
        requires
            old(self).wf(),
        ensures
            final(self).wf(),
            r == Ok::<(), i32>(()),
            final(self)@ == spec_apply_puts(old(self)@, puts@),
    {
        let ghost m0 = self@;
        let ghost puts0 = puts@;
        let mut puts = puts;
        while puts.len() > 0
            invariant
                self.wf(),
                spec_apply_puts(m0, puts0) == spec_apply_puts(self@, puts@),
            decreases puts@.len(),
        {
            let ghost before = puts@;
            let e = puts.remove(0);
            let _ = self.put(e.0, e.1);
            proof {
                assert(puts@ =~= before.drop_first());
            }
        }
        Ok(())
    }

    /// Durability barrier.  The in-process store is always durable, so this
    /// is a visible no-op; the contract records that nothing changes.
    pub fn flush(&self) -> (r: Result<(), i32>)
        ensures
            r == Ok::<(), i32>(()),
    {
        Ok(())
    }

}

/// Copy a byte vector; the copy holds the same bytes.
pub fn clone_bytes(v: &Vec<u8>) -> (r: Vec<u8>)
    ensures
        r@ == v@,
{
    let mut out: Vec<u8> = Vec::new();
    let mut i: usize = 0;
    while i < v.len()
        invariant
            i <= v@.len(),
            out@ == v@.subrange(0, i as int),
        decreases v@.len() - i,
    {
        out.push(v[i]);
        proof {
            assert(out@ =~= v@.subrange(0, i + 1 as int));
        }
        i += 1;
    }
    proof {
        assert(out@ =~= v@);
    }
    out
}

} // verus!

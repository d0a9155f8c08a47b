//! String-keyed association lists and their view as a `Map<Seq<char>, V>`.
//!
//! The registries of this crate (pages of the key-value store, lock state
//! per file, batch-write state per file) all key their entries by a string
//! and keep each key at most once.  This module holds the shared lookup
//! function, the spec-level view, and the lemmas relating list operations to
//! map operations.

use vstd::prelude::*;

verus! {

/// The value a key resolves to in an association list, taking the latest
/// entry when several carry the same key.
pub open spec fn skey_get<V>(s: Seq<(String, V)>, k: Seq<char>) -> Option<V>
    decreases s.len(),
{
    if s.len() == 0 {
        None
    } else if s.last().0@ == k {
        Some(s.last().1)
    } else {
        skey_get(s.drop_last(), k)
    }
}

/// Each key occurs at most once.
pub open spec fn skey_uniq<V>(s: Seq<(String, V)>) -> bool {
    forall|i: int, j: int| 0 <= i < j < s.len() ==> s[i].0@ != s[j].0@
}

/// The association list as a map from key to value.
pub open spec fn skey_map<V>(s: Seq<(String, V)>) -> Map<Seq<char>, V> {
    Map::new(|k: Seq<char>| skey_get(s, k) is Some, |k: Seq<char>| skey_get(s, k).unwrap())
}

pub proof fn lemma_skey_absent<V>(s: Seq<(String, V)>, k: Seq<char>)
    requires
        forall|i: int| 0 <= i < s.len() ==> s[i].0@ != k,
    ensures
        skey_get(s, k) is None,
    decreases s.len(),
{
    if s.len() > 0 {
        lemma_skey_absent(s.drop_last(), k);
    }
}

/// With unique keys, the entry at any index is what lookup returns.
pub proof fn lemma_skey_index<V>(s: Seq<(String, V)>, i: int)
    requires
        skey_uniq(s),
        0 <= i < s.len(),
    ensures
        skey_get(s, s[i].0@) == Some(s[i].1),
    decreases s.len(),
{
    if i < s.len() - 1 {
        lemma_skey_index(s.drop_last(), i);
    }
}

/// Any listed key resolves to something, uniqueness not needed.
pub proof fn lemma_skey_index_weak<V>(s: Seq<(String, V)>, i: int)
    requires
        0 <= i < s.len(),
    ensures
        skey_get(s, s[i].0@) is Some,
    decreases s.len(),
{
    if i < s.len() - 1 && s.last().0@ != s[i].0@ {
        lemma_skey_index_weak(s.drop_last(), i);
    }
}

pub proof fn lemma_skey_some<V>(s: Seq<(String, V)>, k: Seq<char>)
    requires
        skey_get(s, k) is Some,
    ensures
        exists|i: int|
            0 <= i < s.len() && s[i].0@ == k && s[i].1 == skey_get(s, k).unwrap(),
    decreases s.len(),
{
    if s.len() > 0 {
        if s.last().0@ == k {
            assert(s[s.len() - 1].0@ == k && s[s.len() - 1].1 == skey_get(s, k).unwrap());
        } else {
            lemma_skey_some(s.drop_last(), k);
            let i = choose|i: int|
                0 <= i < s.drop_last().len() && s.drop_last()[i].0@ == k && s.drop_last()[i].1
                    == skey_get(s.drop_last(), k).unwrap();
            assert(s[i].0@ == k && s[i].1 == skey_get(s, k).unwrap());
        }
    }
}

pub proof fn lemma_skey_uniq_remove<V>(s: Seq<(String, V)>, i: int)
    requires
        skey_uniq(s),
        0 <= i < s.len(),
    ensures
        skey_uniq(s.remove(i)),
{
    assert forall|a: int, b: int|
        0 <= a < b < s.remove(i).len() implies s.remove(i)[a].0@ != s.remove(i)[b].0@ by {
        if a < i {
            if b < i {
                assert(s.remove(i)[a] == s[a] && s.remove(i)[b] == s[b]);
            } else {
                assert(s.remove(i)[a] == s[a] && s.remove(i)[b] == s[b + 1]);
            }
        } else {
            assert(s.remove(i)[a] == s[a + 1] && s.remove(i)[b] == s[b + 1]);
        }
    }
}

/// Removing index `i` removes exactly the key listed there.
pub proof fn lemma_skey_remove<V>(s: Seq<(String, V)>, i: int, k: Seq<char>)
    requires
        skey_uniq(s),
        0 <= i < s.len(),
    ensures
        skey_get(s.remove(i), k) == if k == s[i].0@ {
            None::<V>
        } else {
            skey_get(s, k)
        },
    decreases s.len(),
{
    if i == s.len() - 1 {
        assert(s.remove(i) =~= s.drop_last());
        if k == s[i].0@ {
            assert forall|j: int| 0 <= j < s.drop_last().len() implies s.drop_last()[j].0@
                != k by {
                assert(s[j] == s.drop_last()[j]);
            }
            lemma_skey_absent(s.drop_last(), k);
        }
    } else {
        let s2 = s.remove(i);
        assert(s2.last() == s.last());
        assert(s2.drop_last() =~= s.drop_last().remove(i));
        lemma_skey_remove(s.drop_last(), i, k);
        if s.last().0@ == k {
            assert(s[i].0@ != k);
        }
    }
}

/// Appending an entry whose key is absent from the list produces the
/// inserted map.
pub proof fn lemma_skey_push_after_erase<V>(
    s0: Seq<(String, V)>,
    s1: Seq<(String, V)>,
    e: (String, V),
)
    requires
        skey_uniq(s1),
        forall|k: Seq<char>| #[trigger] skey_get(s1, k) == if k == e.0@ {
            None::<V>
        } else {
            skey_get(s0, k)
        },
    ensures
        skey_uniq(s1.push(e)),
        skey_map(s1.push(e)) == skey_map(s0).insert(e.0@, e.1),
        forall|k: Seq<char>| #[trigger] skey_get(s1.push(e), k) == if k == e.0@ {
            Some(e.1)
        } else {
            skey_get(s0, k)
        },
{
    let s2 = s1.push(e);
    assert(s2.drop_last() =~= s1);
    assert forall|a: int, b: int| 0 <= a < b < s2.len() implies s2[a].0@ != s2[b].0@ by {
        if b == s2.len() - 1 {
            assert(s2[a] == s1[a]);
            if s1[a].0@ == e.0@ {
                lemma_skey_index_weak(s1, a);
            }
        } else {
            assert(s2[a] == s1[a] && s2[b] == s1[b]);
        }
    }
    assert forall|k: Seq<char>| true implies #[trigger] skey_get(s2, k) == (
        if k == e.0@ { Some(e.1) } else { skey_get(s0, k) }
    ) by {
        if k != e.0@ {
            assert(skey_get(s2, k) == skey_get(s1, k));
        }
    }
    assert(skey_map(s2) =~= skey_map(s0).insert(e.0@, e.1));
}

/// Find the index of a key in an association list.
pub fn find_skey<V>(v: &Vec<(String, V)>, k: &String) -> (r: Option<usize>)
    ensures
        match r {
            Some(i) => i < v@.len() && v@[i as int].0@ == k@,
            None => forall|i: int| 0 <= i < v@.len() ==> v@[i].0@ != k@,
        },
{
    let mut i: usize = 0;
    while i < v.len()
        invariant
            i <= v@.len(),
            forall|j: int| 0 <= j < i ==> v@[j].0@ != k@,
        decreases v@.len() - i,
    {
        if v[i].0.eq(k) {
            return Some(i);
        }
        i += 1;
    }
    None
}

} // verus!

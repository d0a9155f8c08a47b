//! Laws of the page store and the batch-write coordinator, proved from the
//! adapter's contracts: writes read back unchanged, truncation keeps exactly
//! the bytes below the cut, and a committed batch equals the same writes
//! applied one by one.

use vstd::prelude::*;

use crate::page::{spec_page_key, spec_page_offset, PAGE_SIZE};
use crate::vfs::{
    affected, apply_writes_to_page, chain_keys, file_scan_fits, is_commit_result, is_scan_end,
    key_of_affected_page, page_key_at, pages_present_range, scan_size_at, spec_read_result,
    spec_shrunk, spec_store_after_write, writes_for_page,
};

verus! {

/// Page round-trip: after writing `data` at `offset`, reading `data.len()`
/// bytes at `offset` returns exactly `data` — whatever the file held before,
/// and also when the write lies beyond the current end (a sparse write) or
/// straddles the tail of the page's previous contents.
pub proof fn lemma_page_round_trip(
    m: Map<Seq<char>, Seq<u8>>,
    path: Seq<char>,
    offset: nat,
    data: Seq<u8>,
)
    ensures
        spec_read_result(
            spec_store_after_write(m, path, offset, data),
            path,
            offset,
            data.len(),
        ) == data,
{
    let pk = spec_page_key(path, spec_page_offset(offset as int) as nat);
    let off = (offset as int) % (PAGE_SIZE as int);
    let m1 = spec_store_after_write(m, path, offset, data);
    assert(m1.contains_key(pk));
    let page1 = m1[pk];
    assert(page1.len() >= off + data.len());
    if data.len() == 0 {
        assert(spec_read_result(m1, path, offset, 0) =~= data);
    } else {
        assert(spec_read_result(m1, path, offset, data.len()) =~= data);
    }
}

/// The store after a sequence of plain (non-batched) writes, oldest first.
pub open spec fn store_after_writes(
    m: Map<Seq<char>, Seq<u8>>,
    path: Seq<char>,
    writes: Seq<(nat, Seq<u8>)>,
) -> Map<Seq<char>, Seq<u8>>
    decreases writes.len(),
{
    if writes.len() == 0 {
        m
    } else {
        store_after_writes(
            spec_store_after_write(m, path, writes.first().0, writes.first().1),
            path,
            writes.drop_first(),
        )
    }
}

/// Filtering for a page keeps everything when every write already addresses
/// that page.
proof fn lemma_writes_for_page_all(writes: Seq<(nat, Seq<u8>)>, po: int)
    requires
        forall|i: int|
            0 <= i < writes.len() ==> spec_page_offset((#[trigger] writes[i]).0 as int) == po,
    ensures
        writes_for_page(writes, po) == writes,
    decreases writes.len(),
{
    reveal(Seq::filter);
    if writes.len() > 0 {
        assert forall|i: int|
            0 <= i < writes.drop_last().len() implies spec_page_offset(
            (#[trigger] writes.drop_last()[i]).0 as int,
        ) == po by {
            assert(writes.drop_last()[i] == writes[i]);
        }
        lemma_writes_for_page_all(writes.drop_last(), po);
        assert(writes_for_page(writes, po) =~= writes.drop_last().push(writes.last()));
        assert(writes.drop_last().push(writes.last()) =~= writes);
    }
}

/// Sequential writes to one page collapse to a single page update: the page
/// at `po` holds the writes applied in order, and nothing else changes.
proof fn lemma_sequential_writes_one_page(
    m: Map<Seq<char>, Seq<u8>>,
    path: Seq<char>,
    writes: Seq<(nat, Seq<u8>)>,
    po: int,
)
    requires
        writes.len() > 0,
        forall|i: int|
            0 <= i < writes.len() ==> spec_page_offset((#[trigger] writes[i]).0 as int) == po,
    ensures
        ({
            let pk = spec_page_key(path, po as nat);
            let page0 = if m.contains_key(pk) {
                m[pk]
            } else {
                Seq::<u8>::empty()
            };
            store_after_writes(m, path, writes) == m.insert(
                pk,
                apply_writes_to_page(page0, writes),
            )
        }),
    decreases writes.len(),
{
    let pk = spec_page_key(path, po as nat);
    let page0 = if m.contains_key(pk) {
        m[pk]
    } else {
        Seq::<u8>::empty()
    };
    let w0 = writes.first();
    let m1 = spec_store_after_write(m, path, w0.0, w0.1);
    let page1 = crate::page::spec_apply_write(page0, (w0.0 as int) % (PAGE_SIZE as int), w0.1);
    assert(m1 == m.insert(pk, page1));
    if writes.len() == 1 {
        assert(writes.drop_first() =~= Seq::<(nat, Seq<u8>)>::empty());
        assert(store_after_writes(m1, path, writes.drop_first()) == m1);
        assert(apply_writes_to_page(page0, writes) == apply_writes_to_page(
            page1,
            writes.drop_first(),
        ));
        assert(apply_writes_to_page(page1, Seq::<(nat, Seq<u8>)>::empty()) == page1);
    } else {
        assert forall|i: int|
            0 <= i < writes.drop_first().len() implies spec_page_offset(
            (#[trigger] writes.drop_first()[i]).0 as int,
        ) == po by {
            assert(writes.drop_first()[i] == writes[i + 1]);
        }
        lemma_sequential_writes_one_page(m1, path, writes.drop_first(), po);
        assert(m1.contains_key(pk) && m1[pk] == page1);
        assert(m1.insert(pk, apply_writes_to_page(page1, writes.drop_first())) =~= m.insert(
            pk,
            apply_writes_to_page(page0, writes),
        ));
    }
}

/// Atomic batch: committing a batch of overlapping writes to one page gives
/// the page the writes applied in buffer order, exactly as if each write had
/// been performed on its own, and leaves every other key of the store
/// untouched.  (Rollback is covered by `file_control`'s own contract: the
/// store is unchanged and the buffer is discarded.)
pub proof fn lemma_atomic_batch_equals_sequential_writes(
    m: Map<Seq<char>, Seq<u8>>,
    path: Seq<char>,
    writes: Seq<(nat, Seq<u8>)>,
    m1: Map<Seq<char>, Seq<u8>>,
    po: int,
)
    requires
        is_commit_result(m, path, writes, m1),
        writes.len() > 0,
        forall|i: int|
            0 <= i < writes.len() ==> spec_page_offset((#[trigger] writes[i]).0 as int) == po,
    ensures
        m1 == store_after_writes(m, path, writes),
        m1.contains_key(spec_page_key(path, po as nat)),
        m1[spec_page_key(path, po as nat)] == apply_writes_to_page(
            if m.contains_key(spec_page_key(path, po as nat)) {
                m[spec_page_key(path, po as nat)]
            } else {
                Seq::<u8>::empty()
            },
            writes,
        ),
{
    let pk = spec_page_key(path, po as nat);
    let page0 = if m.contains_key(pk) {
        m[pk]
    } else {
        Seq::<u8>::empty()
    };
    assert(affected(writes, po)) by {
        assert(spec_page_offset(writes[0].0 as int) == po);
    }
    lemma_writes_for_page_all(writes, po);
    assert(m1.contains_key(pk) && m1[pk] == apply_writes_to_page(page0, writes));
    lemma_sequential_writes_one_page(m, path, writes, po);
    assert forall|k: Seq<char>| true implies #[trigger] m1.contains_key(k) == store_after_writes(
        m,
        path,
        writes,
    ).contains_key(k) && (m1.contains_key(k) ==> m1[k] == store_after_writes(m, path, writes)[k])
        by {
        if k != pk {
            assert forall|po2: int| #[trigger] affected(writes, po2) implies k != spec_page_key(
                path,
                po2 as nat,
            ) by {
                let i = choose|i: int|
                    0 <= i < writes.len() && spec_page_offset((#[trigger] writes[i]).0 as int)
                        == po2;
                assert(po2 == po);
            }
            assert(!key_of_affected_page(path, writes, k));
        }
    }
    assert(m1 =~= store_after_writes(m, path, writes));
}

/// Truncation, mid-file cut: for a file stored as the contiguous chain of
/// pages `0 .. n` (and nothing beyond), truncating to a size `s` that falls
/// inside the chain leaves exactly the bytes below `s` readable — every byte
/// below `s` reads as before, every byte at or past `s` reads empty — and a
/// subsequent size scan reports exactly `s`.
pub proof fn lemma_truncate_keeps_prefix(
    m: Map<Seq<char>, Seq<u8>>,
    path: Seq<char>,
    n: int,
    s: nat,
    m2: Map<Seq<char>, Seq<u8>>,
)
    requires
        is_scan_end(m, path, 0, n),
        forall|i: int| i >= n ==> !m.contains_key(#[trigger] page_key_at(path, i)),
        s > 0,
        (s as int) / (PAGE_SIZE as int) < n,
        m[page_key_at(path, (s as int) / (PAGE_SIZE as int))].len() > (s as int) % (
        PAGE_SIZE as int),
        ({
            let start = (s as int) / (PAGE_SIZE as int) + 1;
            let m1 = spec_shrunk(m, path, s);
            exists|n2: int|
                #[trigger] is_scan_end(m1, path, start, n2) && m2 == m1.remove_keys(
                    chain_keys(path, start, n2),
                )
        }),
    ensures
        is_scan_end(m2, path, 0, (s as int) / (PAGE_SIZE as int) + 1),
        scan_size_at(m2, path, (s as int) / (PAGE_SIZE as int) + 1) == s,
        forall|off: nat| off < s ==> spec_read_result(m2, path, off, 1) == spec_read_result(
            m,
            path,
            off,
            1,
        ),
        forall|off: nat, len: nat|
            off >= s ==> spec_read_result(m2, path, off, len) == Seq::<u8>::empty(),
{
    let tidx = (s as int) / (PAGE_SIZE as int);
    let cut = (s as int) % (PAGE_SIZE as int);
    let start = tidx + 1;
    let pk = page_key_at(path, tidx);
    let m1 = spec_shrunk(m, path, s);
    proof_tidx_key(path, s);
    assert(m1 == m.insert(pk, m[pk].subrange(0, cut)));
    let n2 = choose|n2: int|
        #[trigger] is_scan_end(m1, path, start, n2) && m2 == m1.remove_keys(
            chain_keys(path, start, n2),
        );
    // The delete scan runs to exactly n: pages start..n are present in m1
    // and page n is absent.
    assert(is_scan_end(m1, path, start, n)) by {
        assert(tidx >= 0);
        assert forall|i: int| start <= i < n implies m1.contains_key(
            #[trigger] page_key_at(path, i),
        ) by {
            assert(m.contains_key(page_key_at(path, i)));
            if page_key_at(path, i) == pk {
                crate::vfs::lemma_page_key_at_injective(path, i, tidx);
            }
        }
        if m1.contains_key(page_key_at(path, n)) {
            if page_key_at(path, n) == pk {
                crate::vfs::lemma_page_key_at_injective(path, n, tidx);
            }
        }
    }
    crate::vfs::lemma_scan_end_unique(m1, path, start, n2, n);
    // What m2 holds: pages 0..tidx as before, the shrunk page at tidx,
    // nothing at tidx+1 and beyond.
    assert forall|i: int| 0 <= i < tidx implies #[trigger] m2.contains_key(page_key_at(path, i))
        && m2[page_key_at(path, i)] == m[page_key_at(path, i)] by {
        lemma_chain_key_member(path, start, n, i);
        if page_key_at(path, i) == pk {
            crate::vfs::lemma_page_key_at_injective(path, i, tidx);
        }
    }
    assert(m2.contains_key(pk) && m2[pk] == m[pk].subrange(0, cut)) by {
        lemma_chain_key_member(path, start, n, tidx);
    }
    assert forall|i: int| i >= start implies !m2.contains_key(#[trigger] page_key_at(path, i)) by {
        if i < n {
            assert(chain_keys(path, start, n).contains(page_key_at(path, i)));
        } else {
            if m2.contains_key(page_key_at(path, i)) {
                assert(m1.contains_key(page_key_at(path, i)));
                if page_key_at(path, i) == pk {
                    crate::vfs::lemma_page_key_at_injective(path, i, tidx);
                }
            }
        }
    }
    // Size scan: pages 0..=tidx present, page tidx+1 absent, last page holds
    // `cut` bytes.
    assert(pages_present_range(m2, path, 0, start));
    assert(scan_size_at(m2, path, start) == tidx * (PAGE_SIZE as int) + cut);
    assert(tidx * (PAGE_SIZE as int) + cut == s) by {
        vstd::arithmetic::div_mod::lemma_fundamental_div_mod(s as int, PAGE_SIZE as int);
    }
    // Reads below the cut are unchanged; reads at or past it are empty.
    assert forall|off: nat| off < s implies spec_read_result(m2, path, off, 1)
        == spec_read_result(m, path, off, 1) by {
        let oidx = (off as int) / (PAGE_SIZE as int);
        let ooff = (off as int) % (PAGE_SIZE as int);
        vstd::arithmetic::div_mod::lemma_fundamental_div_mod(off as int, PAGE_SIZE as int);
        vstd::arithmetic::div_mod::lemma_fundamental_div_mod(s as int, PAGE_SIZE as int);
        assert(spec_page_offset(off as int) == oidx * (PAGE_SIZE as int));
        assert(spec_page_key(path, spec_page_offset(off as int) as nat) == page_key_at(
            path,
            oidx,
        ));
        lemma_div_ordered(off as int, s as int, PAGE_SIZE as int);
        assert(oidx <= tidx);
        if oidx == tidx {
            assert(ooff < cut) by (nonlinear_arith)
                requires
                    off < s,
                    oidx == tidx,
                    off as int == oidx * (PAGE_SIZE as int) + ooff,
                    s as int == tidx * (PAGE_SIZE as int) + cut,
            ;
            assert(m2[pk].len() == cut);
            assert(spec_read_result(m2, path, off, 1) =~= spec_read_result(m, path, off, 1));
        } else {
            assert(m2.contains_key(page_key_at(path, oidx)) && m2[page_key_at(path, oidx)]
                == m[page_key_at(path, oidx)]);
        }
    }
    assert forall|off: nat, len: nat| off >= s implies spec_read_result(m2, path, off, len)
        =~= Seq::<u8>::empty() by {
        let oidx = (off as int) / (PAGE_SIZE as int);
        let ooff = (off as int) % (PAGE_SIZE as int);
        vstd::arithmetic::div_mod::lemma_fundamental_div_mod(off as int, PAGE_SIZE as int);
        vstd::arithmetic::div_mod::lemma_fundamental_div_mod(s as int, PAGE_SIZE as int);
        assert(spec_page_key(path, spec_page_offset(off as int) as nat) == page_key_at(
            path,
            oidx,
        ));
        lemma_div_ordered(s as int - 1, off as int, PAGE_SIZE as int);
        assert(tidx <= oidx) by {
            lemma_div_ordered(s as int, off as int, PAGE_SIZE as int);
        }
        if oidx == tidx {
            assert(ooff >= cut) by (nonlinear_arith)
                requires
                    off >= s,
                    oidx == tidx,
                    off as int == oidx * (PAGE_SIZE as int) + ooff,
                    s as int == tidx * (PAGE_SIZE as int) + cut,
            ;
            assert(m2[pk].len() == cut);
        } else {
            assert(oidx >= start);
            assert(!m2.contains_key(page_key_at(path, oidx)));
        }
    }
}

/// After the mid-file truncation, the size scan itself goes through: for a
/// file whose pages below the cut are at most one page long, the scan's
/// machine limits hold on the truncated store, and every scan outcome
/// reports exactly `s`.  Together with `file_size`'s own contract this gives
/// `file_size == Ok(s)` right after `truncate(s)`.
pub proof fn lemma_file_size_after_truncate(
    m: Map<Seq<char>, Seq<u8>>,
    path: Seq<char>,
    n: int,
    s: nat,
    m2: Map<Seq<char>, Seq<u8>>,
)
    requires
        is_scan_end(m, path, 0, n),
        forall|i: int| i >= n ==> !m.contains_key(#[trigger] page_key_at(path, i)),
        s > 0,
        (s as int) / (PAGE_SIZE as int) < n,
        m[page_key_at(path, (s as int) / (PAGE_SIZE as int))].len() > (s as int) % (
        PAGE_SIZE as int),
        ({
            let start = (s as int) / (PAGE_SIZE as int) + 1;
            let m1 = spec_shrunk(m, path, s);
            exists|n2: int|
                #[trigger] is_scan_end(m1, path, start, n2) && m2 == m1.remove_keys(
                    chain_keys(path, start, n2),
                )
        }),
        forall|k: int|
            0 <= k < (s as int) / (PAGE_SIZE as int) ==> m[#[trigger] page_key_at(path, k)].len()
                <= PAGE_SIZE,
        s + PAGE_SIZE <= usize::MAX,
    ensures
        file_scan_fits(m2, path),
        forall|n2: int|
            #[trigger] is_scan_end(m2, path, 0, n2) ==> scan_size_at(m2, path, n2) == s,
{
    lemma_truncate_keeps_prefix(m, path, n, s, m2);
    let tidx = (s as int) / (PAGE_SIZE as int);
    let cut = (s as int) % (PAGE_SIZE as int);
    let start = tidx + 1;
    let pk = page_key_at(path, tidx);
    let m1 = spec_shrunk(m, path, s);
    let nd = choose|n2: int|
        #[trigger] is_scan_end(m1, path, start, n2) && m2 == m1.remove_keys(
            chain_keys(path, start, n2),
        );
    proof_tidx_key(path, s);
    assert(m1 == m.insert(pk, m[pk].subrange(0, cut)));
    vstd::arithmetic::div_mod::lemma_fundamental_div_mod(s as int, PAGE_SIZE as int);
    // Pages below the cut keep their old contents and lengths.
    assert forall|k: int| 0 <= k < tidx implies m2.contains_key(#[trigger] page_key_at(path, k))
        && m2[page_key_at(path, k)] == m[page_key_at(path, k)] by {
        lemma_chain_key_member(path, start, nd, k);
        if page_key_at(path, k) == pk {
            crate::vfs::lemma_page_key_at_injective(path, k, tidx);
        }
    }
    assert(m2.contains_key(pk) && m2[pk] == m[pk].subrange(0, cut)) by {
        lemma_chain_key_member(path, start, nd, tidx);
    }
    // The scan's offsets and intermediate sizes stay within the machine.
    assert(file_scan_fits(m2, path)) by {
        assert(is_scan_end(m2, path, 0, start));
        assert(tidx * (PAGE_SIZE as int) + cut == s);
        assert(start * (PAGE_SIZE as int) == tidx * (PAGE_SIZE as int) + (PAGE_SIZE as int))
            by (nonlinear_arith)
            requires
                start == tidx + 1,
        ;
        assert(start * (PAGE_SIZE as int) <= usize::MAX);
        assert forall|k: int| 1 <= k <= start implies #[trigger] scan_size_at(m2, path, k)
            <= usize::MAX by {
            if k - 1 < tidx {
                assert(m2[page_key_at(path, k - 1)].len() <= PAGE_SIZE);
                assert((k - 1) * (PAGE_SIZE as int) + (PAGE_SIZE as int) <= start * (
                PAGE_SIZE as int)) by (nonlinear_arith)
                    requires
                        k <= start,
                        PAGE_SIZE as int == 4096,
                ;
            } else {
                assert(scan_size_at(m2, path, k) == s);
            }
        }
    }
    assert forall|n2: int| #[trigger] is_scan_end(m2, path, 0, n2) implies scan_size_at(
        m2,
        path,
        n2,
    ) == s by {
        crate::vfs::lemma_scan_end_unique(m2, path, 0, n2, start);
    }
}

/// Truncation to zero: deleting the file removes every page and the marker,
/// and a subsequent size scan reports zero.
pub proof fn lemma_truncate_to_zero(
    m: Map<Seq<char>, Seq<u8>>,
    path: Seq<char>,
    n: int,
    m2: Map<Seq<char>, Seq<u8>>,
)
    requires
        is_scan_end(m, path, 0, n),
        forall|i: int| i >= n ==> !m.contains_key(#[trigger] page_key_at(path, i)),
        exists|n2: int|
            #[trigger] is_scan_end(m, path, 0, n2) && m2 == m.remove_keys(
                chain_keys(path, 0, n2),
            ).remove(path),
    ensures
        forall|i: int| i >= 0 ==> !m2.contains_key(#[trigger] page_key_at(path, i)),
        !m2.contains_key(path),
        is_scan_end(m2, path, 0, 0),
        scan_size_at(m2, path, 0) == 0,
{
    let n2 = choose|n2: int|
        #[trigger] is_scan_end(m, path, 0, n2) && m2 == m.remove_keys(
            chain_keys(path, 0, n2),
        ).remove(path);
    crate::vfs::lemma_scan_end_unique(m, path, 0, n2, n);
    assert forall|i: int| i >= 0 implies !m2.contains_key(#[trigger] page_key_at(path, i)) by {
        if i < n {
            assert(chain_keys(path, 0, n).contains(page_key_at(path, i)));
        }
    }
}

/// Page `i` of the chain removed by a delete scan.
proof fn lemma_chain_key_member(path: Seq<char>, start: int, n: int, i: int)
    requires
        start >= 0,
        i >= 0,
    ensures
        (start <= i < n) == chain_keys(path, start, n).contains(page_key_at(path, i)),
{
    if start <= i < n {
        assert(chain_keys(path, start, n).contains(page_key_at(path, i)));
    } else {
        if chain_keys(path, start, n).contains(page_key_at(path, i)) {
            let j = choose|j: int|
                start <= j < n && page_key_at(path, i) == #[trigger] page_key_at(path, j);
            crate::vfs::lemma_page_key_at_injective(path, i, j);
        }
    }
}

/// The key of the page owning byte `s` is the chain key at index `s / page`.
proof fn proof_tidx_key(path: Seq<char>, s: nat)
    ensures
        spec_page_key(path, spec_page_offset(s as int) as nat) == page_key_at(
            path,
            (s as int) / (PAGE_SIZE as int),
        ),
{
}

/// Division by a positive divisor is monotone.
proof fn lemma_div_ordered(a: int, b: int, d: int)
    requires
        a <= b,
        d > 0,
    ensures
        a / d <= b / d,
{
    vstd::arithmetic::div_mod::lemma_div_is_ordered(a, b, d);
}

} // verus!

//! Page arithmetic and whole-page byte operations.
//!
//! Files are stored as fixed-size pages in a key-value store.  A byte offset
//! maps to the page whose key is `"{path}:page:{page_offset}"`, where
//! `page_offset` is the offset rounded down to a page boundary, written in
//! decimal.  Pages are created lazily and may be shorter than the page size
//! (a sparse or partial last page); a write that runs past the current page
//! length grows the page, zero-filling any gap.

use vstd::arithmetic::div_mod::lemma_fundamental_div_mod;
use vstd::prelude::*;
use vstd::string::StringExecFns;

verus! {

/// The fixed page size, in bytes.
pub const PAGE_SIZE: usize = 4096;

/// The page-boundary offset owning byte `offset`.
pub open spec fn spec_page_offset(offset: int) -> int {
    (offset / (PAGE_SIZE as int)) * (PAGE_SIZE as int)
}

/// Round a byte offset down to its page boundary.
pub fn page_offset_of(offset: usize) -> (r: usize)
    ensures
        r == spec_page_offset(offset as int),
        r <= offset,
        offset - r < PAGE_SIZE,
        (r as int) % (PAGE_SIZE as int) == 0,
{
    proof {
        lemma_fundamental_div_mod(offset as int, PAGE_SIZE as int);
        assert((offset as int / (PAGE_SIZE as int)) * (PAGE_SIZE as int) % (PAGE_SIZE as int)
            == 0) by (nonlinear_arith);
    }
    (offset / PAGE_SIZE) * PAGE_SIZE
}

/// The decimal digit character for `d`.
pub open spec fn digit_char(d: int) -> char {
    if d == 0 {
        '0'
    } else if d == 1 {
        '1'
    } else if d == 2 {
        '2'
    } else if d == 3 {
        '3'
    } else if d == 4 {
        '4'
    } else if d == 5 {
        '5'
    } else if d == 6 {
        '6'
    } else if d == 7 {
        '7'
    } else if d == 8 {
        '8'
    } else {
        '9'
    }
}

/// The decimal digits of `n`, most significant first, without leading zeros
/// (a single `'0'` for zero).
pub open spec fn spec_digits(n: nat) -> Seq<char>
    decreases n,
{
    if n < 10 {
        seq![digit_char(n as int)]
    } else {
        spec_digits(n / 10).push(digit_char((n % 10) as int))
    }
}

fn digit_str(d: usize) -> (r: &'static str)
    requires
        d < 10,
    ensures
        r@ == seq![digit_char(d as int)],
{
    proof {
        reveal_strlit("0");
        reveal_strlit("1");
        reveal_strlit("2");
        reveal_strlit("3");
        reveal_strlit("4");
        reveal_strlit("5");
        reveal_strlit("6");
        reveal_strlit("7");
        reveal_strlit("8");
        reveal_strlit("9");
    }
    let r: &'static str = if d == 0 {
        "0"
    } else if d == 1 {
        "1"
    } else if d == 2 {
        "2"
    } else if d == 3 {
        "3"
    } else if d == 4 {
        "4"
    } else if d == 5 {
        "5"
    } else if d == 6 {
        "6"
    } else if d == 7 {
        "7"
    } else if d == 8 {
        "8"
    } else {
        "9"
    };
    proof {
        assert(r@ =~= seq![digit_char(d as int)]);
    }
    r
}

/// Append the decimal digits of `n` to `s`.
fn push_digits(s: &mut String, n: usize)
    ensures
        final(s)@ == old(s)@ + spec_digits(n as nat),
    decreases n,
{
    if n < 10 {
        s.append(digit_str(n));
        proof {
            assert(final(s)@ =~= old(s)@ + spec_digits(n as nat));
        }
    } else {
        push_digits(s, n / 10);
        s.append(digit_str(n % 10));
        proof {
            assert(final(s)@ =~= old(s)@ + spec_digits(n as nat));
        }
    }
}

/// Every number has at least one digit.
pub proof fn lemma_digits_len(n: nat)
    ensures
        spec_digits(n).len() >= 1,
    decreases n,
{
    if n >= 10 {
        lemma_digits_len(n / 10);
    }
}

/// Distinct numbers have distinct decimal representations.
pub proof fn lemma_digits_injective(a: nat, b: nat)
    requires
        spec_digits(a) == spec_digits(b),
    ensures
        a == b,
    decreases a + b,
{
    if a < 10 && b < 10 {
        assert(spec_digits(a)[0] == digit_char(a as int));
        assert(spec_digits(b)[0] == digit_char(b as int));
    } else if a < 10 {
        lemma_digits_len(b / 10);
        assert(spec_digits(b).len() >= 2);
    } else if b < 10 {
        lemma_digits_len(a / 10);
        assert(spec_digits(a).len() >= 2);
    } else {
        assert(spec_digits(a).last() == digit_char((a % 10) as int));
        assert(spec_digits(b).last() == digit_char((b % 10) as int));
        assert(a % 10 == b % 10);
        assert(spec_digits(a).drop_last() =~= spec_digits(a / 10));
        assert(spec_digits(b).drop_last() =~= spec_digits(b / 10));
        lemma_digits_injective(a / 10, b / 10);
        lemma_fundamental_div_mod(a as int, 10);
        lemma_fundamental_div_mod(b as int, 10);
    }
}

/// The store key of the page at boundary `page_offset` of file `path`.
pub open spec fn spec_page_key(path: Seq<char>, page_offset: nat) -> Seq<char> {
    path + ":page:"@ + spec_digits(page_offset)
}

/// Build the store key for a page: `"{path}:page:{page_offset}"`.
pub fn page_key(path: &String, page_offset: usize) -> (r: String)
    ensures
        r@ == spec_page_key(path@, page_offset as nat),
{
    let mut s = path.clone();
    s.append(":page:");
    push_digits(&mut s, page_offset);
    proof {
        assert(s@ =~= spec_page_key(path@, page_offset as nat));
    }
    s
}

/// Page keys of one file are distinct for distinct boundaries.
pub proof fn lemma_page_key_injective(path: Seq<char>, a: nat, b: nat)
    requires
        spec_page_key(path, a) == spec_page_key(path, b),
    ensures
        a == b,
{
    let p = path + ":page:"@;
    assert(spec_page_key(path, a) =~= p + spec_digits(a));
    assert(spec_page_key(path, b) =~= p + spec_digits(b));
    assert(spec_digits(a).len() == spec_digits(b).len());
    assert(spec_digits(a) =~= (p + spec_digits(a)).subrange(
        p.len() as int,
        (p.len() + spec_digits(a).len()) as int,
    ));
    assert(spec_digits(b) =~= (p + spec_digits(b)).subrange(
        p.len() as int,
        (p.len() + spec_digits(b).len()) as int,
    ));
    lemma_digits_injective(a, b);
}

/// A page key is strictly longer than the file's own marker key, so the two
/// can never collide.
pub proof fn lemma_page_key_ne_marker(path: Seq<char>, a: nat)
    ensures
        spec_page_key(path, a).len() > path.len(),
        spec_page_key(path, a) != path,
{
    reveal_strlit(":page:");
    lemma_digits_len(a);
}

/// The page contents after writing `data` at in-page offset `off`: the page
/// grows if the write runs past its end, any gap is zero-filled, and the
/// addressed region is overwritten.
pub open spec fn spec_apply_write(page: Seq<u8>, off: int, data: Seq<u8>) -> Seq<u8> {
    let new_len = if off + data.len() > page.len() {
        off + data.len()
    } else {
        page.len() as int
    };
    Seq::new(
        new_len as nat,
        |i: int|
            if off <= i < off + data.len() {
                data[i - off]
            } else if i < page.len() {
                page[i]
            } else {
                0u8
            },
    )
}

/// Write `data` into `page` at in-page offset `off`.
pub fn apply_write(page: Vec<u8>, off: usize, data: &[u8]) -> (r: Vec<u8>)
    requires
        off + data@.len() <= usize::MAX,
    ensures
        r@ == spec_apply_write(page@, off as int, data@),
{
    let ghost page0 = page@;
    let mut page = page;
    if page.len() < off + data.len() {
        while page.len() < off + data.len()
            invariant
                off + data@.len() <= usize::MAX,
                page0.len() <= page@.len(),
                page@.len() <= off + data@.len(),
                page@.subrange(0, page0.len() as int) == page0,
                forall|i: int| page0.len() <= i < page@.len() ==> page@[i] == 0u8,
            decreases off + data@.len() - page@.len(),
        {
            page.push(0);
            proof {
                assert(page@.subrange(0, page0.len() as int) =~= page0);
            }
        }
    }
    let mut i: usize = 0;
    let ghost grown = page@;
    proof {
        assert(grown.subrange(0, page0.len() as int) =~= page0);
        assert(forall|j: int| page0.len() <= j < grown.len() ==> grown[j] == 0u8);
    }
    while i < data.len()
        invariant
            off + data@.len() <= usize::MAX,
            i <= data@.len(),
            off + data@.len() <= page@.len(),
            page@.len() == grown.len(),
            forall|j: int| 0 <= j < i ==> page@[off + j] == data@[j],
            forall|j: int| 0 <= j < page@.len() && !(off <= j < off + i) ==> page@[j] == grown[j],
        decreases data@.len() - i,
    {
        page[off + i] = data[i];
        i += 1;
    }
    proof {
        let target = spec_apply_write(page0, off as int, data@);
        assert(page@.len() == target.len());
        assert forall|j: int| 0 <= j < page@.len() implies page@[j] == target[j] by {
            if off <= j < off + data@.len() {
            } else if j < page0.len() {
                assert(page@[j] == grown[j]);
                assert(grown.subrange(0, page0.len() as int)[j] == grown[j]);
            } else {
                assert(page@[j] == grown[j]);
            }
        }
        assert(page@ =~= target);
    }
    page
}

/// The bytes a read of `len` bytes at in-page offset `off` returns: the
/// overlap of the request with the page's actual contents, empty when the
/// offset lies at or past the page's end.
pub open spec fn spec_read_page(page: Seq<u8>, off: int, len: int) -> Seq<u8> {
    if off >= page.len() {
        Seq::empty()
    } else {
        page.subrange(
            off,
            if off + len <= page.len() {
                off + len
            } else {
                page.len() as int
            },
        )
    }
}

/// Read up to `len` bytes from `page` starting at in-page offset `off`.
pub fn read_from_page(page: &Vec<u8>, off: usize, len: usize) -> (r: Vec<u8>)
    ensures
        r@ == spec_read_page(page@, off as int, len as int),
        r@.len() <= len,
{
    let mut out: Vec<u8> = Vec::new();
    if off >= page.len() {
        proof {
            assert(out@ =~= spec_read_page(page@, off as int, len as int));
        }
        return out;
    }
    let avail = page.len() - off;
    let take = if len < avail {
        len
    } else {
        avail
    };
    let mut i: usize = 0;
    while i < take
        invariant
            i <= take,
            off + take <= usize::MAX,
            off + take <= page@.len(),
            out@.len() == i,
            forall|j: int| 0 <= j < i ==> out@[j] == page@[off + j],
        decreases take - i,
    {
        out.push(page[off + i]);
        i += 1;
    }
    proof {
        assert(out@ =~= spec_read_page(page@, off as int, len as int));
    }
    out
}

} // verus!

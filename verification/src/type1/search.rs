//! Finding a byte string in a byte string.

use vstd::prelude::*;

verus! {

/// `n` occurs in `h` at `k`.
pub open spec fn occurs_at(h: Seq<u8>, n: Seq<u8>, k: int) -> bool {
    0 <= k && k + n.len() <= h.len() && h.subrange(k, k + n.len()) == n
}

/// The first place at or after `from` where `n` occurs in `h`.
pub open spec fn find_seq(h: Seq<u8>, n: Seq<u8>, from: int) -> Option<int>
    decreases h.len() + 1 - from,
{
    if from < 0 || from + n.len() > h.len() {
        None
    } else if occurs_at(h, n, from) {
        Some(from)
    } else {
        find_seq(h, n, from + 1)
    }
}

pub proof fn lemma_find_seq(h: Seq<u8>, n: Seq<u8>, from: int)
    requires
        0 <= from,
    ensures
        find_seq(h, n, from) matches Some(k) ==> from <= k && occurs_at(h, n, k),
    decreases h.len() + 1 - from,
{
    if from + n.len() <= h.len() && !occurs_at(h, n, from) {
        lemma_find_seq(h, n, from + 1);
    }
}

fn occurs_at_exec(h: &[u8], n: &[u8], k: usize) -> (r: bool)
    requires
        k + n@.len() <= h@.len(),
    ensures
        r == occurs_at(h@, n@, k as int),
{
    let hl = h.len();
    let mut i: usize = 0;
    while i < n.len()
        invariant
            hl == h@.len(),
            k + n@.len() <= h@.len(),
            i <= n@.len(),
            forall|j: int| 0 <= j < i ==> h@[k + j] == n@[j],
        decreases n@.len() - i,
    {
        if h[k + i] != n[i] {
            assert(h@.subrange(k as int, k + n@.len())[i as int] != n@[i as int]);
            return false;
        }
        i = i + 1;
    }
    assert(h@.subrange(k as int, k + n@.len()) =~= n@);
    true
}

/// The first place at or after `from` where `needle` occurs.
pub fn find_from(hay: &[u8], needle: &[u8], from: usize) -> (r: Option<usize>)
    requires
        from <= hay@.len(),
        needle@.len() > 0,
    ensures
        match r {
            Some(k) => find_seq(hay@, needle@, from as int) == Some(k as int),
            None => find_seq(hay@, needle@, from as int) is None,
        },
        r matches Some(k) ==> from <= k && k + needle@.len() <= hay@.len(),
{
    proof {
        lemma_find_seq(hay@, needle@, from as int);
    }
    if needle.len() > hay.len() {
        return None;
    }
    let hl = hay.len();
    let last = hl - needle.len();
    let mut k = from;
    while k <= last
        invariant
            hl == hay@.len(),
            needle@.len() > 0,
            last + needle@.len() == hay@.len(),
            from <= k,
            find_seq(hay@, needle@, from as int) == find_seq(hay@, needle@, k as int),
        decreases last + 1 - k,
    {
        if occurs_at_exec(hay, needle, k) {
            return Some(k);
        }
        k = k + 1;
    }
    None
}

/// The first place where `needle` occurs.
pub fn find(hay: &[u8], needle: &[u8]) -> (r: Option<usize>)
    requires
        needle@.len() > 0,
    ensures
        match r {
            Some(k) => find_seq(hay@, needle@, 0) == Some(k as int),
            None => find_seq(hay@, needle@, 0) is None,
        },
        r matches Some(k) ==> k + needle@.len() <= hay@.len(),
{
    find_from(hay, needle, 0)
}

} // verus!

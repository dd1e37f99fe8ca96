//! Scanning UTF-8 text as bytes: finding bytes, Unicode white space, lines
//! and words, as `str::find`, `char::is_whitespace`, `str::lines`,
//! `str::trim` and `str::split_whitespace` see them on valid UTF-8.

use vstd::prelude::*;

verus! {

/// The first `k` in `lo..hi` with `s[k] == c`.
pub open spec fn find_in(s: Seq<u8>, c: u8, lo: int, hi: int) -> Option<int>
    decreases hi - lo,
{
    if lo >= hi {
        None
    } else if s[lo] == c {
        Some(lo)
    } else {
        find_in(s, c, lo + 1, hi)
    }
}

pub proof fn lemma_find_in_bounds(s: Seq<u8>, c: u8, lo: int, hi: int)
    ensures
        find_in(s, c, lo, hi) matches Some(k) ==> lo <= k < hi && s[k] == c
            && forall|j: int| lo <= j < k ==> s[j] != c,
        find_in(s, c, lo, hi) is None ==> forall|j: int| lo <= j < hi ==> s[j] != c,
    decreases hi - lo,
{
    if lo < hi {
        lemma_find_in_bounds(s, c, lo + 1, hi);
    }
}

pub fn find_byte(s: &[u8], c: u8, lo: usize, hi: usize) -> (r: Option<usize>)
    requires
        lo <= hi <= s@.len(),
    ensures
        r == match find_in(s@, c, lo as int, hi as int) {
            Some(k) => Some(k as usize),
            None => None::<usize>,
        },
{
    let mut i = lo;
    while i < hi
        invariant
            lo <= i <= hi,
            hi <= s@.len(),
            find_in(s@, c, lo as int, hi as int) == find_in(s@, c, i as int, hi as int),
        decreases hi - i,
    {
        if s[i] == c {
            return Some(i);
        }
        i = i + 1;
    }
    None
}

/// The length of the white-space character (Unicode `White_Space`, as
/// `char::is_whitespace` has it) whose UTF-8 encoding starts at `i` and
/// ends by `hi`; 0 when there is none.
pub open spec fn ws_len(s: Seq<u8>, i: int, hi: int) -> int {
    let c = s[i];
    if (9 <= c <= 13) || c == 32 {
        1
    } else if c == 0xC2 && i + 2 <= hi && (s[i + 1] == 0x85 || s[i + 1] == 0xA0) {
        2
    } else if i + 3 <= hi && (
        (c == 0xE1 && s[i + 1] == 0x9A && s[i + 2] == 0x80)
        || (c == 0xE2 && s[i + 1] == 0x80 && ((0x80 <= s[i + 2] <= 0x8A) || s[i + 2] == 0xA8
            || s[i + 2] == 0xA9 || s[i + 2] == 0xAF))
        || (c == 0xE2 && s[i + 1] == 0x81 && s[i + 2] == 0x9F)
        || (c == 0xE3 && s[i + 1] == 0x80 && s[i + 2] == 0x80)) {
        3
    } else {
        0
    }
}

pub fn ws_len_at(s: &[u8], i: usize, hi: usize) -> (n: usize)
    requires
        i < hi <= s@.len(),
    ensures
        n == ws_len(s@, i as int, hi as int),
        n <= 3,
{
    let c = s[i];
    if (9 <= c && c <= 13) || c == 32 {
        1
    } else if c == 0xC2 && hi - i >= 2 && (s[i + 1] == 0x85 || s[i + 1] == 0xA0) {
        2
    } else if hi - i >= 3 && (
        (c == 0xE1 && s[i + 1] == 0x9A && s[i + 2] == 0x80)
        || (c == 0xE2 && s[i + 1] == 0x80 && ((0x80 <= s[i + 2] && s[i + 2] <= 0x8A) || s[i + 2] == 0xA8
            || s[i + 2] == 0xA9 || s[i + 2] == 0xAF))
        || (c == 0xE2 && s[i + 1] == 0x81 && s[i + 2] == 0x9F)
        || (c == 0xE3 && s[i + 1] == 0x80 && s[i + 2] == 0x80)) {
        3
    } else {
        0
    }
}

/// The length of the white-space character whose encoding ends at `hi` and
/// starts at or after `lo`; 0 when there is none.
pub open spec fn ws_len_before(s: Seq<u8>, lo: int, hi: int) -> int {
    if hi - 1 >= lo && ws_len(s, hi - 1, hi) == 1 {
        1
    } else if hi - 2 >= lo && ws_len(s, hi - 2, hi) == 2 {
        2
    } else if hi - 3 >= lo && ws_len(s, hi - 3, hi) == 3 {
        3
    } else {
        0
    }
}

/// The first position at or after `i` (before `hi`) that does not start a
/// white-space character.
pub open spec fn skip_ws(s: Seq<u8>, i: int, hi: int) -> int
    decreases hi - i,
{
    if i >= hi {
        hi
    } else if ws_len(s, i, hi) > 0 {
        skip_ws(s, i + ws_len(s, i, hi), hi)
    } else {
        i
    }
}

/// The end of the word starting at `i`: the first white-space character or `hi`.
pub open spec fn word_end(s: Seq<u8>, i: int, hi: int) -> int
    decreases hi - i,
{
    if i >= hi {
        hi
    } else if ws_len(s, i, hi) > 0 {
        i
    } else {
        word_end(s, i + 1, hi)
    }
}

/// The words of `s[i..hi]`, as `str::split_whitespace` gives them, by range.
pub open spec fn words(s: Seq<u8>, i: int, hi: int) -> Seq<(int, int)>
    decreases hi - i,
{
    let a = skip_ws(s, i, hi);
    if i >= hi || a >= hi {
        Seq::empty()
    } else {
        let b = word_end(s, a, hi);
        if b <= i || b > hi {
            Seq::empty()
        } else {
            seq![(a, b)] + words(s, b, hi)
        }
    }
}

pub proof fn lemma_skip_ws(s: Seq<u8>, i: int, hi: int)
    requires
        i <= hi,
    ensures
        i <= skip_ws(s, i, hi) <= hi,
        skip_ws(s, i, hi) < hi ==> ws_len(s, skip_ws(s, i, hi), hi) == 0,
    decreases hi - i,
{
    if i < hi && ws_len(s, i, hi) > 0 {
        lemma_skip_ws(s, i + ws_len(s, i, hi), hi);
    }
}

pub proof fn lemma_word_end(s: Seq<u8>, i: int, hi: int)
    requires
        i <= hi,
    ensures
        i <= word_end(s, i, hi) <= hi,
        i < hi && ws_len(s, i, hi) == 0 ==> word_end(s, i, hi) > i,
        forall|j: int| i <= j < word_end(s, i, hi) ==> ws_len(s, j, hi) == 0,
    decreases hi - i,
{
    if i < hi && ws_len(s, i, hi) == 0 {
        lemma_word_end(s, i + 1, hi);
    }
}


/// Each word of `s[i..hi]` lies within `i..hi` and is not empty.
pub proof fn lemma_words_in_range(s: Seq<u8>, i: int, hi: int)
    requires
        i <= hi,
    ensures
        forall|k: int| 0 <= k < words(s, i, hi).len() ==>
            i <= (#[trigger] words(s, i, hi)[k]).0 < words(s, i, hi)[k].1 <= hi,
    decreases hi - i,
{
    let a = skip_ws(s, i, hi);
    lemma_skip_ws(s, i, hi);
    if !(i >= hi || a >= hi) {
        let b = word_end(s, a, hi);
        lemma_word_end(s, a, hi);
        if !(b <= i || b > hi) {
            lemma_words_in_range(s, b, hi);
            let rest = words(s, b, hi);
            assert(words(s, i, hi) == seq![(a, b)] + rest);
            assert forall|k: int| 0 <= k < words(s, i, hi).len() implies
                i <= (#[trigger] words(s, i, hi)[k]).0 < words(s, i, hi)[k].1 <= hi by {
                if k > 0 {
                    assert(words(s, i, hi)[k] == rest[k - 1]);
                }
            }
        }
    }
}
pub fn skip_ws_exec(s: &[u8], i: usize, hi: usize) -> (r: usize)
    requires
        i <= hi <= s@.len(),
    ensures
        r == skip_ws(s@, i as int, hi as int),
{
    let mut j = i;
    while j < hi
        invariant
            i <= j <= hi,
            hi <= s@.len(),
            skip_ws(s@, i as int, hi as int) == skip_ws(s@, j as int, hi as int),
        decreases hi - j,
    {
        let n = ws_len_at(s, j, hi);
        if n == 0 {
            return j;
        }
        if n > hi - j {
            return hi;
        }
        j = j + n;
    }
    hi
}

pub fn word_end_exec(s: &[u8], i: usize, hi: usize) -> (r: usize)
    requires
        i <= hi <= s@.len(),
    ensures
        r == word_end(s@, i as int, hi as int),
{
    let mut j = i;
    while j < hi
        invariant
            i <= j <= hi,
            hi <= s@.len(),
            word_end(s@, i as int, hi as int) == word_end(s@, j as int, hi as int),
        decreases hi - j,
    {
        if ws_len_at(s, j, hi) > 0 {
            return j;
        }
        j = j + 1;
    }
    hi
}

/// `str::split_whitespace` on `s[lo..hi]`, by range.
pub fn split_words(s: &[u8], lo: usize, hi: usize) -> (r: Vec<(usize, usize)>)
    requires
        lo <= hi <= s@.len(),
    ensures
        r@.len() == words(s@, lo as int, hi as int).len(),
        forall|k: int| 0 <= k < r@.len() ==>
            (#[trigger] r@[k]).0 == words(s@, lo as int, hi as int)[k].0
            && r@[k].1 == words(s@, lo as int, hi as int)[k].1,
        forall|k: int| 0 <= k < r@.len() ==> lo <= (#[trigger] r@[k]).0 < r@[k].1 <= hi,
{
    let mut r: Vec<(usize, usize)> = Vec::new();
    let mut i = lo;
    let ghost all = words(s@, lo as int, hi as int);
    loop
        invariant
            lo <= i <= hi,
            hi <= s@.len(),
            all == words(s@, lo as int, hi as int),
            r@.len() + words(s@, i as int, hi as int).len() == all.len(),
            forall|k: int| 0 <= k < r@.len() ==> (#[trigger] r@[k]).0 == all[k].0 && r@[k].1 == all[k].1,
            forall|k: int| 0 <= k < words(s@, i as int, hi as int).len() ==>
                #[trigger] words(s@, i as int, hi as int)[k] == all[r@.len() + k],
            forall|k: int| 0 <= k < r@.len() ==> lo <= (#[trigger] r@[k]).0 < r@[k].1 <= i,
        decreases hi - i,
    {
        let a = skip_ws_exec(s, i, hi);
        proof {
            lemma_skip_ws(s@, i as int, hi as int);
        }
        if a >= hi {
            return r;
        }
        let b = word_end_exec(s, a, hi);
        proof {
            lemma_word_end(s@, a as int, hi as int);
        }
        if b <= i {
            return r;
        }
        assert(b > a);
        let ghost rest = words(s@, b as int, hi as int);
        assert(words(s@, i as int, hi as int) == seq![(a as int, b as int)] + rest);
        assert(words(s@, i as int, hi as int)[0] == (a as int, b as int));
        r.push((a, b));
        assert forall|k: int| 0 <= k < rest.len() implies #[trigger] rest[k] == all[r@.len() + k] by {
            assert(rest[k] == words(s@, i as int, hi as int)[k + 1]);
        }
        i = b;
    }
}

/// Where the line that `str::lines` sees between `pos` and the newline at
/// `k` ends: a carriage return before the newline is not part of it.
pub open spec fn line_end(s: Seq<u8>, pos: int, k: int) -> int {
    if k > pos && s[k - 1] == 13 {
        k - 1
    } else {
        k
    }
}

/// The lines of `s[pos..]` as `str::lines` gives them, by range.
pub open spec fn lines_from(s: Seq<u8>, pos: int) -> Seq<(int, int)>
    decreases s.len() - pos,
{
    if pos >= s.len() {
        Seq::empty()
    } else {
        match find_in(s, 10, pos, s.len() as int) {
            None => seq![(pos, s.len() as int)],
            Some(k) => if k < pos || k >= s.len() {
                Seq::empty()
            } else {
                seq![(pos, line_end(s, pos, k))] + lines_from(s, k + 1)
            },
        }
    }
}

/// `str::lines`, by range.
pub fn split_lines(s: &[u8]) -> (r: Vec<(usize, usize)>)
    ensures
        r@.len() == lines_from(s@, 0).len(),
        forall|k: int| 0 <= k < r@.len() ==>
            (#[trigger] r@[k]).0 == lines_from(s@, 0)[k].0 && r@[k].1 == lines_from(s@, 0)[k].1,
        forall|k: int| 0 <= k < r@.len() ==> (#[trigger] r@[k]).0 <= r@[k].1 <= s@.len(),
{
    let mut r: Vec<(usize, usize)> = Vec::new();
    let mut pos: usize = 0;
    let n = s.len();
    let ghost all = lines_from(s@, 0);
    while pos < n
        invariant
            n == s@.len(),
            pos <= n,
            all == lines_from(s@, 0),
            r@.len() + lines_from(s@, pos as int).len() == all.len(),
            forall|k: int| 0 <= k < r@.len() ==> (#[trigger] r@[k]).0 == all[k].0 && r@[k].1 == all[k].1,
            forall|k: int| 0 <= k < lines_from(s@, pos as int).len() ==>
                #[trigger] lines_from(s@, pos as int)[k] == all[r@.len() + k],
            forall|k: int| 0 <= k < r@.len() ==> (#[trigger] r@[k]).0 <= r@[k].1 <= n,
        decreases n - pos,
    {
        proof {
            lemma_find_in_bounds(s@, 10, pos as int, n as int);
        }
        match find_byte(s, 10, pos, n) {
            None => {
                assert(lines_from(s@, pos as int)[0] == (pos as int, n as int));
                r.push((pos, n));
                return r;
            },
            Some(k) => {
                let e = if k > pos && s[k - 1] == 13 { k - 1 } else { k };
                let ghost rest = lines_from(s@, k + 1);
                assert(lines_from(s@, pos as int) == seq![(pos as int, e as int)] + rest);
                assert(lines_from(s@, pos as int)[0] == (pos as int, e as int));
                r.push((pos, e));
                assert forall|j: int| 0 <= j < rest.len() implies #[trigger] rest[j] == all[r@.len() + j] by {
                    assert(rest[j] == lines_from(s@, pos as int)[j + 1]);
                }
                pos = k + 1;
            },
        }
    }
    r
}

/// What is left of the line `l` before its first `%`.
pub open spec fn kept_line(s: Seq<u8>, l: (int, int)) -> Seq<u8> {
    match find_in(s, 37, l.0, l.1) {
        Some(k) => s.subrange(l.0, k),
        None => s.subrange(l.0, l.1),
    }
}

/// `s[lo..hi]` with white space removed at both ends, as `str::trim`: the
/// new start, then the new end.
pub open spec fn trim_start(s: Seq<u8>, lo: int, hi: int) -> int {
    skip_ws(s, lo, hi)
}

pub open spec fn trim_end_from(s: Seq<u8>, lo: int, hi: int) -> int
    decreases hi - lo,
{
    if hi <= lo {
        lo
    } else if ws_len_before(s, lo, hi) > 0 {
        trim_end_from(s, lo, hi - ws_len_before(s, lo, hi))
    } else {
        hi
    }
}

pub proof fn lemma_trim_end(s: Seq<u8>, lo: int, hi: int)
    requires
        lo <= hi,
    ensures
        lo <= trim_end_from(s, lo, hi) <= hi,
    decreases hi - lo,
{
    if hi > lo && ws_len_before(s, lo, hi) > 0 {
        lemma_trim_end(s, lo, hi - ws_len_before(s, lo, hi));
    }
}

/// `str::trim` on `s[lo..hi]`, by range.
pub fn trim_range(s: &[u8], lo: usize, hi: usize) -> (r: (usize, usize))
    requires
        lo <= hi <= s@.len(),
    ensures
        r.0 == trim_start(s@, lo as int, hi as int),
        r.1 == trim_end_from(s@, r.0 as int, hi as int),
        lo <= r.0 <= r.1 <= hi,
{
    let a = skip_ws_exec(s, lo, hi);
    proof {
        lemma_skip_ws(s@, lo as int, hi as int);
    }
    let mut b = hi;
    while b > a
        invariant
            a <= b <= hi,
            hi <= s@.len(),
            trim_end_from(s@, a as int, hi as int) == trim_end_from(s@, a as int, b as int),
        ensures
            a <= b <= hi,
            trim_end_from(s@, a as int, hi as int) == b,
        decreases b - a,
    {
        let n = if b - 1 >= a && ws_len_at(s, b - 1, b) == 1 {
            1
        } else if b - a >= 2 && ws_len_at(s, b - 2, b) == 2 {
            2
        } else if b - a >= 3 && ws_len_at(s, b - 3, b) == 3 {
            3
        } else {
            0
        };
        assert(n == ws_len_before(s@, a as int, b as int));
        if n == 0 {
            break;
        }
        b = b - n;
    }
    proof {
        lemma_trim_end(s@, a as int, hi as int);
    }
    (a, b)
}

/// `s[lo..hi]` starts with `p`.
pub open spec fn starts_with(s: Seq<u8>, lo: int, hi: int, p: Seq<u8>) -> bool {
    lo + p.len() <= hi && s.subrange(lo, lo + p.len()) == p
}

pub fn starts_with_exec(s: &[u8], lo: usize, hi: usize, p: &[u8]) -> (r: bool)
    requires
        lo <= hi <= s@.len(),
    ensures
        r == starts_with(s@, lo as int, hi as int, p@),
{
    if p.len() > hi - lo {
        return false;
    }
    let mut i: usize = 0;
    while i < p.len()
        invariant
            lo + p@.len() <= hi <= s@.len(),
            i <= p@.len(),
            forall|j: int| 0 <= j < i ==> s@[lo + j] == p@[j],
        decreases p@.len() - i,
    {
        if s[lo + i] != p[i] {
            assert(s@.subrange(lo as int, lo + p@.len())[i as int] != p@[i as int]);
            return false;
        }
        i = i + 1;
    }
    assert(s@.subrange(lo as int, lo + p@.len()) =~= p@);
    true
}

/// `s[lo..hi]` is exactly `p`.
pub fn range_eq(s: &[u8], lo: usize, hi: usize, p: &[u8]) -> (r: bool)
    requires
        lo <= hi <= s@.len(),
    ensures
        r == (s@.subrange(lo as int, hi as int) == p@),
{
    if hi - lo != p.len() {
        assert(s@.subrange(lo as int, hi as int).len() != p@.len());
        return false;
    }
    let r = starts_with_exec(s, lo, hi, p);
    assert(s@.subrange(lo as int, hi as int) == s@.subrange(lo as int, lo + p@.len()));
    r
}

} // verus!

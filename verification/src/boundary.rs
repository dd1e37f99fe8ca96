//! Where characters start in UTF-8 text, and why the pieces the scanners
//! cut out of valid UTF-8 are valid UTF-8 themselves.

use vstd::prelude::*;
use vstd::utf8::*;
use crate::scan::{find_in, lines_from, line_end, skip_ws, trim_end_from, word_end, words, ws_len, ws_len_before};

verus! {

/// `p` is the end of `s` or a byte that starts a character's encoding.
pub open spec fn at_boundary(s: Seq<u8>, p: int) -> bool {
    p == s.len() || (0 <= p < s.len() && !is_continuation_byte(s[p]))
}

/// `w` is a range of `s` between two character boundaries.
pub open spec fn at_boundaries(s: Seq<u8>, w: (int, int)) -> bool {
    0 <= w.0 <= w.1 <= s.len() && at_boundary(s, w.0) && at_boundary(s, w.1)
}

/// A single byte below 0x80 is valid UTF-8.
pub proof fn lemma_ascii_byte_valid(c: u8)
    requires
        c < 0x80,
    ensures
        valid_utf8(seq![c]),
{
    let cs: Seq<char> = seq![c as char];
    assert(is_ascii_chars(cs));
    is_ascii_chars_encode_utf8(cs);
    encode_utf8_valid_utf8(cs);
    assert(encode_utf8(cs) =~= seq![c]);
}

proof fn lemma_is_char_boundary(s: Seq<u8>, p: int)
    requires
        valid_utf8(s),
        0 <= p <= s.len(),
        at_boundary(s, p),
    ensures
        is_char_boundary(s, p),
{
    if p == s.len() {
        is_char_boundary_start_end_of_seq(s);
    } else {
        is_char_boundary_iff_not_is_continuation_byte(s, p);
    }
}

/// The bytes between two character boundaries of valid UTF-8 are valid UTF-8.
pub proof fn lemma_valid_between(s: Seq<u8>, a: int, b: int)
    requires
        valid_utf8(s),
        0 <= a <= b <= s.len(),
        at_boundary(s, a),
        at_boundary(s, b),
    ensures
        valid_utf8(s.subrange(a, b)),
{
    lemma_is_char_boundary(s, b);
    valid_utf8_split(s, b);
    let t = s.subrange(0, b);
    if a == b {
        assert(s.subrange(a, b).len() == 0);
    } else {
        assert(t[a] == s[a]);
        is_char_boundary_iff_not_is_continuation_byte(t, a);
        valid_utf8_split(t, a);
        assert(t.subrange(a, t.len() as int) =~= s.subrange(a, b));
    }
}

/// The width of the encoding that the byte `c` leads.
pub open spec fn lead_width(c: u8) -> int {
    if c < 0x80 {
        1
    } else if 0xc0 <= c <= 0xdf {
        2
    } else if 0xe0 <= c <= 0xef {
        3
    } else {
        4
    }
}

/// After a whole character comes a character boundary.
pub proof fn lemma_step(s: Seq<u8>, i: int)
    requires
        valid_utf8(s),
        0 <= i < s.len(),
        at_boundary(s, i),
    ensures
        i + lead_width(s[i]) <= s.len(),
        at_boundary(s, i + lead_width(s[i])),
{
    lemma_valid_between(s, i, s.len() as int);
    let t = s.subrange(i, s.len() as int);
    assert(t[0] == s[i]);
    assert(valid_first_scalar(t) && valid_utf8(pop_first_scalar(t)));
    let n = length_of_first_scalar(t);
    assert(n == lead_width(s[i]));
    let u = pop_first_scalar(t);
    assert(u =~= s.subrange(i + n, s.len() as int));
    if u.len() > 0 {
        assert(valid_first_scalar(u));
        assert(u[0] == s[i + n]);
    }
}

/// A byte below 0x80 is a boundary, and so is the position after it.
pub proof fn lemma_ascii(s: Seq<u8>, p: int)
    requires
        valid_utf8(s),
        0 <= p < s.len(),
        s[p] < 0x80,
    ensures
        at_boundary(s, p),
        at_boundary(s, p + 1),
{
    lemma_step(s, p);
}

/// Skipping white space from a boundary stops at a boundary.
pub proof fn lemma_skip_ws_boundary(s: Seq<u8>, i: int, hi: int)
    requires
        valid_utf8(s),
        0 <= i <= hi <= s.len(),
        at_boundary(s, i),
        at_boundary(s, hi),
    ensures
        at_boundary(s, skip_ws(s, i, hi)),
    decreases hi - i,
{
    if i < hi && ws_len(s, i, hi) > 0 {
        lemma_step(s, i);
        assert(ws_len(s, i, hi) == lead_width(s[i]));
        lemma_skip_ws_boundary(s, i + ws_len(s, i, hi), hi);
    }
}

/// A byte that starts a white-space character is no continuation byte.
pub proof fn lemma_ws_not_continuation(s: Seq<u8>, j: int, hi: int)
    requires
        0 <= j < hi <= s.len(),
        ws_len(s, j, hi) > 0,
    ensures
        at_boundary(s, j),
{
}

/// A word ends at a boundary.
pub proof fn lemma_word_end_boundary(s: Seq<u8>, i: int, hi: int)
    requires
        0 <= i <= hi <= s.len(),
        at_boundary(s, hi),
    ensures
        at_boundary(s, word_end(s, i, hi)),
    decreases hi - i,
{
    if i < hi {
        if ws_len(s, i, hi) > 0 {
            lemma_ws_not_continuation(s, i, hi);
        } else {
            lemma_word_end_boundary(s, i + 1, hi);
        }
    }
}

/// The words between two boundaries start and end at boundaries.
pub proof fn lemma_words_boundaries(s: Seq<u8>, i: int, hi: int)
    requires
        valid_utf8(s),
        0 <= i <= hi <= s.len(),
        at_boundary(s, i),
        at_boundary(s, hi),
    ensures
        forall|k: int| 0 <= k < words(s, i, hi).len() ==>
            at_boundary(s, (#[trigger] words(s, i, hi)[k]).0) && at_boundary(s, words(s, i, hi)[k].1),
    decreases hi - i,
{
    let a = skip_ws(s, i, hi);
    crate::scan::lemma_skip_ws(s, i, hi);
    lemma_skip_ws_boundary(s, i, hi);
    if !(i >= hi || a >= hi) {
        let b = word_end(s, a, hi);
        crate::scan::lemma_word_end(s, a, hi);
        lemma_word_end_boundary(s, a, hi);
        if !(b <= i || b > hi) {
            lemma_words_boundaries(s, b, hi);
            let rest = words(s, b, hi);
            assert(words(s, i, hi) == seq![(a, b)] + rest);
            assert forall|k: int| 0 <= k < words(s, i, hi).len() implies
                at_boundary(s, (#[trigger] words(s, i, hi)[k]).0) && at_boundary(s, words(s, i, hi)[k].1) by {
                if k > 0 {
                    assert(words(s, i, hi)[k] == rest[k - 1]);
                }
            }
        }
    }
}

/// Trimming white space from the end stops at a boundary.
pub proof fn lemma_trim_end_boundary(s: Seq<u8>, lo: int, hi: int)
    requires
        0 <= lo <= hi <= s.len(),
        at_boundary(s, hi),
    ensures
        at_boundary(s, trim_end_from(s, lo, hi)),
    decreases hi - lo,
{
    if hi > lo && ws_len_before(s, lo, hi) > 0 {
        let n = ws_len_before(s, lo, hi);
        lemma_ws_not_continuation(s, hi - n, hi);
        lemma_trim_end_boundary(s, lo, hi - n);
    }
}

/// A byte below 0x80 found by `find_in` is at a boundary, and so is the
/// position after it.
pub proof fn lemma_find_ascii(s: Seq<u8>, c: u8, lo: int, hi: int)
    requires
        valid_utf8(s),
        0 <= lo <= hi <= s.len(),
        c < 0x80,
    ensures
        find_in(s, c, lo, hi) matches Some(k) ==> at_boundary(s, k) && at_boundary(s, k + 1),
{
    crate::scan::lemma_find_in_bounds(s, c, lo, hi);
    if let Some(k) = find_in(s, c, lo, hi) {
        lemma_ascii(s, k);
    }
}

/// The lines of valid UTF-8 start and end at boundaries.
pub proof fn lemma_lines_boundaries(s: Seq<u8>, pos: int)
    requires
        valid_utf8(s),
        0 <= pos <= s.len(),
        at_boundary(s, pos),
    ensures
        forall|k: int| 0 <= k < lines_from(s, pos).len() ==>
            at_boundary(s, (#[trigger] lines_from(s, pos)[k]).0) && at_boundary(s, lines_from(s, pos)[k].1)
            && pos <= lines_from(s, pos)[k].0 <= lines_from(s, pos)[k].1 <= s.len(),
    decreases s.len() - pos,
{
    if pos < s.len() {
        crate::scan::lemma_find_in_bounds(s, 10, pos, s.len() as int);
        lemma_find_ascii(s, 10, pos, s.len() as int);
        match find_in(s, 10, pos, s.len() as int) {
            None => {},
            Some(k) => {
                if !(k < pos || k >= s.len()) {
                    if k > pos && s[k - 1] == 13 {
                        lemma_ascii(s, k - 1);
                    }
                    lemma_lines_boundaries(s, k + 1);
                    let rest = lines_from(s, k + 1);
                    assert(lines_from(s, pos) == seq![(pos, line_end(s, pos, k))] + rest);
                    assert forall|j: int| 0 <= j < lines_from(s, pos).len() implies
                        at_boundary(s, (#[trigger] lines_from(s, pos)[j]).0) && at_boundary(s, lines_from(s, pos)[j].1)
                        && pos <= lines_from(s, pos)[j].0 <= lines_from(s, pos)[j].1 <= s.len() by {
                        if j > 0 {
                            assert(lines_from(s, pos)[j] == rest[j - 1]);
                        }
                    }
                }
            },
        }
    }
}

/// The start of valid UTF-8 is a boundary.
pub proof fn lemma_start(s: Seq<u8>)
    requires
        valid_utf8(s),
    ensures
        at_boundary(s, 0),
{
    if s.len() > 0 {
        assert(valid_first_scalar(s));
    }
}

/// The words of the trimmed range of `s[lo..hi]` are valid UTF-8, and the
/// trimmed range starts and ends at boundaries.
pub proof fn lemma_trimmed_words_valid(s: Seq<u8>, lo: int, hi: int)
    requires
        valid_utf8(s),
        0 <= lo <= hi <= s.len(),
        at_boundary(s, lo),
        at_boundary(s, hi),
    ensures
        at_boundary(s, skip_ws(s, lo, hi)),
        at_boundary(s, trim_end_from(s, skip_ws(s, lo, hi), hi)),
        forall|k: int| 0 <= k < words(s, skip_ws(s, lo, hi), trim_end_from(s, skip_ws(s, lo, hi), hi)).len() ==>
            valid_utf8(s.subrange(
                (#[trigger] words(s, skip_ws(s, lo, hi), trim_end_from(s, skip_ws(s, lo, hi), hi))[k]).0,
                words(s, skip_ws(s, lo, hi), trim_end_from(s, skip_ws(s, lo, hi), hi))[k].1,
            )),
{
    let a = skip_ws(s, lo, hi);
    crate::scan::lemma_skip_ws(s, lo, hi);
    lemma_skip_ws_boundary(s, lo, hi);
    let e = trim_end_from(s, a, hi);
    crate::scan::lemma_trim_end(s, a, hi);
    lemma_trim_end_boundary(s, a, hi);
    lemma_words_valid(s, a, e);
}

/// The words between two boundaries are valid UTF-8.
pub proof fn lemma_words_valid(s: Seq<u8>, a: int, e: int)
    requires
        valid_utf8(s),
        0 <= a <= e <= s.len(),
        at_boundary(s, a),
        at_boundary(s, e),
    ensures
        forall|k: int| 0 <= k < words(s, a, e).len() ==>
            valid_utf8(s.subrange((#[trigger] words(s, a, e)[k]).0, words(s, a, e)[k].1)),
{
    lemma_words_boundaries(s, a, e);
    crate::scan::lemma_words_in_range(s, a, e);
    assert forall|k: int| 0 <= k < words(s, a, e).len() implies
        valid_utf8(s.subrange((#[trigger] words(s, a, e)[k]).0, words(s, a, e)[k].1)) by {
        lemma_valid_between(s, words(s, a, e)[k].0, words(s, a, e)[k].1);
    }
}

} // verus!

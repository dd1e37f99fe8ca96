//! The simple lexer for the clear part and the decrypted private part of a
//! Type 1 font.

use vstd::prelude::*;

verus! {

/// `u8::is_ascii_whitespace`: space, tab, line feed, form feed, carriage return.
pub open spec fn is_ascii_ws(c: u8) -> bool {
    c == 32 || c == 9 || c == 10 || c == 12 || c == 13
}

/// A byte that ends a name: white space or one of `/[]{}()<>`.
pub open spec fn is_delim(c: u8) -> bool {
    is_ascii_ws(c) || c == 47 || c == 91 || c == 93 || c == 123 || c == 125 || c == 40
        || c == 41 || c == 60 || c == 62
}

/// A byte that starts a name-like token: `/`, a letter or digit, `-`, `.`, `_`.
pub open spec fn starts_name(c: u8) -> bool {
    c == 47 || (48 <= c <= 57) || (65 <= c <= 90) || (97 <= c <= 122) || c == 45 || c == 46 || c == 95
}

pub open spec fn lex_skip(s: Seq<u8>, p: int) -> int
    decreases s.len() - p,
{
    if 0 <= p < s.len() && is_ascii_ws(s[p]) {
        lex_skip(s, p + 1)
    } else {
        p
    }
}

pub open spec fn run_end(s: Seq<u8>, p: int) -> int
    decreases s.len() - p,
{
    if 0 <= p < s.len() && !is_delim(s[p]) {
        run_end(s, p + 1)
    } else {
        p
    }
}

/// The next token from `p`: a name-like run, or a single other byte.
pub open spec fn lex_token(s: Seq<u8>, p: int) -> Option<(int, int)> {
    let a = lex_skip(s, p);
    if a >= s.len() {
        None
    } else if starts_name(s[a]) {
        Some((a, run_end(s, a + 1)))
    } else {
        Some((a, a + 1))
    }
}

/// Where the lexer stands after reading a token from `p`.
pub open spec fn lex_after(s: Seq<u8>, p: int) -> int {
    match lex_token(s, p) {
        Some((a, e)) => e,
        None => lex_skip(s, p),
    }
}

pub open spec fn is_digit(c: u8) -> bool {
    48 <= c <= 57
}

pub open spec fn all_digits(t: Seq<u8>) -> bool {
    forall|i: int| 0 <= i < t.len() ==> is_digit(#[trigger] t[i])
}

/// The value of a string of decimal digits.
pub open spec fn digits_value(t: Seq<u8>) -> int
    decreases t.len(),
{
    if t.len() == 0 {
        0
    } else {
        digits_value(t.drop_last()) * 10 + (t.last() - 48)
    }
}

/// `i64::from_str`: an optional sign and at least one digit, in range.
pub open spec fn parse_i64(t: Seq<u8>) -> Option<int> {
    if t.len() > 0 && (t[0] == 45 || t[0] == 43) {
        let d = t.drop_first();
        let v = if t[0] == 45 { -digits_value(d) } else { digits_value(d) };
        if d.len() > 0 && all_digits(d) && i64::MIN <= v <= i64::MAX {
            Some(v)
        } else {
            None
        }
    } else if t.len() > 0 && all_digits(t) && digits_value(t) <= i64::MAX {
        Some(digits_value(t))
    } else {
        None
    }
}

/// The integer the next token spells, if it spells one.
pub open spec fn lex_int(s: Seq<u8>, p: int) -> Option<int> {
    match lex_token(s, p) {
        Some((a, e)) => parse_i64(s.subrange(a, e)),
        None => None,
    }
}

pub proof fn lemma_lex_bounds(s: Seq<u8>, p: int)
    requires
        0 <= p,
    ensures
        p <= lex_skip(s, p),
        p <= s.len() ==> lex_skip(s, p) <= s.len(),
        lex_token(s, p) matches Some((a, e)) ==> p <= a < e <= s.len(),
        p <= lex_after(s, p),
        p <= s.len() ==> lex_after(s, p) <= s.len(),
{
    lemma_skip_bounds(s, p);
    let a = lex_skip(s, p);
    if a < s.len() && starts_name(s[a]) {
        lemma_run_end_bounds(s, a + 1);
    }
}

/// The integer a token spells fits in `i64`.
pub proof fn lemma_lex_int_range(s: Seq<u8>, p: int)
    ensures
        lex_int(s, p) matches Some(v) ==> i64::MIN <= v <= i64::MAX,
{
    if let Some((a, e)) = lex_token(s, p) {
        lemma_parse_i64_range(s.subrange(a, e));
    }
}

/// What `parse_i64` gives fits in `i64`.
pub proof fn lemma_parse_i64_range(t: Seq<u8>)
    ensures
        parse_i64(t) matches Some(v) ==> i64::MIN <= v <= i64::MAX,
{
    if t.len() > 0 && all_digits(t) {
        lemma_digits_nonneg(t);
    }
}

proof fn lemma_skip_bounds(s: Seq<u8>, p: int)
    requires
        0 <= p,
    ensures
        p <= lex_skip(s, p),
        p <= s.len() ==> lex_skip(s, p) <= s.len(),
    decreases s.len() - p,
{
    if p < s.len() && is_ascii_ws(s[p]) {
        lemma_skip_bounds(s, p + 1);
    }
}

proof fn lemma_run_end_bounds(s: Seq<u8>, p: int)
    requires
        0 <= p <= s.len(),
    ensures
        p <= run_end(s, p) <= s.len(),
    decreases s.len() - p,
{
    if p < s.len() && !is_delim(s[p]) {
        lemma_run_end_bounds(s, p + 1);
    }
}

fn is_ascii_ws_exec(c: u8) -> (r: bool)
    ensures
        r == is_ascii_ws(c),
{
    c == 32 || c == 9 || c == 10 || c == 12 || c == 13
}

fn is_delim_exec(d: u8) -> (r: bool)
    ensures
        r == is_delim(d),
{
    is_ascii_ws_exec(d) || d == 47 || d == 91 || d == 93 || d == 123 || d == 125 || d == 40 || d == 41
        || d == 60 || d == 62
}

/// The integer a token spells (`i64::from_str` on its text).
pub fn parse_int(t: &[u8]) -> (r: Option<i64>)
    ensures
        r == match parse_i64(t@) {
            Some(v) => Some(v as i64),
            None => None::<i64>,
        },
{
    if t.len() == 0 {
        return None;
    }
    let neg = t[0] == 45;
    let signed = t[0] == 45 || t[0] == 43;
    let start: usize = if signed { 1 } else { 0 };
    if start >= t.len() {
        return None;
    }
    let ghost d = t@.subrange(start as int, t@.len() as int);
    let limit: u128 = if neg { 9223372036854775808 } else { 9223372036854775807 };
    let mut acc: u128 = 0;
    let mut i = start;
    while i < t.len()
        invariant
            t@.len() > 0,
            neg == (t@[0] == 45),
            signed == (t@[0] == 45 || t@[0] == 43),
            start == (if signed { 1usize } else { 0usize }),
            limit == (if neg { 9223372036854775808u128 } else { 9223372036854775807u128 }),
            start <= i <= t@.len(),
            d == t@.subrange(start as int, t@.len() as int),
            all_digits(t@.subrange(start as int, i as int)),
            acc == digits_value(t@.subrange(start as int, i as int)),
            acc <= limit,
            limit <= 9223372036854775808,
        decreases t@.len() - i,
    {
        let c = t[i];
        if c < 48 || c > 57 {
            assert(d[i - start] == c);
            assert(!all_digits(d));
            proof {
                if signed {
                    assert(d =~= t@.drop_first());
                } else {
                    assert(d =~= t@);
                }
            }
            return None;
        }
        let ghost prev = t@.subrange(start as int, i as int);
        acc = acc * 10 + (c - 48) as u128;
        i = i + 1;
        assert(t@.subrange(start as int, i as int).drop_last() =~= prev);
        assert(all_digits(t@.subrange(start as int, i as int))) by {
            assert forall|j: int| 0 <= j < i - start implies is_digit(#[trigger] t@.subrange(start as int, i as int)[j]) by {
                if j < i - start - 1 {
                    assert(t@.subrange(start as int, i as int)[j] == prev[j]);
                }
            }
        }
        if acc > limit {
            proof {
                assert(d.subrange(0, i - start) =~= t@.subrange(start as int, i as int));
                lemma_digits_grow(d, i - start);
                if signed {
                    assert(d =~= t@.drop_first());
                } else {
                    assert(d =~= t@);
                }
            }
            return None;
        }
    }
    proof {
        assert(t@.subrange(start as int, i as int) =~= d);
        if signed {
            assert(d =~= t@.drop_first());
        } else {
            assert(d =~= t@);
        }
    }
    if neg {
        if acc == 9223372036854775808 {
            Some(i64::MIN)
        } else {
            Some(-(acc as i64))
        }
    } else {
        Some(acc as i64)
    }
}

proof fn lemma_digits_nonneg(t: Seq<u8>)
    requires
        all_digits(t),
    ensures
        digits_value(t) >= 0,
    decreases t.len(),
{
    if t.len() > 0 {
        assert(all_digits(t.drop_last())) by {
            assert forall|j: int| 0 <= j < t.len() - 1 implies is_digit(#[trigger] t.drop_last()[j]) by {
                assert(t.drop_last()[j] == t[j]);
            }
        }
        lemma_digits_nonneg(t.drop_last());
    }
}

/// A string of digits is worth at least as much as each of its prefixes.
proof fn lemma_digits_grow(d: Seq<u8>, n: int)
    requires
        0 <= n <= d.len(),
        all_digits(d.subrange(0, n)),
    ensures
        !all_digits(d) || digits_value(d) >= digits_value(d.subrange(0, n)),
    decreases d.len() - n,
{
    if n < d.len() && all_digits(d) {
        assert(all_digits(d.subrange(0, n + 1))) by {
            assert forall|j: int| 0 <= j < n + 1 implies is_digit(#[trigger] d.subrange(0, n + 1)[j]) by {
                assert(d.subrange(0, n + 1)[j] == d[j]);
            }
        }
        assert(d.subrange(0, n + 1).drop_last() =~= d.subrange(0, n));
        lemma_digits_nonneg(d.subrange(0, n));
        lemma_digits_grow(d, n + 1);
    } else if n == d.len() {
        assert(d.subrange(0, n) =~= d);
    }
}

/// The lexer: a byte string and a position in it.
pub struct Lexer<'a> {
    pub s: &'a [u8],
    pub pos: usize,
}

impl<'a> Lexer<'a> {
    pub fn skip_ws(&mut self)
        ensures
            final(self).s@ == old(self).s@,
            final(self).pos == lex_skip(old(self).s@, old(self).pos as int),
    {
        let ghost p0 = self.pos as int;
        while self.pos < self.s.len() && is_ascii_ws_exec(self.s[self.pos])
            invariant
                self.s@ == old(self).s@,
                p0 <= self.pos,
                lex_skip(self.s@, p0) == lex_skip(self.s@, self.pos as int),
            decreases self.s@.len() - self.pos,
        {
            self.pos = self.pos + 1;
        }
    }

    pub fn token(&mut self) -> (r: Option<&'a [u8]>)
        ensures
            final(self).s@ == old(self).s@,
            final(self).pos == lex_after(old(self).s@, old(self).pos as int),
            match (r, lex_token(old(self).s@, old(self).pos as int)) {
                (Some(t), Some((a, e))) => t@ == old(self).s@.subrange(a, e),
                (None, None) => true,
                _ => false,
            },
    {
        self.skip_ws();
        if self.pos >= self.s.len() {
            return None;
        }
        let start = self.pos;
        let c = self.s[self.pos];
        if c == 47 || (48 <= c && c <= 57) || (65 <= c && c <= 90) || (97 <= c && c <= 122) || c == 45
            || c == 46 || c == 95 {
            self.pos = self.pos + 1;
            let ghost p1 = self.pos as int;
            while self.pos < self.s.len() && !is_delim_exec(self.s[self.pos])
                invariant
                    self.s@ == old(self).s@,
                    p1 == start + 1,
                    start < self.s@.len(),
                    p1 <= self.pos <= self.s@.len(),
                    run_end(self.s@, p1) == run_end(self.s@, self.pos as int),
                decreases self.s@.len() - self.pos,
            {
                self.pos = self.pos + 1;
            }
        } else {
            self.pos = self.pos + 1;
        }
        Some(&self.s[start..self.pos])
    }

    pub fn integer(&mut self) -> (r: Option<i64>)
        ensures
            final(self).s@ == old(self).s@,
            final(self).pos == lex_after(old(self).s@, old(self).pos as int),
            r == match lex_int(old(self).s@, old(self).pos as int) {
                Some(v) => Some(v as i64),
                None => None::<i64>,
            },
    {
        match self.token() {
            Some(t) => parse_int(t),
            None => None,
        }
    }
}

} // verus!

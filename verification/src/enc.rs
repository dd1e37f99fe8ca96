//! PostScript encoding vectors (dvips `.enc` files): `/Name [ /a /b ... ] def`
//! with 256 glyph names.

use vstd::prelude::*;
use vstd::string::StringSliceAdditionalSpecFns;
use crate::message::{decimal, text_num, text_str};
use crate::reader::{err, ParseError};
use crate::scan::{
    find_byte, find_in, kept_line, lemma_find_in_bounds, lines_from, range_eq, split_lines,
    split_words, words, ws_len, ws_len_at,
};
use crate::standard::{standard_name, standard_name_of};
use crate::text::{opt_view, string_from_bytes_lossy};
use crate::boundary::{
    at_boundaries, at_boundary, lemma_ascii, lemma_ascii_byte_valid, lemma_find_ascii, lemma_lines_boundaries,
    lemma_start, lemma_valid_between, lemma_words_boundaries, lemma_ws_not_continuation,
};
use vstd::utf8::*;

verus! {

#[derive(Debug, Clone, PartialEq, Eq)]
pub struct Encoding {
    pub name: String,
    /// The 256 glyph names; `None` for `.notdef`.
    pub names: Vec<Option<String>>,
}

/// The text with `%` comments removed, line by line, and the lines joined
/// with newlines again (`str::lines`, `split('%')`, `join("\n")`); the
/// first `n` lines.
pub open spec fn join_kept(b: Seq<u8>, ls: Seq<(int, int)>, n: int) -> Seq<u8>
    decreases n,
{
    if n <= 0 {
        Seq::empty()
    } else if n == 1 {
        kept_line(b, ls[0])
    } else {
        join_kept(b, ls, n - 1) + seq![10u8] + kept_line(b, ls[n - 1])
    }
}

pub open spec fn strip_comments(b: Seq<u8>) -> Seq<u8> {
    join_kept(b, lines_from(b, 0), lines_from(b, 0).len() as int)
}

/// Where the encoding name that starts at `i` ends: at white space, `[`, or
/// the end of the text.
pub open spec fn name_end(s: Seq<u8>, i: int) -> int
    decreases s.len() - i,
{
    if i >= s.len() {
        s.len() as int
    } else if ws_len(s, i, s.len() as int) > 0 || s[i] == 91 {
        i
    } else {
        name_end(s, i + 1)
    }
}

pub open spec fn notdef() -> Seq<u8> {
    seq![46u8, 110u8, 111u8, 116u8, 100u8, 101u8, 102u8]
}

/// A token of the array: `None` for `/.notdef`, else the name after `/`.
pub open spec fn token_name(s: Seq<u8>, t: (int, int)) -> Option<Seq<char>> {
    if s.subrange(t.0 + 1, t.1) == notdef() {
        None
    } else {
        Some(decode_utf8(s.subrange(t.0 + 1, t.1)))
    }
}

/// The first of the tokens `ts` from `k` on that does not start with `/`.
pub open spec fn bad_token_from(s: Seq<u8>, ts: Seq<(int, int)>, k: int) -> Option<int>
    decreases ts.len() - k,
{
    if k < 0 || k >= ts.len() {
        None
    } else if s[ts[k].0] != 47 {
        Some(k)
    } else {
        bad_token_from(s, ts, k + 1)
    }
}

/// What parsing the text with bytes `b` yields: the name and the 256
/// entries, or the error (offset into the comment-free text, message).
pub open spec fn enc_spec(b: Seq<u8>) -> Result<(Seq<char>, Seq<Option<Seq<char>>>), (int, Seq<char>)> {
    let s = strip_comments(b);
    match find_in(s, 47, 0, s.len() as int) {
        None => Err((0, "no encoding name"@)),
        Some(start) => match find_in(s, 91, 0, s.len() as int) {
            None => Err((0, "no '['"@)),
            Some(lb) => match find_in(s, 93, lb, s.len() as int) {
                None => Err((lb, "no ']'"@)),
                Some(rb) => {
                    let toks = words(s, lb + 1, rb);
                    match bad_token_from(s, toks, 0) {
                        Some(k) => Err((lb, "bad token "@ + decode_utf8(s.subrange(toks[k].0, toks[k].1)))),
                        None => if toks.len() != 256 {
                            Err((lb, "encoding has "@ + decimal(toks.len()) + " entries, expected 256"@))
                        } else {
                        Ok((
                            decode_utf8(s.subrange(start + 1, name_end(s, start + 1))),
                            toks.map_values(|t: (int, int)| token_name(s, t)),
                        ))
                        },
                    }
                },
            },
        },
    }
}

// ---------- the comment-free text of valid UTF-8 is valid UTF-8 ----------

proof fn lemma_kept_line_valid(b: Seq<u8>, l: (int, int))
    requires
        valid_utf8(b),
        at_boundaries(b, l),
    ensures
        valid_utf8(kept_line(b, l)),
{
    lemma_find_in_bounds(b, 37, l.0, l.1);
    lemma_find_ascii(b, 37, l.0, l.1);
    match find_in(b, 37, l.0, l.1) {
        Some(k) => lemma_valid_between(b, l.0, k),
        None => lemma_valid_between(b, l.0, l.1),
    }
}

proof fn lemma_join_kept_valid(b: Seq<u8>, ls: Seq<(int, int)>, n: int)
    requires
        valid_utf8(b),
        n <= ls.len(),
        forall|k: int| 0 <= k < ls.len() ==> at_boundaries(b, #[trigger] ls[k]),
    ensures
        valid_utf8(join_kept(b, ls, n)),
    decreases n,
{
    if n == 1 {
        lemma_kept_line_valid(b, ls[0]);
    } else if n > 1 {
        lemma_join_kept_valid(b, ls, n - 1);
        lemma_kept_line_valid(b, ls[n - 1]);
        lemma_ascii_byte_valid(10);
        valid_utf8_concat(join_kept(b, ls, n - 1), seq![10u8]);
        valid_utf8_concat(join_kept(b, ls, n - 1) + seq![10u8], kept_line(b, ls[n - 1]));
    }
}

/// With comments removed, valid UTF-8 stays valid UTF-8.
proof fn lemma_strip_comments_valid(b: Seq<u8>)
    requires
        valid_utf8(b),
    ensures
        valid_utf8(strip_comments(b)),
{
    lemma_start(b);
    lemma_lines_boundaries(b, 0);
    let ls = lines_from(b, 0);
    assert forall|k: int| 0 <= k < ls.len() implies at_boundaries(b, #[trigger] ls[k]) by {}
    lemma_join_kept_valid(b, ls, ls.len() as int);
}

/// The encoding's name ends at a boundary.
proof fn lemma_name_end_boundary(s: Seq<u8>, i: int)
    requires
        valid_utf8(s),
        0 <= i <= s.len(),
    ensures
        i <= name_end(s, i) <= s.len(),
        at_boundary(s, name_end(s, i)),
    decreases s.len() - i,
{
    if i < s.len() {
        if ws_len(s, i, s.len() as int) > 0 {
            lemma_ws_not_continuation(s, i, s.len() as int);
        } else if s[i] == 91 {
            lemma_ascii(s, i);
        } else {
            lemma_name_end_boundary(s, i + 1);
        }
    }
}

fn strip_comments_exec(b: &[u8]) -> (r: Vec<u8>)
    ensures
        r@ == strip_comments(b@),
{
    let lines = split_lines(b);
    let ghost ls = lines_from(b@, 0);
    let mut out: Vec<u8> = Vec::new();
    let mut i: usize = 0;
    while i < lines.len()
        invariant
            ls == lines_from(b@, 0),
            lines@.len() == ls.len(),
            forall|k: int| 0 <= k < lines@.len() ==>
                (#[trigger] lines@[k]).0 == ls[k].0 && lines@[k].1 == ls[k].1,
            forall|k: int| 0 <= k < lines@.len() ==> (#[trigger] lines@[k]).0 <= lines@[k].1 <= b@.len(),
            i <= lines@.len(),
            out@ == join_kept(b@, ls, i as int),
        decreases lines@.len() - i,
    {
        let (lo, hi) = lines[i];
        proof {
            lemma_find_in_bounds(b@, 37, lo as int, hi as int);
        }
        let end = match find_byte(b, 37, lo, hi) {
            Some(k) => k,
            None => hi,
        };
        if i > 0 {
            out.push(10u8);
        }
        let ghost before = out@;
        let mut j = lo;
        while j < end
            invariant
                lo <= j <= end <= b@.len(),
                out@ == before + b@.subrange(lo as int, j as int),
            decreases end - j,
        {
            out.push(b[j]);
            j = j + 1;
            assert(out@ =~= before + b@.subrange(lo as int, j as int));
        }
        assert(kept_line(b@, ls[i as int]) == b@.subrange(lo as int, end as int));
        i = i + 1;
    }
    out
}

fn name_end_exec(s: &[u8], i: usize) -> (r: usize)
    requires
        i <= s@.len(),
    ensures
        r == name_end(s@, i as int),
        i <= r <= s@.len(),
{
    let mut j = i;
    while j < s.len()
        invariant
            i <= j <= s@.len(),
            name_end(s@, i as int) == name_end(s@, j as int),
        decreases s@.len() - j,
    {
        if ws_len_at(s, j, s.len()) > 0 || s[j] == 91 {
            return j;
        }
        j = j + 1;
    }
    j
}

impl Encoding {
    /// Parses the text of an `.enc` file. The result is exactly `enc_spec`
    /// of the text's bytes.
    pub fn parse(text: &str) -> (res: Result<Encoding, ParseError>)
        ensures
            match (res, enc_spec(text.spec_bytes())) {
                (Ok(e), Ok((name, names))) =>
                    e.name@ == name && e.names@.map_values(|n: Option<String>| opt_view(n)) == names,
                (Err(e), Err((offset, msg))) => e.offset == offset && e.message@ == msg,
                _ => false,
            },
    {
        let b = text.as_bytes();
        let stripped = strip_comments_exec(b);
        let s = stripped.as_slice();
        let n = s.len();
        proof {
            encode_utf8_valid_utf8(text@);
            lemma_strip_comments_valid(b@);
            lemma_find_in_bounds(s@, 47, 0, n as int);
            lemma_find_in_bounds(s@, 91, 0, n as int);
        }
        let start = match find_byte(s, 47, 0, n) {
            Some(k) => k,
            None => return Err(err(0, "no encoding name")),
        };
        let name_end = name_end_exec(s, start + 1);
        proof {
            lemma_ascii(s@, start as int);
            lemma_name_end_boundary(s@, start + 1);
            lemma_valid_between(s@, start + 1, name_end as int);
        }
        let name = string_from_bytes_lossy(&s[start + 1..name_end]);
        let lb = match find_byte(s, 91, 0, n) {
            Some(k) => k,
            None => return Err(err(0, "no '['")),
        };
        proof {
            lemma_find_in_bounds(s@, 93, lb as int, n as int);
        }
        let rb = match find_byte(s, 93, lb, n) {
            Some(k) => k,
            None => return Err(err(lb, "no ']'")),
        };
        let toks = split_words(s, lb + 1, rb);
        let ghost ts = words(s@, lb + 1, rb as int);
        proof {
            lemma_ascii(s@, lb as int);
            lemma_ascii(s@, rb as int);
            lemma_words_boundaries(s@, lb + 1, rb as int);
        }
        let notdef_bytes: [u8; 7] = [46u8, 110u8, 111u8, 116u8, 100u8, 101u8, 102u8];
        let nd = notdef_bytes.as_slice();
        assert(nd@ =~= notdef());
        let mut names: Vec<Option<String>> = Vec::with_capacity(256);
        let mut k: usize = 0;
        while k < toks.len()
            invariant
                s@ == strip_comments(text.spec_bytes()),
                n == s@.len(),
                find_in(s@, 47, 0, n as int) == Some(start as int),
                find_in(s@, 91, 0, n as int) == Some(lb as int),
                find_in(s@, 93, lb as int, n as int) == Some(rb as int),
                ts == words(s@, lb + 1, rb as int),
                toks@.len() == ts.len(),
                forall|j: int| 0 <= j < toks@.len() ==> (#[trigger] toks@[j]).0 == ts[j].0 && toks@[j].1 == ts[j].1,
                forall|j: int| 0 <= j < toks@.len() ==> lb + 1 <= (#[trigger] toks@[j]).0 < toks@[j].1 <= rb,
                rb <= s@.len(),
                nd@ == notdef(),
                k <= toks@.len(),
                names@.len() == k,
                bad_token_from(s@, ts, 0) == bad_token_from(s@, ts, k as int),
                forall|j: int| 0 <= j < k ==> #[trigger] opt_view(names@[j]) == token_name(s@, ts[j]),
                valid_utf8(s@),
                forall|j: int| 0 <= j < ts.len() ==> at_boundary(s@, (#[trigger] ts[j]).0) && at_boundary(s@, ts[j].1),
            decreases toks@.len() - k,
        {
            let (a, e) = toks[k];
            proof {
                lemma_valid_between(s@, a as int, e as int);
            }
            if s[a] != 47 {
                let tok = string_from_bytes_lossy(&s[a..e]);
                let message = text_str("bad token ", tok.as_str(), "");
                proof {
                    reveal_strlit("");
                    assert(message@ =~= "bad token "@ + tok@);
                }
                return Err(ParseError { offset: lb, message });
            }
            proof {
                lemma_ascii(s@, a as int);
                lemma_valid_between(s@, a + 1, e as int);
            }
            if range_eq(s, a + 1, e, nd) {
                names.push(None);
            } else {
                names.push(Some(string_from_bytes_lossy(&s[a + 1..e])));
            }
            k = k + 1;
        }
        if names.len() != 256 {
            let message = text_num("encoding has ", toks.len() as u64, " entries, expected 256");
            return Err(ParseError { offset: lb, message });
        }
        proof {
            assert(names@.map_values(|n: Option<String>| opt_view(n)) =~= ts.map_values(|t: (int, int)| token_name(s@, t)));
        }
        Ok(Encoding { name, names })
    }

    /// The glyph name at `code`; `None` for `.notdef`.
    pub fn glyph_name(&self, code: u8) -> (r: Option<&str>)
        requires
            code < self.names@.len(),
        ensures
            match r {
                Some(n) => self.names@[code as int] matches Some(s) && n@ == s@,
                None => self.names@[code as int] is None,
            },
    {
        match &self.names[code as usize] {
            Some(s) => Some(s.as_str()),
            None => None,
        }
    }

    /// Adobe StandardEncoding (the default encoding of Type 1 fonts).
    pub fn standard() -> (e: Encoding)
        ensures
            e.name@ == "StandardEncoding"@,
            e.names@.len() == 256,
            forall|c: int| 0 <= c < 256 ==> #[trigger] opt_view(e.names@[c]) == if standard_name(c as u8).len() == 0 {
                None
            } else {
                Some(standard_name(c as u8))
            },
    {
        let mut names: Vec<Option<String>> = Vec::with_capacity(256);
        let mut c: usize = 0;
        while c < 256
            invariant
                c <= 256,
                names@.len() == c,
                forall|j: int| 0 <= j < c ==> #[trigger] opt_view(names@[j]) == if standard_name(j as u8).len() == 0 {
                    None
                } else {
                    Some(standard_name(j as u8))
                },
            decreases 256 - c,
        {
            let n = standard_name_of(c as u8);
            if n.is_empty() {
                names.push(None);
            } else {
                names.push(Some(n.to_owned()));
            }
            c = c + 1;
        }
        Encoding { name: "StandardEncoding".to_owned(), names }
    }
}

} // verus!

//! The entries of the clear text of a Type 1 font: `/FontName`,
//! `/FontMatrix` and `/Encoding`.

use vstd::prelude::*;
use crate::enc::Encoding;
use crate::standard::standard_name;
use crate::text::{opt_view, string_from_bytes_lossy, utf8_lossy};
use crate::type1::lexer::{lemma_lex_bounds, lemma_lex_int_range, lex_after, lex_int, lex_token, Lexer};
use crate::type1::search::{find, find_from, find_seq, lemma_find_seq};

verus! {

pub open spec fn font_name_key() -> Seq<u8> {
    seq![47u8, 70, 111, 110, 116, 78, 97, 109, 101]
}

pub open spec fn font_matrix_key() -> Seq<u8> {
    seq![47u8, 70, 111, 110, 116, 77, 97, 116, 114, 105, 120]
}

pub open spec fn encoding_key() -> Seq<u8> {
    seq![47u8, 69, 110, 99, 111, 100, 105, 110, 103]
}

pub open spec fn standard_encoding_word() -> Seq<u8> {
    seq![83u8, 116, 97, 110, 100, 97, 114, 100, 69, 110, 99, 111, 100, 105, 110, 103]
}

pub open spec fn dup_word() -> Seq<u8> {
    seq![100u8, 117, 112]
}

pub open spec fn def_word() -> Seq<u8> {
    seq![32u8, 100, 101, 102]
}

/// The token after the first `key`, without a leading `/`.
pub open spec fn name_after(c: Seq<u8>, key: Seq<u8>) -> Option<Seq<u8>> {
    match find_seq(c, key, 0) {
        None => None,
        Some(i) => match lex_token(c, i + key.len()) {
            None => None,
            Some((a, e)) => Some(if c[a] == 47 { c.subrange(a + 1, e) } else { c.subrange(a, e) }),
        },
    }
}

/// The text of the token after the first `key` (a `/` in front taken off).
pub fn extract_name(clear: &[u8], key: &[u8]) -> (r: Option<String>)
    requires
        key@.len() > 0,
    ensures
        match (r, name_after(clear@, key@)) {
            (Some(s), Some(b)) => s@ == utf8_lossy(b),
            (None, None) => true,
            _ => false,
        },
{
    let n = clear.len();
    let i = match find(clear, key) {
        Some(i) => i,
        None => {
            return None;
        },
    };
    proof {
        lemma_find_seq(clear@, key@, 0);
        lemma_lex_bounds(clear@, i + key@.len());
    }
    let mut lx = Lexer { s: clear, pos: i + key.len() };
    let ghost at = lex_token(clear@, i + key@.len());
    match lx.token() {
        None => None,
        Some(t) => {
            assert(t@[0] == clear@[at.unwrap().0]);
            assert(find_seq(clear@, key@, 0) == Some(i as int));
            assert(t@ == clear@.subrange(at.unwrap().0, at.unwrap().1));
            if t.len() > 0 && t[0] == 47 {
                let n = &t[1..t.len()];
                assert(n@ =~= t@.subrange(1, t@.len() as int));
                let r = string_from_bytes_lossy(n);
                assert(name_after(clear@, key@) == Some(n@));
                Some(r)
            } else {
                let r = string_from_bytes_lossy(t);
                assert(name_after(clear@, key@) == Some(t@));
                Some(r)
            }
        },
    }
}

/// Where the numbers of `/FontMatrix` stand: from after the first `[` that
/// follows the key to the first `]` after that.
pub open spec fn matrix_span(c: Seq<u8>) -> Option<(int, int)> {
    match find_seq(c, font_matrix_key(), 0) {
        None => None,
        Some(i) => match find_seq(c, seq![91u8], i) {
            None => None,
            Some(lb) => match find_seq(c, seq![93u8], lb) {
                None => None,
                Some(rb) => Some((lb + 1, rb)),
            },
        },
    }
}

/// The text between the brackets of `/FontMatrix`, where the six numbers of
/// the matrix are written.
pub fn extract_matrix_text(clear: &[u8]) -> (r: Option<Vec<u8>>)
    ensures
        match (r, matrix_span(clear@)) {
            (Some(t), Some((a, b))) => a <= b && t@ == clear@.subrange(a, b),
            (None, None) => true,
            _ => false,
        },
{
    let key: [u8; 11] = [47, 70, 111, 110, 116, 77, 97, 116, 114, 105, 120];
    let ks = key.as_slice();
    assert(ks@ =~= font_matrix_key());
    let lbk: [u8; 1] = [91];
    let rbk: [u8; 1] = [93];
    let lbs = lbk.as_slice();
    let rbs = rbk.as_slice();
    assert(lbs@ =~= seq![91u8]);
    assert(rbs@ =~= seq![93u8]);
    let i = match find(clear, ks) {
        Some(i) => i,
        None => {
            return None;
        },
    };
    proof {
        lemma_find_seq(clear@, font_matrix_key(), 0);
    }
    let lb = match find_from(clear, lbs, i) {
        Some(p) => p,
        None => {
            return None;
        },
    };
    proof {
        lemma_find_seq(clear@, seq![91u8], i as int);
    }
    let rb = match find_from(clear, rbs, lb) {
        Some(p) => p,
        None => {
            return None;
        },
    };
    proof {
        lemma_find_seq(clear@, seq![93u8], lb as int);
    }
    let mut t: Vec<u8> = Vec::new();
    let mut k = lb + 1;
    while k < rb
        invariant
            lb < rb < clear@.len(),
            lb + 1 <= k <= rb,
            t@ == clear@.subrange(lb + 1, k as int),
        decreases rb - k,
    {
        t.push(clear[k]);
        k = k + 1;
        assert(t@ =~= clear@.subrange(lb + 1, k as int));
    }
    Some(t)
}

/// 256 codes, none of them named.
pub open spec fn unnamed() -> Seq<Option<Seq<char>>> {
    Seq::new(256, |i: int| None::<Seq<char>>)
}

/// StandardEncoding as 256 optional names.
pub open spec fn standard_names() -> Seq<Option<Seq<char>>> {
    Seq::new(
        256,
        |i: int|
            if standard_name(i as u8).len() == 0 {
                None
            } else {
                Some(standard_name(i as u8))
            },
    )
}

/// The `dup <code> /<name> put` entries read from `p` on, put into `enc`;
/// codes outside 0..=255 and names without `/` are passed over.
pub open spec fn dup_entries(s: Seq<u8>, p: int, enc: Seq<Option<Seq<char>>>) -> Seq<Option<Seq<char>>>
    decreases s.len() - p,
{
    if p < 0 {
        enc
    } else {
        match lex_token(s, p) {
            None => enc,
            Some((a, e)) => {
                proof {
                    lemma_lex_bounds(s, p);
                    lemma_lex_bounds(s, e);
                    lemma_lex_bounds(s, lex_after(s, e));
                }
                if s.subrange(a, e) == dup_word() {
                    let p2 = lex_after(s, e);
                    let p3 = lex_after(s, p2);
                    let enc2 = match (lex_int(s, e), lex_token(s, p2)) {
                        (Some(c), Some((na, ne))) => if s[na] == 47 && 0 <= c < 256 {
                            enc.update(c, Some(utf8_lossy(s.subrange(na + 1, ne))))
                        } else {
                            enc
                        },
                        _ => enc,
                    };
                    dup_entries(s, p3, enc2)
                } else {
                    dup_entries(s, e, enc)
                }
            },
        }
    }
}

/// The built-in encoding of the font: StandardEncoding when `/Encoding` is
/// followed by that word, else the `dup` entries up to the next ` def`.
pub open spec fn encoding_spec(c: Seq<u8>) -> Seq<Option<Seq<char>>> {
    match find_seq(c, encoding_key(), 0) {
        None => unnamed(),
        Some(i) => {
            let p = i + 9;
            match lex_token(c, p) {
                Some((a, e)) if c.subrange(a, e) == standard_encoding_word() => standard_names(),
                _ => {
                    let q = lex_after(c, p);
                    let end = match find_seq(c, def_word(), q) {
                        Some(k) => k,
                        None => c.len() as int,
                    };
                    dup_entries(c.take(end), q, unnamed())
                },
            }
        },
    }
}

pub open spec fn names_view(v: Seq<Option<String>>) -> Seq<Option<Seq<char>>> {
    Seq::new(v.len(), |i: int| opt_view(v[i]))
}

fn unnamed_vec() -> (v: Vec<Option<String>>)
    ensures
        names_view(v@) == unnamed(),
        v@.len() == 256,
{
    let mut v: Vec<Option<String>> = Vec::with_capacity(256);
    let mut k: usize = 0;
    while k < 256
        invariant
            k <= 256,
            v@.len() == k,
            forall|j: int| 0 <= j < k ==> v@[j] is None,
        decreases 256 - k,
    {
        v.push(None);
        k = k + 1;
    }
    assert(names_view(v@) =~= unnamed());
    v
}

fn same_bytes(t: &[u8], w: &[u8]) -> (r: bool)
    ensures
        r == (t@ == w@),
{
    if t.len() != w.len() {
        return false;
    }
    let mut i: usize = 0;
    while i < t.len()
        invariant
            t@.len() == w@.len(),
            i <= t@.len(),
            forall|j: int| 0 <= j < i ==> t@[j] == w@[j],
        decreases t@.len() - i,
    {
        if t[i] != w[i] {
            return false;
        }
        i = i + 1;
    }
    assert(t@ =~= w@);
    true
}

fn read_dup_entries(s: &[u8], q: usize) -> (enc: Vec<Option<String>>)
    requires
        q <= s@.len(),
    ensures
        names_view(enc@) == dup_entries(s@, q as int, unnamed()),
        enc@.len() == 256,
{
    let dup: [u8; 3] = [100, 117, 112];
    let dw = dup.as_slice();
    assert(dw@ =~= dup_word());
    let mut enc = unnamed_vec();
    let mut lx = Lexer { s: s, pos: q };
    loop
        invariant
            dw@ == dup_word(),
            lx.s@ == s@,
            lx.pos <= s@.len(),
            names_view(enc@).len() == 256,
            dup_entries(s@, q as int, unnamed()) == dup_entries(s@, lx.pos as int, names_view(enc@)),
        ensures
            names_view(enc@) == dup_entries(s@, q as int, unnamed()),
        decreases s@.len() - lx.pos,
    {
        let ghost p = lx.pos as int;
        proof {
            lemma_lex_bounds(s@, p);
        }
        let t = match lx.token() {
            None => {
                break;
            },
            Some(t) => t,
        };
        let ghost e = lx.pos as int;
        proof {
            lemma_lex_bounds(s@, e);
        }
        let ghost enc0 = names_view(enc@);
        assert(lex_token(s@, p) is Some);
        let ghost (a1, e1) = lex_token(s@, p).unwrap();
        assert(e1 == lx.pos);
        if same_bytes(t, dw) {
            let code = lx.integer();
            let ghost p2 = lx.pos as int;
            proof {
                lemma_lex_bounds(s@, p2);
                lemma_lex_int_range(s@, e);
            }
            let name = lx.token();
            proof {
                if let Some(nt) = name {
                    assert(nt@[0] == s@[lex_token(s@, p2).unwrap().0]);
                }
            }
            let ghost before = names_view(enc@);
            match (code, name) {
                (Some(c), Some(n)) => {
                    if n.len() > 0 && n[0] == 47 && 0 <= c && c < 256 {
                        let nm = &n[1..n.len()];
                        let text = string_from_bytes_lossy(nm);
                        proof {
                            let (na, ne) = lex_token(s@, p2).unwrap();
                            assert(nm@ =~= s@.subrange(na + 1, ne));
                        }
                        enc.set(c as usize, Some(text));
                        assert(names_view(enc@) =~= before.update(c as int, Some(utf8_lossy(nm@))));
                    }
                },
                _ => {},
            }
            assert(dup_entries(s@, p, enc0) == dup_entries(s@, lx.pos as int, names_view(enc@)));
        } else {
            assert(dup_entries(s@, p, enc0) == dup_entries(s@, e1, enc0));
        }
    }
    enc
}

/// The built-in encoding of a Type 1 font, from its clear text: 256
/// optional glyph names.
pub fn extract_encoding(clear: &[u8]) -> (enc: Vec<Option<String>>)
    ensures
        names_view(enc@) == encoding_spec(clear@),
        enc@.len() == 256,
{
    let key: [u8; 9] = [47, 69, 110, 99, 111, 100, 105, 110, 103];
    let ks = key.as_slice();
    assert(ks@ =~= encoding_key());
    let n = clear.len();
    let i = match find(clear, ks) {
        Some(i) => i,
        None => {
            return unnamed_vec();
        },
    };
    proof {
        lemma_find_seq(clear@, encoding_key(), 0);
        lemma_lex_bounds(clear@, i + 9);
    }
    let mut lx = Lexer { s: clear, pos: i + 9 };
    let first = lx.token();
    let sw: [u8; 16] = [83, 116, 97, 110, 100, 97, 114, 100, 69, 110, 99, 111, 100, 105, 110, 103];
    let sws = sw.as_slice();
    assert(sws@ =~= standard_encoding_word());
    if let Some(t) = first {
        if same_bytes(t, sws) {
            let e = Encoding::standard();
            assert(names_view(e.names@) =~= standard_names());
            return e.names;
        }
    }
    let q = lx.pos;
    let dw: [u8; 4] = [32, 100, 101, 102];
    let dws = dw.as_slice();
    assert(dws@ =~= def_word());
    let end = match find_from(clear, dws, q) {
        Some(k) => k,
        None => clear.len(),
    };
    proof {
        lemma_find_seq(clear@, def_word(), q as int);
    }
    let sub = &clear[0..end];
    assert(sub@ =~= clear@.take(end as int));
    read_dup_entries(sub, q)
}

} // verus!

//! The entries of the decrypted private part of a Type 1 font: `/lenIV`,
//! the `/Subrs` array and the `/CharStrings` dictionary.

use vstd::prelude::*;
use crate::glyph::{gerr, GlyphError};
use crate::message::text_str;
use crate::keyed::{distinct_keys, insert_all, keyed_map, lemma_keyed_lookup, lemma_keyed_push, lemma_keyed_update};
use crate::text::same_text;
use crate::text::{string_from_bytes_lossy, utf8_lossy};
use crate::type1::cipher::{decrypt, decrypt_skip, CHARSTRING_R};
use crate::type1::lexer::{lemma_lex_bounds, lemma_lex_int_range, lex_after, lex_int, lex_token, Lexer};
use crate::type1::search::{find, find_from, find_seq, lemma_find_seq};

verus! {

pub open spec fn len_iv_key() -> Seq<u8> {
    seq![47u8, 108, 101, 110, 73, 86]
}

pub open spec fn subrs_key() -> Seq<u8> {
    seq![47u8, 83, 117, 98, 114, 115]
}

pub open spec fn charstrings_key() -> Seq<u8> {
    seq![47u8, 67, 104, 97, 114, 83, 116, 114, 105, 110, 103, 115]
}

pub open spec fn dup_space() -> Seq<u8> {
    seq![100u8, 117, 112, 32]
}

pub open spec fn begin_word() -> Seq<u8> {
    seq![98u8, 101, 103, 105, 110]
}

/// How charstrings are stored: `None` in the clear (`/lenIV -1`), else
/// encrypted with that many random bytes in front. The outer `None`: a
/// negative `/lenIV` other than -1, which the font format does not allow.
/// Without a readable `/lenIV` the charstrings carry four random bytes.
pub open spec fn len_iv_spec(p: Seq<u8>) -> Option<Option<int>> {
    match find_seq(p, len_iv_key(), 0) {
        None => Some(Some(4)),
        Some(i) => match lex_int(p, i + 6) {
            None => Some(Some(4)),
            Some(v) => if v == -1 {
                Some(None)
            } else if v < 0 {
                None
            } else {
                Some(Some(v))
            },
        },
    }
}

/// A charstring as the interpreter reads it.
pub open spec fn plain_charstring(b: Seq<u8>, len_iv: Option<int>) -> Seq<u8> {
    match len_iv {
        None => b,
        Some(k) => decrypt_skip(b, CHARSTRING_R as int, k),
    }
}

/// A count read from the font: negative or unreadable counts are 0.
pub open spec fn count_of(v: Option<int>) -> int {
    match v {
        Some(c) => if c < 0 {
            0
        } else if c > usize::MAX {
            usize::MAX as int
        } else {
            c
        },
        None => 0,
    }
}

/// The charstring bytes of an entry `<len> RD <bytes>` whose length token
/// starts at `q`: where the bytes start (one byte past the `RD` token) and
/// the length, when the length is an integer.
pub open spec fn entry_span(p: Seq<u8>, q: int) -> Option<(int, int)> {
    match lex_int(p, q) {
        None => None,
        Some(len) => Some((lex_after(p, lex_after(p, q)) + 1, len)),
    }
}

/// `dup <i> <len> RD <bytes> NP` entries from `pos`, `k` of the `count`
/// read so far; each puts its charstring at `i` when `i` is below `count`.
/// Reading stops at the first entry that cannot be read whole.
pub open spec fn subrs_from(
    p: Seq<u8>,
    len_iv: Option<int>,
    count: int,
    pos: int,
    k: int,
    acc: Seq<Seq<u8>>,
) -> Seq<Seq<u8>>
    decreases count - k,
{
    if k >= count {
        acc
    } else {
        match find_seq(p, dup_space(), pos) {
            None => acc,
            Some(d) => match (lex_int(p, d + 4), entry_span(p, lex_after(p, d + 4))) {
                (Some(ix), Some((start, len))) => if len < 0 || start + len > p.len() {
                    acc
                } else {
                    subrs_from(
                        p,
                        len_iv,
                        count,
                        start + len,
                        k + 1,
                        if 0 <= ix < count {
                            acc.update(ix, plain_charstring(p.subrange(start, start + len), len_iv))
                        } else {
                            acc
                        },
                    )
                },
                _ => acc,
            },
        }
    }
}

/// The subroutines of the private part: as many as `/Subrs` announces,
/// empty where no entry gives one.
pub open spec fn subrs_spec(p: Seq<u8>, len_iv: Option<int>) -> Seq<Seq<u8>> {
    match find_seq(p, subrs_key(), 0) {
        None => Seq::empty(),
        Some(i) => {
            let count = count_of(lex_int(p, i + 6));
            subrs_from(p, len_iv, count, lex_after(p, i + 6), 0, Seq::new(count as nat, |j: int| Seq::<u8>::empty()))
        },
    }
}

/// `/<name> <len> RD <bytes> ND` entries from `pos`, appended to `acc` in
/// order; a lone `/` is passed over, a name without a length ends the
/// dictionary, and so does the `count`-th entry. `None`: an entry runs past
/// the end.
pub open spec fn charstrings_from(
    p: Seq<u8>,
    len_iv: Option<int>,
    count: int,
    pos: int,
    acc: Seq<(Seq<char>, Seq<u8>)>,
) -> Result<Seq<(Seq<char>, Seq<u8>)>, Seq<char>>
    decreases p.len() + 1 - pos,
{
    if pos < 0 || pos > p.len() {
        Ok(acc)
    } else {
        match find_seq(p, seq![47u8], pos) {
            None => Ok(acc),
            Some(sl) => {
                proof {
                    lemma_find_seq(p, seq![47u8], pos);
                    lemma_lex_bounds(p, sl);
                }
                match lex_token(p, sl) {
                    None => Ok(acc),
                    Some((a, e)) => if e == a + 1 {
                        charstrings_from(p, len_iv, count, sl + 1, acc)
                    } else {
                        match entry_span(p, e) {
                            None => Ok(acc),
                            Some((start, len)) => {
                                proof {
                                    lemma_lex_bounds(p, e);
                                    lemma_lex_bounds(p, lex_after(p, e));
                                }
                                if len < 0 || start + len > p.len() {
                                    Err("charstring "@ + utf8_lossy(p.subrange(a + 1, e)) + " runs past end"@)
                                } else {
                                    let acc2 = acc.push(
                                        (
                                            utf8_lossy(p.subrange(a + 1, e)),
                                            plain_charstring(p.subrange(start, start + len), len_iv),
                                        ),
                                    );
                                    if acc2.len() >= count && count > 0 {
                                        Ok(acc2)
                                    } else {
                                        charstrings_from(p, len_iv, count, start + len, acc2)
                                    }
                                }
                            },
                        }
                    },
                }
            },
        }
    }
}

/// The charstrings of the private part, in the order they are defined
/// (a name may come more than once), or the error: no `/CharStrings`, or
/// an entry that runs past the end.
pub open spec fn charstrings_spec(p: Seq<u8>, len_iv: Option<int>) -> Result<Seq<(Seq<char>, Seq<u8>)>, Seq<char>> {
    match find_seq(p, charstrings_key(), 0) {
        None => Err("no /CharStrings"@),
        Some(i) => {
            let q = lex_after(p, i + 12);
            let pos = match find_seq(p, begin_word(), q) {
                Some(b) => b + 5,
                None => q,
            };
            charstrings_from(p, len_iv, count_of(lex_int(p, i + 12)), pos, Seq::empty())
        },
    }
}

/// The key of a charstring entry: its glyph name.
pub open spec fn glyph_key() -> spec_fn((Seq<char>, Seq<u8>)) -> Seq<char> {
    |e: (Seq<char>, Seq<u8>)| e.0
}

/// The texts of a list of strings.
pub open spec fn texts(v: Seq<String>) -> Seq<Seq<char>> {
    v.map_values(|s: String| s@)
}

/// The glyph names of charstring entries, in order.
pub open spec fn entry_names(es: Seq<(Seq<char>, Seq<u8>)>) -> Seq<Seq<char>> {
    es.map_values(|e: (Seq<char>, Seq<u8>)| e.0)
}

pub open spec fn entries_view(v: Seq<(String, Vec<u8>)>) -> Seq<(Seq<char>, Seq<u8>)> {
    Seq::new(v.len(), |i: int| (v[i].0@, v[i].1@))
}

/// How the charstrings are stored, read from the private part.
pub fn read_len_iv(private: &[u8]) -> (r: Result<Option<u64>, GlyphError>)
    ensures
        match (r, len_iv_spec(private@)) {
            (Ok(Some(k)), Some(Some(v))) => k == v,
            (Ok(None), Some(None)) => true,
            (Err(e), None) => e.message@ == "bad lenIV"@,
            _ => false,
        },
{
    let n = private.len();
    let key: [u8; 6] = [47, 108, 101, 110, 73, 86];
    let ks = key.as_slice();
    assert(ks@ =~= len_iv_key());
    let i = match find(private, ks) {
        Some(i) => i,
        None => {
            return Ok(Some(4));
        },
    };
    proof {
        lemma_find_seq(private@, len_iv_key(), 0);
        lemma_lex_int_range(private@, i + 6);
    }
    let mut lx = Lexer { s: private, pos: i + 6 };
    match lx.integer() {
        None => Ok(Some(4)),
        Some(v) => {
            if v == -1 {
                Ok(None)
            } else if v < 0 {
                Err(gerr("bad lenIV"))
            } else {
                Ok(Some(v as u64))
            }
        },
    }
}

/// A charstring decrypted as `len_iv` says.
pub fn plain_charstring_exec(b: &[u8], len_iv: Option<u64>) -> (r: Vec<u8>)
    ensures
        r@ == plain_charstring(
            b@,
            liv_of(len_iv),
        ),
{
    let n = b.len();
    match len_iv {
        None => {
            let mut v: Vec<u8> = Vec::new();
            let mut i: usize = 0;
            while i < n
                invariant
                    n == b@.len(),
                    i <= n,
                    v@ == b@.subrange(0, i as int),
                decreases n - i,
            {
                v.push(b[i]);
                i = i + 1;
                assert(v@ =~= b@.subrange(0, i as int));
            }
            assert(v@ =~= b@);
            v
        },
        Some(k) => {
            if k >= n as u64 {
                Vec::new()
            } else {
                decrypt(b, CHARSTRING_R, k as usize)
            }
        },
    }
}

fn count_exec(v: Option<i64>) -> (c: usize)
    ensures
        c == count_of(
            match v {
                Some(x) => Some(x as int),
                None => None,
            },
        ),
{
    match v {
        None => 0,
        Some(x) => {
            if x < 0 {
                0
            } else if x as u64 > usize::MAX as u64 {
                usize::MAX
            } else {
                x as usize
            }
        },
    }
}

/// A stored `/lenIV` as the specification reads it.
pub open spec fn liv_of(len_iv: Option<u64>) -> Option<int> {
    match len_iv {
        Some(k) => Some(k as int),
        None => None,
    }
}

/// The `/Subrs` array of the private part, decrypted as `len_iv` says.
pub fn parse_subrs(private: &[u8], len_iv: Option<u64>) -> (subrs: Vec<Vec<u8>>)
    ensures
        subrs@.map_values(|s: Vec<u8>| s@) == subrs_spec(
            private@,
            liv_of(len_iv),
        ),
{
    let ghost liv = liv_of(len_iv);
    let n = private.len();
    let key: [u8; 6] = [47, 83, 117, 98, 114, 115];
    let ks = key.as_slice();
    assert(ks@ =~= subrs_key());
    let i = match find(private, ks) {
        Some(i) => i,
        None => {
            let v: Vec<Vec<u8>> = Vec::new();
            assert(v@.map_values(|s: Vec<u8>| s@) =~= Seq::<Seq<u8>>::empty());
            return v;
        },
    };
    proof {
        lemma_find_seq(private@, subrs_key(), 0);
        lemma_lex_bounds(private@, i + 6);
    }
    proof {
        lemma_lex_int_range(private@, i + 6);
    }
    let mut lx = Lexer { s: private, pos: i + 6 };
    let count = count_exec(lx.integer());
    let mut subrs: Vec<Vec<u8>> = Vec::new();
    let mut j: usize = 0;
    while j < count
        invariant
            j <= count,
            subrs@.len() == j,
            forall|m: int| 0 <= m < j ==> (#[trigger] subrs@[m])@ == Seq::<u8>::empty(),
        decreases count - j,
    {
        subrs.push(Vec::new());
        j = j + 1;
    }
    let ghost init = Seq::new(count as nat, |m: int| Seq::<u8>::empty());
    assert(subrs@.map_values(|s: Vec<u8>| s@) =~= init);
    let dsp: [u8; 4] = [100, 117, 112, 32];
    let ds = dsp.as_slice();
    assert(ds@ =~= dup_space());
    let mut pos = lx.pos;
    let mut k: usize = 0;
    while k < count
        invariant
            n == private@.len(),
            ds@ == dup_space(),
            liv == liv_of(len_iv),
            pos <= n,
            k <= count,
            subrs@.len() == count,
            subrs_spec(private@, liv) == subrs_from(private@, liv, count as int, pos as int, k as int, subrs@.map_values(|s: Vec<u8>| s@)),
        ensures
            subrs_spec(private@, liv) == subrs@.map_values(|s: Vec<u8>| s@),
        decreases count - k,
    {
        let d = match find_from(private, ds, pos) {
            Some(d) => d,
            None => {
                break;
            },
        };
        proof {
            lemma_find_seq(private@, dup_space(), pos as int);
            lemma_lex_bounds(private@, d + 4);
            lemma_lex_int_range(private@, d + 4);
        }
        let mut lx = Lexer { s: private, pos: d + 4 };
        let idx = lx.integer();
        let ghost q = lx.pos as int;
        proof {
            lemma_lex_bounds(private@, q);
            lemma_lex_int_range(private@, q);
            lemma_lex_bounds(private@, lex_after(private@, q));
        }
        let len = lx.integer();
        let (ix, ln) = match (idx, len) {
            (Some(a), Some(b)) => (a, b),
            _ => {
                break;
            },
        };
        let _rd = lx.token();
        if lx.pos >= n || ln < 0 || ln as u64 > (n - lx.pos - 1) as u64 {
            break;
        }
        let start = lx.pos + 1;
        let end = start + ln as usize;
        if 0 <= ix && (ix as u64) < count as u64 {
            let piece = &private[start..end];
            assert(piece@ =~= private@.subrange(start as int, end as int));
            let cs = plain_charstring_exec(piece, len_iv);
            let ghost before = subrs@.map_values(|s: Vec<u8>| s@);
            subrs.set(ix as usize, cs);
            assert(subrs@.map_values(|s: Vec<u8>| s@) =~= before.update(ix as int, cs@));
        }
        pos = end;
        k = k + 1;
    }
    subrs
}

/// `name` in the keyed entries `v`, or where a new one would go.
fn position_of(v: &Vec<(String, Vec<u8>)>, name: &str) -> (r: Option<usize>)
    ensures
        match r {
            Some(j) => j < v@.len() && v@[j as int].0@ == name@,
            None => forall|j: int| 0 <= j < v@.len() ==> (#[trigger] v@[j]).0@ != name@,
        },
{
    let mut j: usize = 0;
    while j < v.len()
        invariant
            j <= v@.len(),
            forall|m: int| 0 <= m < j ==> (#[trigger] v@[m]).0@ != name@,
        decreases v@.len() - j,
    {
        if same_text(v[j].0.as_str(), name) {
            return Some(j);
        }
        j = j + 1;
    }
    None
}

/// The `/CharStrings` dictionary of the private part: the entries by glyph
/// name (a later definition replaces an earlier one) and the names in the
/// order they are defined.
pub fn parse_charstrings(private: &[u8], len_iv: Option<u64>) -> (r: Result<
    (Vec<(String, Vec<u8>)>, Vec<String>),
    GlyphError,
>)
    ensures
        match (
            r,
            charstrings_spec(
                private@,
                liv_of(len_iv),
            ),
        ) {
            (Ok((m, names)), Ok(es)) => {
                &&& distinct_keys(entries_view(m@), glyph_key())
                &&& keyed_map(entries_view(m@), glyph_key()) == insert_all(Map::empty(), es, glyph_key())
                &&& texts(names@) == entry_names(es)
            },
            (Err(e), Err(msg)) => e.message@ == msg,
            _ => false,
        },
{
    let ghost liv = liv_of(len_iv);
    let n = private.len();
    let key: [u8; 12] = [47, 67, 104, 97, 114, 83, 116, 114, 105, 110, 103, 115];
    let ks = key.as_slice();
    assert(ks@ =~= charstrings_key());
    let i = match find(private, ks) {
        Some(i) => i,
        None => {
            return Err(gerr("no /CharStrings"));
        },
    };
    proof {
        lemma_find_seq(private@, charstrings_key(), 0);
        lemma_lex_bounds(private@, i + 12);
        lemma_lex_int_range(private@, i + 12);
    }
    let mut lx = Lexer { s: private, pos: i + 12 };
    let count = count_exec(lx.integer());
    let bw: [u8; 5] = [98, 101, 103, 105, 110];
    let bs = bw.as_slice();
    assert(bs@ =~= begin_word());
    let mut pos = match find_from(private, bs, lx.pos) {
        Some(b) => b + 5,
        None => lx.pos,
    };
    proof {
        lemma_find_seq(private@, begin_word(), lx.pos as int);
    }
    let sl: [u8; 1] = [47];
    let sls = sl.as_slice();
    assert(sls@ =~= seq![47u8]);
    let mut map: Vec<(String, Vec<u8>)> = Vec::new();
    let mut names: Vec<String> = Vec::new();
    let ghost mut es: Seq<(Seq<char>, Seq<u8>)> = Seq::empty();
    assert(entries_view(map@) =~= Seq::<(Seq<char>, Seq<u8>)>::empty());
    loop
        invariant_except_break
            !(es.len() >= count && count > 0),
            charstrings_spec(private@, liv) == charstrings_from(private@, liv, count as int, pos as int, es),
        invariant
            n == private@.len(),
            sls@ == seq![47u8],
            liv == liv_of(len_iv),
            pos <= n,
            distinct_keys(entries_view(map@), glyph_key()),
            keyed_map(entries_view(map@), glyph_key()) == insert_all(Map::empty(), es, glyph_key()),
            es.len() == names@.len(),
            forall|m: int| 0 <= m < es.len() ==> (#[trigger] names@[m])@ == es[m].0,
        ensures
            distinct_keys(entries_view(map@), glyph_key()),
            keyed_map(entries_view(map@), glyph_key()) == insert_all(Map::empty(), es, glyph_key()),
            es.len() == names@.len(),
            forall|m: int| 0 <= m < es.len() ==> (#[trigger] names@[m])@ == es[m].0,
            charstrings_spec(private@, liv) == Ok::<Seq<(Seq<char>, Seq<u8>)>, Seq<char>>(es),
        decreases n + 1 - pos,
    {
        let slash = match find_from(private, sls, pos) {
            Some(s) => s,
            None => {
                break;
            },
        };
        proof {
            lemma_find_seq(private@, seq![47u8], pos as int);
            lemma_lex_bounds(private@, slash as int);
        }
        let mut lx = Lexer { s: private, pos: slash };
        let tok = match lx.token() {
            Some(t) => t,
            None => {
                break;
            },
        };
        let ghost e = lx.pos as int;
        if tok.len() == 1 {
            pos = slash + 1;
            continue;
        }
        proof {
            lemma_lex_bounds(private@, e);
            lemma_lex_int_range(private@, e);
            lemma_lex_bounds(private@, lex_after(private@, e));
        }
        let nm = &tok[1..tok.len()];
        let name = string_from_bytes_lossy(nm);
        let len = match lx.integer() {
            Some(l) => l,
            None => {
                break;
            },
        };
        let _rd = lx.token();
        if lx.pos >= n || len < 0 || len as u64 > (n - lx.pos - 1) as u64 {
            proof {
                let (a, ee) = lex_token(private@, slash as int).unwrap();
                assert(nm@ =~= private@.subrange(a + 1, ee));
            }
            return Err(GlyphError { message: text_str("charstring ", name.as_str(), " runs past end") });
        }
        let start = lx.pos + 1;
        let end = start + len as usize;
        let piece = &private[start..end];
        assert(piece@ =~= private@.subrange(start as int, end as int));
        let cs = plain_charstring_exec(piece, len_iv);
        let ghost entry = (name@, cs@);
        proof {
            let (a, ee) = lex_token(private@, slash as int).unwrap();
            assert(nm@ =~= private@.subrange(a + 1, ee));
        }
        let ghost ev = entries_view(map@);
        match position_of(&map, name.as_str()) {
            Some(j) => {
                proof {
                    lemma_keyed_update(ev, glyph_key(), j as int, entry);
                }
                let nm2 = name.clone();
                map.set(j, (nm2, cs));
                assert(entries_view(map@) =~= ev.update(j as int, entry));
            },
            None => {
                proof {
                    lemma_keyed_push(ev, glyph_key(), entry);
                }
                let nm2 = name.clone();
                map.push((nm2, cs));
                assert(entries_view(map@) =~= ev.push(entry));
            },
        }
        let ghost old_es = es;
        proof {
            es = es.push(entry);
            assert(es.drop_last() =~= old_es);
        }
        names.push(name);
        pos = end;
        if names.len() >= count && count > 0 {
            break;
        }
    }
    assert(texts(names@) =~= entry_names(es));
    Ok((map, names))
}

} // verus!

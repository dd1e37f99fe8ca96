//! AFM (Adobe Font Metrics) files: the font name, the font bounding box
//! and, for each `C` line, the code, width, name and bounding box of a
//! character. The numbers of widths and boxes are decimal fractions; they
//! are kept here as the words the file writes.

use vstd::prelude::*;
use vstd::string::StringSliceAdditionalSpecFns;
use crate::text::same_text;
use crate::scan::{
    lines_from, range_eq, split_lines, split_words, starts_with, starts_with_exec, trim_end_from,
    trim_range, trim_start, words, find_in, find_byte, lemma_find_in_bounds,
};
use crate::text::string_from_bytes_lossy;
use crate::boundary::{
    at_boundaries, at_boundary, lemma_ascii, lemma_find_ascii, lemma_lines_boundaries, lemma_skip_ws_boundary,
    lemma_start, lemma_trim_end_boundary, lemma_valid_between, lemma_words_valid,
};
use crate::scan::{lemma_skip_ws, lemma_trim_end};
use vstd::utf8::*;
use crate::type1::lexer::{lemma_parse_i64_range, parse_i64, parse_int};

verus! {

#[derive(Debug, Clone, PartialEq)]
pub struct AfmChar {
    /// The code; -1 when the character is not encoded.
    pub code: i32,
    /// The word after the last `WX` field (`None`: no such word, width 0).
    pub width_word: Option<String>,
    pub name: String,
    /// The words after each `B` field, in order; the last one that holds
    /// four numbers is the bounding box (llx, lly, urx, ury).
    pub bbox_words: Vec<Vec<String>>,
}

#[derive(Debug, Clone, PartialEq)]
pub struct Afm {
    pub font_name: String,
    /// The words after each `FontBBox`, in order; the last one that holds
    /// four numbers is the font's bounding box.
    pub font_bbox_words: Vec<Vec<String>>,
    pub chars: Vec<AfmChar>,
}

pub struct AfmCharModel {
    pub code: int,
    pub width_word: Option<Seq<char>>,
    pub name: Seq<char>,
    pub bbox_words: Seq<Seq<Seq<char>>>,
}

pub struct AfmModel {
    pub font_name: Seq<char>,
    pub font_bbox_words: Seq<Seq<Seq<char>>>,
    pub chars: Seq<AfmCharModel>,
}

pub open spec fn texts_view(v: Vec<String>) -> Seq<Seq<char>> {
    v@.map_values(|s: String| s@)
}

pub open spec fn lists_view(v: Seq<Vec<String>>) -> Seq<Seq<Seq<char>>> {
    v.map_values(|w: Vec<String>| texts_view(w))
}

impl View for AfmChar {
    type V = AfmCharModel;

    open spec fn view(&self) -> AfmCharModel {
        AfmCharModel {
            code: self.code as int,
            width_word: match self.width_word {
                Some(w) => Some(w@),
                None => None,
            },
            name: self.name@,
            bbox_words: lists_view(self.bbox_words@),
        }
    }
}

impl View for Afm {
    type V = AfmModel;

    open spec fn view(&self) -> AfmModel {
        AfmModel {
            font_name: self.font_name@,
            font_bbox_words: lists_view(self.font_bbox_words@),
            chars: self.chars@.map_values(|c: AfmChar| c@),
        }
    }
}

/// The pieces of `s[lo..hi]` between the bytes `c`, as `str::split` gives
/// them (an empty piece after a last `c`), by range.
pub open spec fn pieces(s: Seq<u8>, lo: int, hi: int, c: u8) -> Seq<(int, int)>
    decreases hi - lo,
{
    match find_in(s, c, lo, hi) {
        None => seq![(lo, hi)],
        Some(k) => if k < lo || k >= hi {
            seq![(lo, hi)]
        } else {
            seq![(lo, k)] + pieces(s, k + 1, hi, c)
        },
    }
}

/// The texts of the words `ws` of `s`.
pub open spec fn word_texts(s: Seq<u8>, ws: Seq<(int, int)>) -> Seq<Seq<char>> {
    ws.map_values(|w: (int, int)| decode_utf8(s.subrange(w.0, w.1)))
}

pub open spec fn new_char() -> AfmCharModel {
    AfmCharModel { code: -1, width_word: None, name: Seq::empty(), bbox_words: Seq::empty() }
}

/// The code a `C` field gives: its second word as an `i32`, else -1.
pub open spec fn code_of(s: Seq<u8>, ws: Seq<(int, int)>) -> int {
    if ws.len() > 1 {
        match parse_i64(s.subrange(ws[1].0, ws[1].1)) {
            Some(v) => if i32::MIN <= v <= i32::MAX {
                v
            } else {
                -1
            },
            None => -1,
        }
    } else {
        -1
    }
}

/// One `;`-separated field of a `C` line applied to the character read so far.
pub open spec fn apply_field(s: Seq<u8>, f: (int, int), c: AfmCharModel) -> AfmCharModel {
    let ws = words(s, f.0, f.1);
    if ws.len() == 0 {
        c
    } else {
        let w0 = s.subrange(ws[0].0, ws[0].1);
        let second = if ws.len() > 1 {
            Some(decode_utf8(s.subrange(ws[1].0, ws[1].1)))
        } else {
            None
        };
        if w0 == seq![67u8] {
            AfmCharModel { code: code_of(s, ws), ..c }
        } else if w0 == seq![87u8, 88] {
            AfmCharModel { width_word: second, ..c }
        } else if w0 == seq![78u8] {
            AfmCharModel {
                name: match second {
                    Some(n) => n,
                    None => Seq::empty(),
                },
                ..c
            }
        } else if w0 == seq![66u8] {
            AfmCharModel { bbox_words: c.bbox_words.push(word_texts(s, ws.skip(1))), ..c }
        } else {
            c
        }
    }
}

/// The character that the fields `fs` of a `C` line describe.
pub open spec fn char_of(s: Seq<u8>, fs: Seq<(int, int)>) -> AfmCharModel
    decreases fs.len(),
{
    if fs.len() == 0 {
        new_char()
    } else {
        apply_field(s, fs.last(), char_of(s, fs.drop_last()))
    }
}

pub open spec fn font_name_prefix() -> Seq<u8> {
    seq![70u8, 111, 110, 116, 78, 97, 109, 101, 32]
}

pub open spec fn font_bbox_prefix() -> Seq<u8> {
    seq![70u8, 111, 110, 116, 66, 66, 111, 120, 32]
}

pub open spec fn char_prefix() -> Seq<u8> {
    seq![67u8, 32]
}

pub open spec fn empty_afm() -> AfmModel {
    AfmModel { font_name: Seq::empty(), font_bbox_words: Seq::empty(), chars: Seq::empty() }
}

/// One line of the file, from `lo` to `hi`, applied to what was read before it.
pub open spec fn apply_line(s: Seq<u8>, lo: int, hi: int, m: AfmModel) -> AfmModel {
    let a = trim_start(s, lo, hi);
    let b = trim_end_from(s, a, hi);
    if starts_with(s, a, b, font_name_prefix()) {
        let a2 = trim_start(s, a + 9, b);
        AfmModel { font_name: decode_utf8(s.subrange(a2, trim_end_from(s, a2, b))), ..m }
    } else if starts_with(s, a, b, font_bbox_prefix()) {
        AfmModel { font_bbox_words: m.font_bbox_words.push(word_texts(s, words(s, a + 9, b))), ..m }
    } else if starts_with(s, a, b, char_prefix()) {
        AfmModel { chars: m.chars.push(char_of(s, pieces(s, a, b, 59))), ..m }
    } else {
        m
    }
}

/// What the lines `ls` of the file say.
pub open spec fn afm_lines(s: Seq<u8>, ls: Seq<(int, int)>) -> AfmModel
    decreases ls.len(),
{
    if ls.len() == 0 {
        empty_afm()
    } else {
        apply_line(s, ls.last().0, ls.last().1, afm_lines(s, ls.drop_last()))
    }
}

/// The last character named `name`.
pub open spec fn last_named(cs: Seq<AfmCharModel>, name: Seq<char>) -> Option<int>
    decreases cs.len(),
{
    if cs.len() == 0 {
        None
    } else if cs.last().name == name {
        Some(cs.len() - 1)
    } else {
        last_named(cs.drop_last(), name)
    }
}

/// The pieces of a range between boundaries, cut at a byte below 0x80, lie
/// between boundaries.
proof fn lemma_pieces_boundaries(s: Seq<u8>, lo: int, hi: int, c: u8)
    requires
        valid_utf8(s),
        c < 0x80,
        at_boundaries(s, (lo, hi)),
    ensures
        forall|k: int| 0 <= k < pieces(s, lo, hi, c).len() ==> at_boundaries(s, #[trigger] pieces(s, lo, hi, c)[k]),
    decreases hi - lo,
{
    lemma_find_in_bounds(s, c, lo, hi);
    lemma_find_ascii(s, c, lo, hi);
    if let Some(k) = find_in(s, c, lo, hi) {
        lemma_pieces_boundaries(s, k + 1, hi, c);
        let rest = pieces(s, k + 1, hi, c);
        assert(pieces(s, lo, hi, c) == seq![(lo, k)] + rest);
        assert forall|j: int| 0 <= j < pieces(s, lo, hi, c).len() implies
            at_boundaries(s, #[trigger] pieces(s, lo, hi, c)[j]) by {
            if j > 0 {
                assert(pieces(s, lo, hi, c)[j] == rest[j - 1]);
            }
        }
    }
}

/// After a prefix of bytes below 0x80 comes a boundary.
proof fn lemma_after_prefix(s: Seq<u8>, a: int, b: int, p: Seq<u8>)
    requires
        valid_utf8(s),
        0 <= a,
        b <= s.len(),
        p.len() > 0,
        p[p.len() - 1] < 0x80,
        starts_with(s, a, b, p),
    ensures
        at_boundary(s, a + p.len()),
{
    assert(s[a + p.len() - 1] == s.subrange(a, a + p.len())[p.len() - 1]);
    lemma_ascii(s, a + p.len() - 1);
}

/// The trimmed range of a range between boundaries lies between boundaries.
proof fn lemma_trimmed_boundaries(s: Seq<u8>, lo: int, hi: int)
    requires
        valid_utf8(s),
        at_boundaries(s, (lo, hi)),
    ensures
        at_boundaries(s, (trim_start(s, lo, hi), trim_end_from(s, trim_start(s, lo, hi), hi))),
{
    lemma_skip_ws(s, lo, hi);
    lemma_skip_ws_boundary(s, lo, hi);
    lemma_trim_end(s, trim_start(s, lo, hi), hi);
    lemma_trim_end_boundary(s, trim_start(s, lo, hi), hi);
}

/// `str::split(c)` on `s[lo..hi]`, by range.
pub fn split_pieces(s: &[u8], lo: usize, hi: usize, c: u8) -> (r: Vec<(usize, usize)>)
    requires
        lo <= hi <= s@.len(),
    ensures
        r@.len() == pieces(s@, lo as int, hi as int, c).len(),
        forall|k: int| 0 <= k < r@.len() ==>
            (#[trigger] r@[k]).0 == pieces(s@, lo as int, hi as int, c)[k].0
            && r@[k].1 == pieces(s@, lo as int, hi as int, c)[k].1,
        forall|k: int| 0 <= k < r@.len() ==> lo <= (#[trigger] r@[k]).0 <= r@[k].1 <= hi,
{
    let mut r: Vec<(usize, usize)> = Vec::new();
    let mut i = lo;
    let ghost all = pieces(s@, lo as int, hi as int, c);
    loop
        invariant
            lo <= i <= hi,
            hi <= s@.len(),
            all == pieces(s@, lo as int, hi as int, c),
            r@.len() + pieces(s@, i as int, hi as int, c).len() == all.len(),
            forall|k: int| 0 <= k < r@.len() ==> (#[trigger] r@[k]).0 == all[k].0 && r@[k].1 == all[k].1,
            forall|k: int| 0 <= k < pieces(s@, i as int, hi as int, c).len() ==>
                #[trigger] pieces(s@, i as int, hi as int, c)[k] == all[r@.len() + k],
            forall|k: int| 0 <= k < r@.len() ==> lo <= (#[trigger] r@[k]).0 <= r@[k].1 <= i,
        decreases hi - i,
    {
        proof {
            lemma_find_in_bounds(s@, c, i as int, hi as int);
        }
        match find_byte(s, c, i, hi) {
            None => {
                assert(pieces(s@, i as int, hi as int, c)[0] == (i as int, hi as int));
                r.push((i, hi));
                return r;
            },
            Some(k) => {
                let ghost rest = pieces(s@, k + 1, hi as int, c);
                assert(pieces(s@, i as int, hi as int, c) == seq![(i as int, k as int)] + rest);
                assert(pieces(s@, i as int, hi as int, c)[0] == (i as int, k as int));
                r.push((i, k));
                assert forall|j: int| 0 <= j < rest.len() implies #[trigger] rest[j] == all[r@.len() + j] by {
                    assert(rest[j] == pieces(s@, i as int, hi as int, c)[j + 1]);
                }
                i = k + 1;
            },
        }
    }
}

/// The texts of the words `ws[from..]` of `s`.
fn texts_of(s: &[u8], ws: &Vec<(usize, usize)>, from: usize) -> (r: Vec<String>)
    requires
        from <= ws@.len(),
        forall|k: int| 0 <= k < ws@.len() ==> (#[trigger] ws@[k]).0 <= ws@[k].1 <= s@.len()
            && valid_utf8(s@.subrange(ws@[k].0 as int, ws@[k].1 as int)),
    ensures
        texts_view(r) == ws@.skip(from as int).map_values(
            |w: (usize, usize)| decode_utf8(s@.subrange(w.0 as int, w.1 as int)),
        ),
{
    let mut r: Vec<String> = Vec::new();
    let mut k = from;
    while k < ws.len()
        invariant
            from <= k <= ws@.len(),
            forall|m: int| 0 <= m < ws@.len() ==> (#[trigger] ws@[m]).0 <= ws@[m].1 <= s@.len()
                && valid_utf8(s@.subrange(ws@[m].0 as int, ws@[m].1 as int)),
            r@.len() == k - from,
            forall|m: int| 0 <= m < r@.len() ==> (#[trigger] r@[m])@ == decode_utf8(
                s@.subrange(ws@[from + m].0 as int, ws@[from + m].1 as int),
            ),
        decreases ws@.len() - k,
    {
        let (x, y) = ws[k];
        r.push(string_from_bytes_lossy(&s[x..y]));
        k = k + 1;
    }
    assert(texts_view(r) =~= ws@.skip(from as int).map_values(
        |w: (usize, usize)| decode_utf8(s@.subrange(w.0 as int, w.1 as int)),
    ));
    r
}

/// The ranges as integer pairs.
pub open spec fn ranges(v: Seq<(usize, usize)>) -> Seq<(int, int)> {
    v.map_values(|w: (usize, usize)| (w.0 as int, w.1 as int))
}

fn read_char(s: &[u8], a: usize, b: usize) -> (c: AfmChar)
    requires
        a <= b <= s@.len(),
        valid_utf8(s@),
        at_boundaries(s@, (a as int, b as int)),
    ensures
        c@ == char_of(s@, pieces(s@, a as int, b as int, 59)),
{
    let fs = split_pieces(s, a, b, 59);
    let ghost fsv = pieces(s@, a as int, b as int, 59);
    assert(ranges(fs@) =~= fsv);
    proof {
        lemma_pieces_boundaries(s@, a as int, b as int, 59);
    }
    let mut code: i32 = -1;
    let mut width_word: Option<String> = None;
    let mut name = String::new();
    let mut bbox_words: Vec<Vec<String>> = Vec::new();
    let cw: [u8; 1] = [67];
    let wxw: [u8; 2] = [87, 88];
    let nw: [u8; 1] = [78];
    let bw: [u8; 1] = [66];
    let cs = cw.as_slice();
    let wxs = wxw.as_slice();
    let ns = nw.as_slice();
    let bs = bw.as_slice();
    assert(cs@ =~= seq![67u8]);
    assert(wxs@ =~= seq![87u8, 88]);
    assert(ns@ =~= seq![78u8]);
    assert(bs@ =~= seq![66u8]);
    assert(lists_view(bbox_words@) =~= Seq::<Seq<Seq<char>>>::empty());
    assert(fsv.take(0) =~= Seq::<(int, int)>::empty());
    let mut j: usize = 0;
    while j < fs.len()
        invariant
            cs@ == seq![67u8],
            wxs@ == seq![87u8, 88],
            ns@ == seq![78u8],
            bs@ == seq![66u8],
            j <= fs@.len(),
            fsv == ranges(fs@),
            forall|k: int| 0 <= k < fs@.len() ==> a <= (#[trigger] fs@[k]).0 <= fs@[k].1 <= b,
            b <= s@.len(),
            valid_utf8(s@),
            forall|k: int| 0 <= k < fsv.len() ==> at_boundaries(s@, #[trigger] fsv[k]),
            (AfmChar { code, width_word, name, bbox_words })@ == char_of(s@, fsv.take(j as int)),
        decreases fs@.len() - j,
    {
        let (lo, hi) = fs[j];
        let ws = split_words(s, lo, hi);
        let ghost wsv = words(s@, lo as int, hi as int);
        assert(ranges(ws@) =~= wsv);
        proof {
            assert(at_boundaries(s@, fsv[j as int]));
            lemma_words_valid(s@, lo as int, hi as int);
            assert forall|k: int| 0 <= k < ws@.len() implies
                valid_utf8(s@.subrange((#[trigger] ws@[k]).0 as int, ws@[k].1 as int)) by {
                assert(wsv[k] == (ws@[k].0 as int, ws@[k].1 as int));
            }
        }
        let ghost before = (AfmChar { code, width_word, name, bbox_words })@;
        assert(fsv.take(j + 1).drop_last() =~= fsv.take(j as int));
        assert(fsv.take(j + 1).last() == (lo as int, hi as int));
        if ws.len() > 0 {
            let (x0, y0) = ws[0];
            if range_eq(s, x0, y0, cs) {
                code = -1;
                if ws.len() > 1 {
                    let (x1, y1) = ws[1];
                    let piece = &s[x1..y1];
                    assert(piece@ =~= s@.subrange(x1 as int, y1 as int));
                    proof {
                        lemma_parse_i64_range(piece@);
                    }
                    match parse_int(piece) {
                        Some(v) => {
                            if -2147483648 <= v && v <= 2147483647 {
                                code = v as i32;
                            }
                        },
                        None => {},
                    }
                }
            } else if range_eq(s, x0, y0, wxs) {
                width_word = if ws.len() > 1 {
                    let (x1, y1) = ws[1];
                    Some(string_from_bytes_lossy(&s[x1..y1]))
                } else {
                    None
                };
            } else if range_eq(s, x0, y0, ns) {
                name = if ws.len() > 1 {
                    let (x1, y1) = ws[1];
                    string_from_bytes_lossy(&s[x1..y1])
                } else {
                    String::new()
                };
            } else if range_eq(s, x0, y0, bs) {
                let t = texts_of(s, &ws, 1);
                assert(texts_view(t) =~= word_texts(s@, wsv.skip(1)));
                bbox_words.push(t);
                assert(lists_view(bbox_words@) =~= before.bbox_words.push(word_texts(s@, wsv.skip(1))));
            }
        }
        assert((AfmChar { code, width_word, name, bbox_words })@ == apply_field(s@, (lo as int, hi as int), before));
        j = j + 1;
    }
    assert(fsv.take(j as int) =~= fsv);
    AfmChar { code, width_word, name, bbox_words }
}

impl Afm {
    /// Reads an AFM file line by line: `FontName`, `FontBBox` and the `C`
    /// lines; other lines are passed over.
    pub fn parse(text: &str) -> (afm: Afm)
        ensures
            afm@ == afm_lines(text.spec_bytes(), lines_from(text.spec_bytes(), 0)),
    {
        let s = text.as_bytes();
        let ls = split_lines(s);
        let ghost lsv = lines_from(s@, 0);
        assert(ranges(ls@) =~= lsv);
        proof {
            encode_utf8_valid_utf8(text@);
            lemma_start(s@);
            lemma_lines_boundaries(s@, 0);
        }
        let fnp: [u8; 9] = [70, 111, 110, 116, 78, 97, 109, 101, 32];
        let fbp: [u8; 9] = [70, 111, 110, 116, 66, 66, 111, 120, 32];
        let cp: [u8; 2] = [67, 32];
        let fns = fnp.as_slice();
        let fbs = fbp.as_slice();
        let cps = cp.as_slice();
        assert(fns@ =~= font_name_prefix());
        assert(fbs@ =~= font_bbox_prefix());
        assert(cps@ =~= char_prefix());
        let mut afm = Afm { font_name: String::new(), font_bbox_words: Vec::new(), chars: Vec::new() };
        assert(afm@.font_bbox_words =~= Seq::<Seq<Seq<char>>>::empty());
        assert(afm@.chars =~= Seq::<AfmCharModel>::empty());
        let mut k: usize = 0;
        while k < ls.len()
            invariant
                fns@ == font_name_prefix(),
                fbs@ == font_bbox_prefix(),
                cps@ == char_prefix(),
                s@ == text.spec_bytes(),
                lsv == lines_from(s@, 0),
                lsv == ranges(ls@),
                forall|m: int| 0 <= m < ls@.len() ==> (#[trigger] ls@[m]).0 <= ls@[m].1 <= s@.len(),
                valid_utf8(s@),
                forall|m: int| 0 <= m < lsv.len() ==> at_boundaries(s@, #[trigger] lsv[m]),
                k <= ls@.len(),
                afm@ == afm_lines(s@, lsv.take(k as int)),
            decreases ls@.len() - k,
        {
            let (lo, hi) = ls[k];
            let ghost before = afm@;
            assert(lsv.take(k + 1).drop_last() =~= lsv.take(k as int));
            assert(lsv.take(k + 1).last() == (lo as int, hi as int));
            let (a, b) = trim_range(s, lo, hi);
            proof {
                assert(at_boundaries(s@, lsv[k as int]));
                lemma_trimmed_boundaries(s@, lo as int, hi as int);
            }
            if starts_with_exec(s, a, b, fns) {
                let (a2, b2) = trim_range(s, a + 9, b);
                proof {
                    lemma_after_prefix(s@, a as int, b as int, fns@);
                    lemma_trimmed_boundaries(s@, a + 9, b as int);
                    lemma_valid_between(s@, a2 as int, b2 as int);
                }
                afm.font_name = string_from_bytes_lossy(&s[a2..b2]);
            } else if starts_with_exec(s, a, b, fbs) {
                let ws = split_words(s, a + 9, b);
                proof {
                    lemma_after_prefix(s@, a as int, b as int, fbs@);
                    lemma_words_valid(s@, a + 9, b as int);
                    assert forall|m: int| 0 <= m < ws@.len() implies
                        valid_utf8(s@.subrange((#[trigger] ws@[m]).0 as int, ws@[m].1 as int)) by {
                        assert(words(s@, a + 9, b as int)[m] == (ws@[m].0 as int, ws@[m].1 as int));
                    }
                }
                let t = texts_of(s, &ws, 0);
                assert(texts_view(t) =~= word_texts(s@, words(s@, a + 9, b as int)));
                afm.font_bbox_words.push(t);
                assert(lists_view(afm.font_bbox_words@) =~= before.font_bbox_words.push(
                    word_texts(s@, words(s@, a + 9, b as int)),
                ));
            } else if starts_with_exec(s, a, b, cps) {
                let c = read_char(s, a, b);
                afm.chars.push(c);
                assert(afm@.chars =~= before.chars.push(c@));
            }
            k = k + 1;
        }
        assert(lsv.take(k as int) =~= lsv);
        afm
    }

    /// The last character named `name`.
    pub fn by_name(&self, name: &str) -> (r: Option<&AfmChar>)
        ensures
            match (r, last_named(self@.chars, name@)) {
                (Some(c), Some(i)) => c@ == self@.chars[i],
                (None, None) => true,
                _ => false,
            },
    {
        let ghost cs = self@.chars;
        let mut k = self.chars.len();
        assert(cs.take(k as int) =~= cs);
        while k > 0
            invariant
                k <= self.chars@.len(),
                cs == self@.chars,
                last_named(cs, name@) == last_named(cs.take(k as int), name@),
            decreases k,
        {
            assert(cs.take(k as int).drop_last() =~= cs.take(k - 1));
            assert(cs.take(k as int).last() == self.chars@[k - 1]@);
            if same_text(self.chars[k - 1].name.as_str(), name) {
                return Some(&self.chars[k - 1]);
            }
            k = k - 1;
        }
        None
    }
}

} // verus!

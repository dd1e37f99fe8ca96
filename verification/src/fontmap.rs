//! Font map files: from a TeX font name to the real font file and encoding.
//!
//! - `pdftex.map` style: `tfmname psname "opts" <[enc.enc <font.pfb`
//!   (dvipdfmx reads the same form)
//! - `kanjix.map`: `tfmname CMap fontfile`

use vstd::prelude::*;
use vstd::string::StringSliceAdditionalSpecFns;
use crate::keyed::{distinct_keys, insert_all, keyed_map, lemma_keyed_lookup, lemma_keyed_push, lemma_keyed_update};
use crate::scan::{
    find_byte, find_in, lemma_find_in_bounds, lines_from, range_eq, split_lines, split_words,
    starts_with, starts_with_exec, trim_end_from, trim_range, trim_start, words,
};
use crate::text::{opt_view, same_text, string_from_bytes_lossy};
use crate::boundary::{
    at_boundaries, at_boundary, lemma_ascii, lemma_ascii_byte_valid, lemma_find_ascii, lemma_lines_boundaries, lemma_start, lemma_trimmed_words_valid,
    lemma_valid_between, lemma_words_boundaries,
};
use crate::scan::lemma_words_in_range;
use vstd::utf8::*;

verus! {

#[derive(Debug, Clone, PartialEq)]
pub struct MapEntry {
    pub tfm_name: String,
    /// The PostScript name (the TFM name when it is left out).
    pub ps_name: String,
    /// From `<[foo.enc` or `<foo.enc`.
    pub encoding_file: Option<String>,
    /// From `<foo.pfb` / `<<foo.ttf`; absent for fonts that are not embedded.
    pub font_file: Option<String>,
    /// The number before `SlantFont` in the quoted PostScript, as written.
    pub slant: Option<String>,
    /// The number before `ExtendFont` in the quoted PostScript, as written.
    pub extend: Option<String>,
    /// Further words (dvipdfmx options such as `-r`, `-w`, `-l`), kept as they are.
    pub extra: Vec<String>,
}

#[derive(Debug, Clone, PartialEq, Eq)]
pub struct KanjiMapEntry {
    pub tfm_name: String,
    /// The CMap name (`UniJIS-UTF16-H` and the like) or `Identity-H`.
    pub cmap: String,
    /// The font file; may carry a TTC index such as `:0:`.
    pub font_file: String,
}

/// The tables of a font map; each keeps one entry per TFM name.
#[derive(Debug, Clone)]
pub struct FontMap {
    pub entries: Vec<MapEntry>,
    pub kanji: Vec<KanjiMapEntry>,
}

pub struct MapEntryModel {
    pub tfm_name: Seq<char>,
    pub ps_name: Seq<char>,
    pub encoding_file: Option<Seq<char>>,
    pub font_file: Option<Seq<char>>,
    pub slant: Option<Seq<char>>,
    pub extend: Option<Seq<char>>,
    pub extra: Seq<Seq<char>>,
}

pub type KanjiModel = (Seq<char>, Seq<char>, Seq<char>);

impl View for MapEntry {
    type V = MapEntryModel;

    open spec fn view(&self) -> MapEntryModel {
        MapEntryModel {
            tfm_name: self.tfm_name@,
            ps_name: self.ps_name@,
            encoding_file: opt_view(self.encoding_file),
            font_file: opt_view(self.font_file),
            slant: opt_view(self.slant),
            extend: opt_view(self.extend),
            extra: self.extra@.map_values(|s: String| s@),
        }
    }
}

impl View for KanjiMapEntry {
    type V = KanjiModel;

    open spec fn view(&self) -> KanjiModel {
        (self.tfm_name@, self.cmap@, self.font_file@)
    }
}

pub open spec fn entry_key() -> spec_fn(MapEntryModel) -> Seq<char> {
    |m: MapEntryModel| m.tfm_name
}

pub open spec fn kanji_key() -> spec_fn(KanjiModel) -> Seq<char> {
    |m: KanjiModel| m.0
}

impl View for FontMap {
    type V = (Map<Seq<char>, MapEntryModel>, Map<Seq<char>, KanjiModel>);

    open spec fn view(&self) -> Self::V {
        (
            keyed_map(self.entries@.map_values(|e: MapEntry| e@), entry_key()),
            keyed_map(self.kanji@.map_values(|e: KanjiMapEntry| e@), kanji_key()),
        )
    }
}

impl FontMap {
    /// One entry per TFM name in each table.
    pub open spec fn wf(&self) -> bool {
        &&& distinct_keys(self.entries@.map_values(|e: MapEntry| e@), entry_key())
        &&& distinct_keys(self.kanji@.map_values(|e: KanjiMapEntry| e@), kanji_key())
    }
}

// ---------- lines ----------

/// The trimmed line `l` says nothing: it is empty or a `%` / `#` comment.
pub open spec fn line_skipped(b: Seq<u8>, a: int, e: int) -> bool {
    a >= e || b[a] == 37 || b[a] == 35
}

/// The trimmed range of line `l`.
pub open spec fn trimmed(b: Seq<u8>, l: (int, int)) -> (int, int) {
    let a = trim_start(b, l.0, l.1);
    (a, trim_end_from(b, a, l.1))
}

/// The entry a `kanjix.map` line gives: its first three words.
pub open spec fn kanji_line(b: Seq<u8>, l: (int, int)) -> Option<KanjiModel> {
    let (a, e) = trimmed(b, l);
    let ws = words(b, a, e);
    if line_skipped(b, a, e) || ws.len() < 3 {
        None
    } else {
        Some((
            decode_utf8(b.subrange(ws[0].0, ws[0].1)),
            decode_utf8(b.subrange(ws[1].0, ws[1].1)),
            decode_utf8(b.subrange(ws[2].0, ws[2].1)),
        ))
    }
}

/// The entries that the first `n` lines give, in order.
pub open spec fn kanji_entries(b: Seq<u8>, n: int) -> Seq<KanjiModel>
    decreases n,
{
    if n <= 0 {
        Seq::empty()
    } else {
        let prev = kanji_entries(b, n - 1);
        match kanji_line(b, lines_from(b, 0)[n - 1]) {
            Some(k) => prev.push(k),
            None => prev,
        }
    }
}

// ---------- pdftex.map lines ----------

/// The line with its quoted part cut out (replaced by a space).
pub open spec fn unquoted(b: Seq<u8>, a: int, e: int) -> Seq<u8> {
    match find_in(b, 34, a, e) {
        Some(q1) => match find_in(b, 34, q1 + 1, e) {
            Some(q2) => b.subrange(a, q1) + seq![32u8] + b.subrange(q2 + 1, e),
            None => b.subrange(a, e),
        },
        None => b.subrange(a, e),
    }
}

/// The range of the quoted part (empty when there is none).
pub open spec fn quoted(b: Seq<u8>, a: int, e: int) -> (int, int) {
    match find_in(b, 34, a, e) {
        Some(q1) => match find_in(b, 34, q1 + 1, e) {
            Some(q2) => (q1 + 1, q2),
            None => (a, a),
        },
        None => (a, a),
    }
}

pub enum WordKind {
    Font(int, int),
    Enc(int, int),
    Dash,
    Other,
}

pub open spec fn dot_enc() -> Seq<u8> {
    seq![46u8, 101u8, 110u8, 99u8]
}

/// What a word after the TFM name says: `<<file` is a font file, `<[file`
/// an encoding, `<file` an encoding when it ends in `.enc` and a font file
/// otherwise; `-x` is an option; anything else is the PostScript name or an
/// extra word.
pub open spec fn word_kind(r: Seq<u8>, w: (int, int)) -> WordKind {
    if starts_with(r, w.0, w.1, seq![60u8, 60u8]) {
        WordKind::Font(w.0 + 2, w.1)
    } else if starts_with(r, w.0, w.1, seq![60u8, 91u8]) {
        WordKind::Enc(w.0 + 2, w.1)
    } else if r[w.0] == 60 {
        if w.1 - (w.0 + 1) >= 4 && r.subrange(w.1 - 4, w.1) == dot_enc() {
            WordKind::Enc(w.0 + 1, w.1)
        } else {
            WordKind::Font(w.0 + 1, w.1)
        }
    } else if r[w.0] == 45 {
        WordKind::Dash
    } else {
        WordKind::Other
    }
}

/// The last font file among words 1..n.
pub open spec fn font_upto(r: Seq<u8>, ws: Seq<(int, int)>, n: int) -> Option<(int, int)>
    decreases n,
{
    if n <= 1 {
        None
    } else {
        match word_kind(r, ws[n - 1]) {
            WordKind::Font(x, y) => Some((x, y)),
            _ => font_upto(r, ws, n - 1),
        }
    }
}

/// The last encoding among words 1..n.
pub open spec fn enc_upto(r: Seq<u8>, ws: Seq<(int, int)>, n: int) -> Option<(int, int)>
    decreases n,
{
    if n <= 1 {
        None
    } else {
        match word_kind(r, ws[n - 1]) {
            WordKind::Enc(x, y) => Some((x, y)),
            _ => enc_upto(r, ws, n - 1),
        }
    }
}

/// The first plain word among words 1..n: the PostScript name.
pub open spec fn ps_upto(r: Seq<u8>, ws: Seq<(int, int)>, n: int) -> Option<(int, int)>
    decreases n,
{
    if n <= 1 {
        None
    } else {
        match ps_upto(r, ws, n - 1) {
            Some(p) => Some(p),
            None => match word_kind(r, ws[n - 1]) {
                WordKind::Other => Some(ws[n - 1]),
                _ => None,
            },
        }
    }
}

/// The options and the plain words after the PostScript name, among words 1..n.
pub open spec fn extra_upto(r: Seq<u8>, ws: Seq<(int, int)>, n: int) -> Seq<(int, int)>
    decreases n,
{
    if n <= 1 {
        Seq::empty()
    } else {
        let prev = extra_upto(r, ws, n - 1);
        match word_kind(r, ws[n - 1]) {
            WordKind::Dash => prev.push(ws[n - 1]),
            WordKind::Other => if ps_upto(r, ws, n - 1) is Some { prev.push(ws[n - 1]) } else { prev },
            _ => prev,
        }
    }
}

/// The word before the last occurrence of keyword `kw` among the first `n`
/// quoted words (`0.167 SlantFont`).
pub open spec fn kw_value(b: Seq<u8>, qs: Seq<(int, int)>, n: int, kw: Seq<u8>) -> Option<(int, int)>
    decreases n,
{
    if n <= 1 {
        None
    } else if b.subrange(qs[n - 1].0, qs[n - 1].1) == kw {
        Some(qs[n - 2])
    } else {
        kw_value(b, qs, n - 1, kw)
    }
}

pub open spec fn slant_font() -> Seq<u8> {
    seq![83u8, 108u8, 97u8, 110u8, 116u8, 70u8, 111u8, 110u8, 116u8]
}

pub open spec fn extend_font() -> Seq<u8> {
    seq![69u8, 120u8, 116u8, 101u8, 110u8, 100u8, 70u8, 111u8, 110u8, 116u8]
}

pub open spec fn opt_text(s: Seq<u8>, r: Option<(int, int)>) -> Option<Seq<char>> {
    match r {
        Some((x, y)) => Some(decode_utf8(s.subrange(x, y))),
        None => None,
    }
}

/// The entry that the trimmed line `b[a..e]` gives (`None` without words).
pub open spec fn pdftex_entry(b: Seq<u8>, a: int, e: int) -> Option<MapEntryModel> {
    let r = unquoted(b, a, e);
    let ws = words(r, 0, r.len() as int);
    let n = ws.len() as int;
    let q = quoted(b, a, e);
    let qs = words(b, q.0, q.1);
    if n == 0 {
        None
    } else {
        let tfm = decode_utf8(r.subrange(ws[0].0, ws[0].1));
        Some(MapEntryModel {
            tfm_name: tfm,
            ps_name: match ps_upto(r, ws, n) {
                Some((x, y)) => decode_utf8(r.subrange(x, y)),
                None => tfm,
            },
            encoding_file: opt_text(r, enc_upto(r, ws, n)),
            font_file: opt_text(r, font_upto(r, ws, n)),
            slant: opt_text(b, kw_value(b, qs, qs.len() as int, slant_font())),
            extend: opt_text(b, kw_value(b, qs, qs.len() as int, extend_font())),
            extra: extra_upto(r, ws, n).map_values(|w: (int, int)| decode_utf8(r.subrange(w.0, w.1))),
        })
    }
}

pub open spec fn pdftex_line(b: Seq<u8>, l: (int, int)) -> Option<MapEntryModel> {
    let (a, e) = trimmed(b, l);
    if line_skipped(b, a, e) {
        None
    } else {
        pdftex_entry(b, a, e)
    }
}

pub open spec fn pdftex_entries(b: Seq<u8>, n: int) -> Seq<MapEntryModel>
    decreases n,
{
    if n <= 0 {
        Seq::empty()
    } else {
        let prev = pdftex_entries(b, n - 1);
        match pdftex_line(b, lines_from(b, 0)[n - 1]) {
            Some(m) => prev.push(m),
            None => prev,
        }
    }
}

// ---------- reading ----------

enum Kind {
    Font(usize, usize),
    Enc(usize, usize),
    Dash,
    Other,
}

spec fn kind_matches(k: Kind, w: WordKind) -> bool {
    match (k, w) {
        (Kind::Font(a, b), WordKind::Font(x, y)) => a == x && b == y,
        (Kind::Enc(a, b), WordKind::Enc(x, y)) => a == x && b == y,
        (Kind::Dash, WordKind::Dash) => true,
        (Kind::Other, WordKind::Other) => true,
        _ => false,
    }
}

fn word_kind_exec(r: &[u8], x: usize, y: usize) -> (k: Kind)
    requires
        x < y <= r@.len(),
    ensures
        kind_matches(k, word_kind(r@, (x as int, y as int))),
        k matches Kind::Font(a, b) ==> x <= a <= b == y,
        k matches Kind::Enc(a, b) ==> x <= a <= b == y,
{
    let ll: [u8; 2] = [60u8, 60u8];
    let lb: [u8; 2] = [60u8, 91u8];
    let de: [u8; 4] = [46u8, 101u8, 110u8, 99u8];
    assert(ll@ =~= seq![60u8, 60u8]);
    assert(lb@ =~= seq![60u8, 91u8]);
    assert(de@ =~= dot_enc());
    if starts_with_exec(r, x, y, ll.as_slice()) {
        Kind::Font(x + 2, y)
    } else if starts_with_exec(r, x, y, lb.as_slice()) {
        Kind::Enc(x + 2, y)
    } else if r[x] == 60 {
        if y - (x + 1) >= 4 && range_eq(r, y - 4, y, de.as_slice()) {
            Kind::Enc(x + 1, y)
        } else {
            Kind::Font(x + 1, y)
        }
    } else if r[x] == 45 {
        Kind::Dash
    } else {
        Kind::Other
    }
}

// ---------- the pieces of a line are valid UTF-8 ----------

/// Cutting the quoted part out of a line of valid UTF-8 leaves valid UTF-8,
/// and the quoted part lies between boundaries.
proof fn lemma_unquoted_valid(b: Seq<u8>, a: int, e: int)
    requires
        valid_utf8(b),
        at_boundaries(b, (a, e)),
    ensures
        valid_utf8(unquoted(b, a, e)),
        at_boundaries(b, quoted(b, a, e)),
{
    lemma_find_in_bounds(b, 34, a, e);
    lemma_find_ascii(b, 34, a, e);
    lemma_valid_between(b, a, e);
    if let Some(q1) = find_in(b, 34, a, e) {
        lemma_find_in_bounds(b, 34, q1 + 1, e);
        lemma_find_ascii(b, 34, q1 + 1, e);
        if let Some(q2) = find_in(b, 34, q1 + 1, e) {
            lemma_valid_between(b, a, q1);
            lemma_valid_between(b, q2 + 1, e);
            let sp: Seq<u8> = seq![32u8];
            lemma_ascii_byte_valid(32);
            valid_utf8_concat(b.subrange(a, q1), sp);
            valid_utf8_concat(b.subrange(a, q1) + sp, b.subrange(q2 + 1, e));
        }
    }
}

/// The file names and encodings that a word gives lie between boundaries.
proof fn lemma_kind_bounds(r: Seq<u8>, w: (int, int))
    requires
        valid_utf8(r),
        at_boundaries(r, w),
        w.0 < w.1,
    ensures
        word_kind(r, w) matches WordKind::Font(x, y) ==> at_boundaries(r, (x, y)),
        word_kind(r, w) matches WordKind::Enc(x, y) ==> at_boundaries(r, (x, y)),
{
    if starts_with(r, w.0, w.1, seq![60u8, 60u8]) || starts_with(r, w.0, w.1, seq![60u8, 91u8]) {
        assert(r[w.0 + 1] == r.subrange(w.0, w.0 + 2)[1]);
        lemma_ascii(r, w.0 + 1);
    } else if r[w.0] == 60 {
        lemma_ascii(r, w.0);
    }
}

/// The ranges the line's words give lie between boundaries.
proof fn lemma_upto_bounds(r: Seq<u8>, ws: Seq<(int, int)>, n: int)
    requires
        valid_utf8(r),
        n <= ws.len(),
        forall|k: int| 0 <= k < ws.len() ==> at_boundaries(r, #[trigger] ws[k]) && ws[k].0 < ws[k].1,
    ensures
        ps_upto(r, ws, n) matches Some(w) ==> at_boundaries(r, w),
        enc_upto(r, ws, n) matches Some(w) ==> at_boundaries(r, w),
        font_upto(r, ws, n) matches Some(w) ==> at_boundaries(r, w),
        forall|k: int| 0 <= k < extra_upto(r, ws, n).len() ==> at_boundaries(r, #[trigger] extra_upto(r, ws, n)[k]),
    decreases n,
{
    if n > 1 {
        lemma_upto_bounds(r, ws, n - 1);
        lemma_kind_bounds(r, ws[n - 1]);
        let prev = extra_upto(r, ws, n - 1);
        let next = extra_upto(r, ws, n);
        assert forall|k: int| 0 <= k < next.len() implies at_boundaries(r, #[trigger] next[k]) by {
            if k < prev.len() {
                assert(next[k] == prev[k]);
            } else {
                assert(next[k] == ws[n - 1]);
            }
        }
    }
}

/// The value `kw_value` picks is one of the quoted words.
proof fn lemma_kw_bounds(b: Seq<u8>, qs: Seq<(int, int)>, n: int, kw: Seq<u8>)
    requires
        n <= qs.len(),
        forall|k: int| 0 <= k < qs.len() ==> at_boundaries(b, #[trigger] qs[k]),
    ensures
        kw_value(b, qs, n, kw) matches Some(w) ==> at_boundaries(b, w),
    decreases n,
{
    if n > 1 {
        lemma_kw_bounds(b, qs, n - 1, kw);
        assert(at_boundaries(b, qs[n - 2]));
    }
}

/// Every text in a `pdftex.map` entry read from valid UTF-8 comes from a
/// range between boundaries.
proof fn lemma_pdftex_ranges(b: Seq<u8>, a: int, e: int)
    requires
        valid_utf8(b),
        at_boundaries(b, (a, e)),
    ensures
        valid_utf8(unquoted(b, a, e)),
        forall|k: int| 0 <= k < words(unquoted(b, a, e), 0, unquoted(b, a, e).len() as int).len() ==>
            at_boundaries(unquoted(b, a, e), #[trigger] words(unquoted(b, a, e), 0, unquoted(b, a, e).len() as int)[k])
            && words(unquoted(b, a, e), 0, unquoted(b, a, e).len() as int)[k].0
                < words(unquoted(b, a, e), 0, unquoted(b, a, e).len() as int)[k].1,
        forall|k: int| 0 <= k < words(b, quoted(b, a, e).0, quoted(b, a, e).1).len() ==>
            at_boundaries(b, #[trigger] words(b, quoted(b, a, e).0, quoted(b, a, e).1)[k]),
{
    lemma_unquoted_valid(b, a, e);
    let r = unquoted(b, a, e);
    let ws = words(r, 0, r.len() as int);
    lemma_start(r);
    lemma_words_boundaries(r, 0, r.len() as int);
    lemma_words_in_range(r, 0, r.len() as int);
    let q = quoted(b, a, e);
    lemma_words_boundaries(b, q.0, q.1);
    lemma_words_in_range(b, q.0, q.1);
}

fn text_of(s: &[u8], w: Option<(usize, usize)>) -> (r: Option<String>)
    requires
        w matches Some((x, y)) ==> x <= y <= s@.len() && valid_utf8(s@.subrange(x as int, y as int)),
    ensures
        opt_view(r) == opt_text(s@, match w {
            Some((x, y)) => Some((x as int, y as int)),
            None => None,
        }),
{
    match w {
        Some((x, y)) => Some(string_from_bytes_lossy(&s[x..y])),
        None => None,
    }
}

/// The value before the last occurrence of `kw` among the quoted words.
fn kw_value_exec(b: &[u8], qs: &Vec<(usize, usize)>, kw: &[u8], ghost_qs: Ghost<Seq<(int, int)>>) -> (r: Option<(usize, usize)>)
    requires
        qs@.len() == ghost_qs@.len(),
        forall|k: int| 0 <= k < qs@.len() ==>
            (#[trigger] qs@[k]).0 == ghost_qs@[k].0 && qs@[k].1 == ghost_qs@[k].1,
        forall|k: int| 0 <= k < qs@.len() ==> (#[trigger] qs@[k]).0 <= qs@[k].1 <= b@.len(),
    ensures
        kw_value(b@, ghost_qs@, ghost_qs@.len() as int, kw@) == match r {
            Some((x, y)) => Some((x as int, y as int)),
            None => None::<(int, int)>,
        },
        r matches Some((x, y)) ==> x <= y <= b@.len(),
{
    let mut cur: Option<(usize, usize)> = None;
    let mut i: usize = 1;
    while i < qs.len()
        invariant
            qs@.len() == ghost_qs@.len(),
            forall|k: int| 0 <= k < qs@.len() ==>
                (#[trigger] qs@[k]).0 == ghost_qs@[k].0 && qs@[k].1 == ghost_qs@[k].1,
            forall|k: int| 0 <= k < qs@.len() ==> (#[trigger] qs@[k]).0 <= qs@[k].1 <= b@.len(),
            1 <= i,
            i <= qs@.len() || i == 1,
            kw_value(b@, ghost_qs@, i as int, kw@) == match cur {
                Some((x, y)) => Some((x as int, y as int)),
                None => None::<(int, int)>,
            },
            cur matches Some((x, y)) ==> x <= y <= b@.len(),
        decreases qs@.len() - i,
    {
        let (x, y) = qs[i];
        if range_eq(b, x, y, kw) {
            cur = Some(qs[i - 1]);
        }
        i = i + 1;
    }
    proof {
        if qs@.len() == 0 {
            assert(kw_value(b@, ghost_qs@, 1, kw@) is None);
            assert(cur is None);
            assert(kw_value(b@, ghost_qs@, ghost_qs@.len() as int, kw@) is None);
        } else {
            assert(i == qs@.len());
            assert(i as int == ghost_qs@.len());
        }
    }
    cur
}

/// Reads one `pdftex.map` line, trimmed to `b[a..e]`.
fn parse_pdftex_line(b: &[u8], a: usize, e: usize) -> (res: Option<MapEntry>)
    requires
        a <= e <= b@.len(),
        valid_utf8(b@),
        at_boundaries(b@, (a as int, e as int)),
    ensures
        match res {
            Some(x) => pdftex_entry(b@, a as int, e as int) == Some(x@),
            None => pdftex_entry(b@, a as int, e as int) is None,
        },
{
    proof {
        lemma_find_in_bounds(b@, 34, a as int, e as int);
    }
    let mut r: Vec<u8> = Vec::new();
    let mut qlo = a;
    let mut qhi = a;
    let mut pieces: Vec<(usize, usize)> = Vec::new();
    match find_byte(b, 34, a, e) {
        Some(q1) => {
            proof {
                lemma_find_in_bounds(b@, 34, q1 + 1, e as int);
            }
            match find_byte(b, 34, q1 + 1, e) {
                Some(q2) => {
                    pieces.push((a, q1));
                    pieces.push((q2 + 1, e));
                    qlo = q1 + 1;
                    qhi = q2;
                },
                None => {
                    pieces.push((a, e));
                },
            }
        },
        None => {
            pieces.push((a, e));
        },
    }
    let mut pi: usize = 0;
    while pi < pieces.len()
        invariant
            pieces@.len() == 1 || pieces@.len() == 2,
            forall|k: int| 0 <= k < pieces@.len() ==> (#[trigger] pieces@[k]).0 <= pieces@[k].1 <= b@.len(),
            pi <= pieces@.len(),
            r@ == if pi == 0 {
                Seq::empty()
            } else if pi == 1 {
                b@.subrange(pieces@[0].0 as int, pieces@[0].1 as int) + (if pieces@.len() == 2 { seq![32u8] } else { Seq::empty() })
            } else {
                b@.subrange(pieces@[0].0 as int, pieces@[0].1 as int) + seq![32u8]
                    + b@.subrange(pieces@[1].0 as int, pieces@[1].1 as int)
            },
        decreases pieces@.len() - pi,
    {
        let (x, y) = pieces[pi];
        let ghost before = r@;
        let mut j = x;
        while j < y
            invariant
                x <= j <= y <= b@.len(),
                r@ == before + b@.subrange(x as int, j as int),
            decreases y - j,
        {
            r.push(b[j]);
            j = j + 1;
            assert(r@ =~= before + b@.subrange(x as int, j as int));
        }
        if pi == 0 && pieces.len() == 2 {
            r.push(32u8);
        }
        pi = pi + 1;
        assert(r@ =~= (if pi == 1 {
                b@.subrange(pieces@[0].0 as int, pieces@[0].1 as int) + (if pieces@.len() == 2 { seq![32u8] } else { Seq::empty() })
            } else {
                b@.subrange(pieces@[0].0 as int, pieces@[0].1 as int) + seq![32u8]
                    + b@.subrange(pieces@[1].0 as int, pieces@[1].1 as int)
            }));
    }
    assert(r@ =~= unquoted(b@, a as int, e as int));
    assert(quoted(b@, a as int, e as int) == (qlo as int, qhi as int));
    let rs = r.as_slice();
    let ws = split_words(rs, 0, rs.len());
    let ghost gws = words(rs@, 0, rs@.len() as int);
    proof {
        lemma_pdftex_ranges(b@, a as int, e as int);
        lemma_upto_bounds(rs@, gws, gws.len() as int);
    }
    if ws.len() == 0 {
        return None;
    }
    proof {
        lemma_valid_between(rs@, gws[0].0, gws[0].1);
    }
    let tfm_name = string_from_bytes_lossy(&rs[ws[0].0..ws[0].1]);
    let mut ps: Option<(usize, usize)> = None;
    let mut enc: Option<(usize, usize)> = None;
    let mut font: Option<(usize, usize)> = None;
    let mut extra: Vec<String> = Vec::new();
    let ghost text_at = |w: (int, int)| decode_utf8(rs@.subrange(w.0, w.1));
    let mut k: usize = 1;
    while k < ws.len()
        invariant
            gws == words(rs@, 0, rs@.len() as int),
            ws@.len() == gws.len(),
            forall|j: int| 0 <= j < ws@.len() ==> (#[trigger] ws@[j]).0 == gws[j].0 && ws@[j].1 == gws[j].1,
            forall|j: int| 0 <= j < ws@.len() ==> 0 <= (#[trigger] ws@[j]).0 < ws@[j].1 <= rs@.len(),
            text_at == (|w: (int, int)| decode_utf8(rs@.subrange(w.0, w.1))),
            valid_utf8(rs@),
            forall|j: int| 0 <= j < gws.len() ==> at_boundaries(rs@, #[trigger] gws[j]),
            1 <= k <= ws@.len(),
            ps == match ps_upto(rs@, gws, k as int) { Some((x, y)) => Some((x as usize, y as usize)), None => None::<(usize, usize)> },
            enc == match enc_upto(rs@, gws, k as int) { Some((x, y)) => Some((x as usize, y as usize)), None => None::<(usize, usize)> },
            font == match font_upto(rs@, gws, k as int) { Some((x, y)) => Some((x as usize, y as usize)), None => None::<(usize, usize)> },
            ps matches Some((x, y)) ==> x <= y <= rs@.len() && ps_upto(rs@, gws, k as int) == Some((x as int, y as int)),
            enc matches Some((x, y)) ==> x <= y <= rs@.len() && enc_upto(rs@, gws, k as int) == Some((x as int, y as int)),
            font matches Some((x, y)) ==> x <= y <= rs@.len() && font_upto(rs@, gws, k as int) == Some((x as int, y as int)),
            extra@.map_values(|s: String| s@) == extra_upto(rs@, gws, k as int).map_values(text_at),
        decreases ws@.len() - k,
    {
        let (x, y) = ws[k];
        proof {
            lemma_valid_between(rs@, x as int, y as int);
        }
        let ghost old_extra = extra@.map_values(|s: String| s@);
        let ghost had_ps = ps is Some;
        match word_kind_exec(rs, x, y) {
            Kind::Font(p, q) => {
                font = Some((p, q));
            },
            Kind::Enc(p, q) => {
                enc = Some((p, q));
            },
            Kind::Dash => {
                extra.push(string_from_bytes_lossy(&rs[x..y]));
            },
            Kind::Other => {
                if ps.is_none() {
                    ps = Some((x, y));
                } else {
                    extra.push(string_from_bytes_lossy(&rs[x..y]));
                }
            },
        }
        proof {
            let prev = extra_upto(rs@, gws, k as int);
            let next = extra_upto(rs@, gws, k + 1);
            if next.len() == prev.len() + 1 {
                assert(next.map_values(text_at) =~= prev.map_values(text_at).push(text_at(gws[k as int])));
                assert(extra@.map_values(|s: String| s@) =~= old_extra.push(text_at(gws[k as int])));
            } else {
                assert(next == prev);
                assert(extra@.map_values(|s: String| s@) =~= old_extra);
            }
        }
        k = k + 1;
    }
    proof {
        if let Some((x, y)) = ps {
            lemma_valid_between(rs@, x as int, y as int);
        }
    }
    let ps_name = match ps {
        Some((x, y)) => string_from_bytes_lossy(&rs[x..y]),
        None => string_from_bytes_lossy(&rs[ws[0].0..ws[0].1]),
    };
    let qs = split_words(b, qlo, qhi);
    let sf: [u8; 9] = [83u8, 108u8, 97u8, 110u8, 116u8, 70u8, 111u8, 110u8, 116u8];
    let ef: [u8; 10] = [69u8, 120u8, 116u8, 101u8, 110u8, 100u8, 70u8, 111u8, 110u8, 116u8];
    assert(sf@ =~= slant_font());
    assert(ef@ =~= extend_font());
    let ghost gqs = words(b@, qlo as int, qhi as int);
    let slant = kw_value_exec(b, &qs, sf.as_slice(), Ghost(gqs));
    let extend = kw_value_exec(b, &qs, ef.as_slice(), Ghost(gqs));
    proof {
        lemma_kw_bounds(b@, gqs, gqs.len() as int, sf@);
        lemma_kw_bounds(b@, gqs, gqs.len() as int, ef@);
        if let Some((x, y)) = enc {
            lemma_valid_between(rs@, x as int, y as int);
        }
        if let Some((x, y)) = font {
            lemma_valid_between(rs@, x as int, y as int);
        }
        if let Some((x, y)) = slant {
            lemma_valid_between(b@, x as int, y as int);
        }
        if let Some((x, y)) = extend {
            lemma_valid_between(b@, x as int, y as int);
        }
    }
    let entry = MapEntry {
        tfm_name,
        ps_name,
        encoding_file: text_of(rs, enc),
        font_file: text_of(rs, font),
        slant: text_of(b, slant),
        extend: text_of(b, extend),
        extra,
    };
    proof {
        let m = pdftex_entry(b@, a as int, e as int).unwrap();
        assert(entry@.extra =~= m.extra);
    }
    Some(entry)
}

impl FontMap {
    pub fn new() -> (m: FontMap)
        ensures
            m.wf(),
            m@.0 == Map::<Seq<char>, MapEntryModel>::empty(),
            m@.1 == Map::<Seq<char>, KanjiModel>::empty(),
    {
        let m = FontMap { entries: Vec::new(), kanji: Vec::new() };
        assert(m.entries@.map_values(|e: MapEntry| e@) =~= Seq::<MapEntryModel>::empty());
        assert(m.kanji@.map_values(|e: KanjiMapEntry| e@) =~= Seq::<KanjiModel>::empty());
        m
    }

    fn put_entry(&mut self, e: MapEntry)
        requires
            old(self).wf(),
        ensures
            final(self).wf(),
            final(self)@.0 == old(self)@.0.insert(e@.tfm_name, e@),
            final(self)@.1 == old(self)@.1,
    {
        let ghost v = self.entries@.map_values(|x: MapEntry| x@);
        let mut i: usize = 0;
        while i < self.entries.len()
            invariant
                old(self).wf(),
                self.entries@ == old(self).entries@,
                self.kanji@ == old(self).kanji@,
                v == self.entries@.map_values(|x: MapEntry| x@),
                distinct_keys(v, entry_key()),
                i <= self.entries@.len(),
                forall|j: int| 0 <= j < i ==> (#[trigger] self.entries@[j]).tfm_name@ != e.tfm_name@,
            decreases self.entries@.len() - i,
        {
            if same_text(self.entries[i].tfm_name.as_str(), e.tfm_name.as_str()) {
                let ghost ev = e@;
                assert(v[i as int] == self.entries@[i as int]@);
                assert((entry_key())(v[i as int]) == (entry_key())(ev));
                self.entries[i] = e;
                proof {
                    assert(self.entries@.map_values(|x: MapEntry| x@) =~= v.update(i as int, ev));
                    lemma_keyed_update(v, entry_key(), i as int, ev);
                }
                return;
            }
            i = i + 1;
        }
        let ghost ev = e@;
        self.entries.push(e);
        proof {
            assert(self.entries@.map_values(|x: MapEntry| x@) =~= v.push(ev));
            assert forall|j: int| 0 <= j < v.len() implies (entry_key())(#[trigger] v[j]) != (entry_key())(ev) by {
                assert(v[j] == old(self).entries@[j]@);
            }
            lemma_keyed_push(v, entry_key(), ev);
        }
    }

    fn put_kanji(&mut self, e: KanjiMapEntry)
        requires
            old(self).wf(),
        ensures
            final(self).wf(),
            final(self)@.1 == old(self)@.1.insert(e@.0, e@),
            final(self)@.0 == old(self)@.0,
    {
        let ghost v = self.kanji@.map_values(|x: KanjiMapEntry| x@);
        let mut i: usize = 0;
        while i < self.kanji.len()
            invariant
                old(self).wf(),
                self.entries@ == old(self).entries@,
                self.kanji@ == old(self).kanji@,
                v == self.kanji@.map_values(|x: KanjiMapEntry| x@),
                distinct_keys(v, kanji_key()),
                i <= self.kanji@.len(),
                forall|j: int| 0 <= j < i ==> (#[trigger] self.kanji@[j]).tfm_name@ != e.tfm_name@,
            decreases self.kanji@.len() - i,
        {
            if same_text(self.kanji[i].tfm_name.as_str(), e.tfm_name.as_str()) {
                let ghost ev = e@;
                assert(v[i as int] == self.kanji@[i as int]@);
                assert((kanji_key())(v[i as int]) == (kanji_key())(ev));
                self.kanji[i] = e;
                proof {
                    assert(self.kanji@.map_values(|x: KanjiMapEntry| x@) =~= v.update(i as int, ev));
                    lemma_keyed_update(v, kanji_key(), i as int, ev);
                }
                return;
            }
            i = i + 1;
        }
        let ghost ev = e@;
        self.kanji.push(e);
        proof {
            assert(self.kanji@.map_values(|x: KanjiMapEntry| x@) =~= v.push(ev));
            assert forall|j: int| 0 <= j < v.len() implies (kanji_key())(#[trigger] v[j]) != (kanji_key())(ev) by {
                assert(v[j] == old(self).kanji@[j]@);
            }
            lemma_keyed_push(v, kanji_key(), ev);
        }
    }

    /// Reads more of a `pdftex.map` file: every entry it gives goes in, a
    /// later line for the same TFM name replacing the earlier entry.
    pub fn add_pdftex_map(&mut self, text: &str)
        requires
            old(self).wf(),
        ensures
            final(self).wf(),
            final(self)@.0 == insert_all(old(self)@.0,
                pdftex_entries(text.spec_bytes(), lines_from(text.spec_bytes(), 0).len() as int), entry_key()),
            final(self)@.1 == old(self)@.1,
    {
        let b = text.as_bytes();
        let lines = split_lines(b);
        let ghost ls = lines_from(b@, 0);
        proof {
            encode_utf8_valid_utf8(text@);
            lemma_start(b@);
            lemma_lines_boundaries(b@, 0);
        }
        let mut k: usize = 0;
        while k < lines.len()
            invariant
                b@ == text.spec_bytes(),
                valid_utf8(b@),
                forall|j: int| 0 <= j < ls.len() ==>
                    at_boundary(b@, (#[trigger] ls[j]).0) && at_boundary(b@, ls[j].1) && 0 <= ls[j].0 <= ls[j].1 <= b@.len(),
                ls == lines_from(b@, 0),
                lines@.len() == ls.len(),
                forall|j: int| 0 <= j < lines@.len() ==>
                    (#[trigger] lines@[j]).0 == ls[j].0 && lines@[j].1 == ls[j].1,
                forall|j: int| 0 <= j < lines@.len() ==> (#[trigger] lines@[j]).0 <= lines@[j].1 <= b@.len(),
                k <= lines@.len(),
                self.wf(),
                self@.0 == insert_all(old(self)@.0, pdftex_entries(b@, k as int), entry_key()),
                self@.1 == old(self)@.1,
            decreases lines@.len() - k,
        {
            let (lo, hi) = lines[k];
            let (a, e) = trim_range(b, lo, hi);
            let ghost prev = pdftex_entries(b@, k as int);
            assert(trimmed(b@, ls[k as int]) == (a as int, e as int));
            proof {
                lemma_trimmed_words_valid(b@, ls[k as int].0, ls[k as int].1);
                crate::scan::lemma_skip_ws(b@, ls[k as int].0, ls[k as int].1);
                crate::scan::lemma_trim_end(b@, a as int, ls[k as int].1);
            }
            if !(a >= e || b[a] == 37 || b[a] == 35) {
                match parse_pdftex_line(b, a, e) {
                    Some(entry) => {
                        let ghost m = entry@;
                        self.put_entry(entry);
                        proof {
                            assert(pdftex_entries(b@, k + 1) == prev.push(m));
                            assert(prev.push(m).drop_last() =~= prev);
                        }
                    },
                    None => {},
                }
            }
            k = k + 1;
        }
    }

    /// Reads more of a `kanjix.map` file: each line with three words gives
    /// an entry, a later line for the same TFM name replacing the earlier one.
    pub fn add_kanji_map(&mut self, text: &str)
        requires
            old(self).wf(),
        ensures
            final(self).wf(),
            final(self)@.1 == insert_all(old(self)@.1,
                kanji_entries(text.spec_bytes(), lines_from(text.spec_bytes(), 0).len() as int), kanji_key()),
            final(self)@.0 == old(self)@.0,
    {
        let b = text.as_bytes();
        let lines = split_lines(b);
        let ghost ls = lines_from(b@, 0);
        proof {
            encode_utf8_valid_utf8(text@);
            lemma_start(b@);
            lemma_lines_boundaries(b@, 0);
        }
        let mut k: usize = 0;
        while k < lines.len()
            invariant
                b@ == text.spec_bytes(),
                valid_utf8(b@),
                forall|j: int| 0 <= j < ls.len() ==>
                    at_boundary(b@, (#[trigger] ls[j]).0) && at_boundary(b@, ls[j].1) && 0 <= ls[j].0 <= ls[j].1 <= b@.len(),
                ls == lines_from(b@, 0),
                lines@.len() == ls.len(),
                forall|j: int| 0 <= j < lines@.len() ==>
                    (#[trigger] lines@[j]).0 == ls[j].0 && lines@[j].1 == ls[j].1,
                forall|j: int| 0 <= j < lines@.len() ==> (#[trigger] lines@[j]).0 <= lines@[j].1 <= b@.len(),
                k <= lines@.len(),
                self.wf(),
                self@.1 == insert_all(old(self)@.1, kanji_entries(b@, k as int), kanji_key()),
                self@.0 == old(self)@.0,
            decreases lines@.len() - k,
        {
            let (lo, hi) = lines[k];
            let (a, e) = trim_range(b, lo, hi);
            let ghost prev = kanji_entries(b@, k as int);
            assert(trimmed(b@, ls[k as int]) == (a as int, e as int));
            if !(a >= e || b[a] == 37 || b[a] == 35) {
                let ws = split_words(b, a, e);
                if ws.len() >= 3 {
                    proof {
                        lemma_trimmed_words_valid(b@, ls[k as int].0, ls[k as int].1);
                        let wv = words(b@, a as int, e as int);
                        assert(valid_utf8(b@.subrange(wv[0].0, wv[0].1)));
                        assert(valid_utf8(b@.subrange(wv[1].0, wv[1].1)));
                        assert(valid_utf8(b@.subrange(wv[2].0, wv[2].1)));
                    }
                    let entry = KanjiMapEntry {
                        tfm_name: string_from_bytes_lossy(&b[ws[0].0..ws[0].1]),
                        cmap: string_from_bytes_lossy(&b[ws[1].0..ws[1].1]),
                        font_file: string_from_bytes_lossy(&b[ws[2].0..ws[2].1]),
                    };
                    let ghost m = entry@;
                    self.put_kanji(entry);
                    proof {
                        assert(kanji_entries(b@, k + 1) == prev.push(m));
                        assert(prev.push(m).drop_last() =~= prev);
                    }
                }
            }
            k = k + 1;
        }
    }

    /// The entry for a TFM name.
    pub fn get(&self, tfm_name: &str) -> (r: Option<&MapEntry>)
        requires
            self.wf(),
        ensures
            match r {
                Some(e) => self@.0.contains_key(tfm_name@) && self@.0[tfm_name@] == e@,
                None => !self@.0.contains_key(tfm_name@),
            },
    {
        let ghost v = self.entries@.map_values(|x: MapEntry| x@);
        let mut i: usize = 0;
        while i < self.entries.len()
            invariant
                self.wf(),
                v == self.entries@.map_values(|x: MapEntry| x@),
                i <= self.entries@.len(),
                forall|j: int| 0 <= j < i ==> (#[trigger] self.entries@[j]).tfm_name@ != tfm_name@,
            decreases self.entries@.len() - i,
        {
            if same_text(self.entries[i].tfm_name.as_str(), tfm_name) {
                assert(v[i as int] == self.entries@[i as int]@);
                assert((entry_key())(v[i as int]) == tfm_name@);
                proof {
                    lemma_keyed_lookup(v, entry_key(), tfm_name@);
                }
                return Some(&self.entries[i]);
            }
            i = i + 1;
        }
        proof {
            assert forall|j: int| 0 <= j < v.len() implies (entry_key())(#[trigger] v[j]) != tfm_name@ by {
                assert(v[j] == self.entries@[j]@);
            }
            lemma_keyed_lookup(v, entry_key(), tfm_name@);
        }
        None
    }

    /// The `kanjix.map` entry for a TFM name.
    pub fn get_kanji(&self, tfm_name: &str) -> (r: Option<&KanjiMapEntry>)
        requires
            self.wf(),
        ensures
            match r {
                Some(e) => self@.1.contains_key(tfm_name@) && self@.1[tfm_name@] == e@,
                None => !self@.1.contains_key(tfm_name@),
            },
    {
        let ghost v = self.kanji@.map_values(|x: KanjiMapEntry| x@);
        let mut i: usize = 0;
        while i < self.kanji.len()
            invariant
                self.wf(),
                v == self.kanji@.map_values(|x: KanjiMapEntry| x@),
                i <= self.kanji@.len(),
                forall|j: int| 0 <= j < i ==> (#[trigger] self.kanji@[j]).tfm_name@ != tfm_name@,
            decreases self.kanji@.len() - i,
        {
            if same_text(self.kanji[i].tfm_name.as_str(), tfm_name) {
                assert(v[i as int] == self.kanji@[i as int]@);
                assert((kanji_key())(v[i as int]) == tfm_name@);
                proof {
                    lemma_keyed_lookup(v, kanji_key(), tfm_name@);
                }
                return Some(&self.kanji[i]);
            }
            i = i + 1;
        }
        proof {
            assert forall|j: int| 0 <= j < v.len() implies (kanji_key())(#[trigger] v[j]) != tfm_name@ by {
                assert(v[j] == self.kanji@[j]@);
            }
            lemma_keyed_lookup(v, kanji_key(), tfm_name@);
        }
        None
    }
}

impl Default for FontMap {
    fn default() -> (m: FontMap)
        ensures
            m.wf(),
            m@.0 == Map::<Seq<char>, MapEntryModel>::empty(),
            m@.1 == Map::<Seq<char>, KanjiModel>::empty(),
    {
        FontMap::new()
    }
}

} // verus!

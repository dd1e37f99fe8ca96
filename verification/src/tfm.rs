//! TFM (TeX font metric) files, after tex.web §539–§575 and tftopl.web.

use vstd::prelude::*;
use crate::fix::Fix;
use crate::message::{decimal, push_decimal, string_push_str, text_num, text_num2};
use crate::reader::{bcpl, bcpl_bytes, err, fix_at, is_error, msg_unexpected_end, ParseError, Reader};
use crate::text::{be16, be32, utf8_lossy};
use crate::words::{be16_at, be32_at, fix_table, fix_word_at};

verus! {

/// The dimensions and extra information of a character (tex.web §543).
#[derive(Debug, Clone, Copy, PartialEq, Eq, Structural)]
pub struct CharInfo {
    pub width: Fix,
    pub height: Fix,
    pub depth: Fix,
    pub italic: Fix,
    pub tag: Tag,
}

/// The tag of a `char_info` word (§544).
#[derive(Debug, Clone, Copy, PartialEq, Eq, Structural)]
pub enum Tag {
    /// No extra information.
    NoTag,
    /// Start of the character's lig/kern program (an index into `lig_kern`).
    LigKern(usize),
    /// The next larger character (`char_list`).
    Larger(u8),
    /// An extensible character (an index into `exten`).
    Extensible(usize),
}

/// One lig/kern instruction (§545).
#[derive(Debug, Clone, Copy, PartialEq, Eq, Structural)]
pub struct LigKernStep {
    pub skip: u8,
    pub next_char: u8,
    pub op: LigKernOp,
}

#[derive(Debug, Clone, Copy, PartialEq, Eq, Structural)]
pub enum LigKernOp {
    /// A kern (an index into the `kern` table).
    Kern(usize),
    /// A ligature: the `op_byte` (0..=11) and the character it inserts.
    Lig { op: u8, char: u8 },
}

/// An extensible recipe (§546); 0 means "absent".
#[derive(Debug, Clone, Copy, PartialEq, Eq, Structural)]
pub struct Extensible {
    pub top: u8,
    pub mid: u8,
    pub bot: u8,
    pub rep: u8,
}

#[derive(Debug, Clone, PartialEq)]
pub struct Tfm {
    pub checksum: u32,
    /// The design size in points (a fix_word times 1pt).
    pub design_size: Fix,
    pub coding_scheme: String,
    pub family: String,
    pub face: Option<u8>,
    pub first_char: u16,
    pub last_char: u16,
    /// Code - first_char -> dimensions; `None` where the width index is 0.
    pub chars: Vec<Option<CharInfo>>,
    pub lig_kern: Vec<LigKernStep>,
    pub kern: Vec<Fix>,
    pub exten: Vec<Extensible>,
    /// `fontdimen` values; params[0] is the slant.
    pub params: Vec<Fix>,
    /// The right boundary character (§545, when `lig_kern[0].skip == 255`).
    pub right_boundary: Option<u8>,
    /// Where the left boundary's lig/kern program starts.
    pub left_boundary_program: Option<usize>,
}

// ---------- the file layout ----------

/// The k-th 16-bit word of the header (lf, lh, bc, ec, nw, nh, nd, ni, nl, nk, ne, np).
pub open spec fn hw(d: Seq<u8>, k: int) -> int {
    be16(d, 2 * k)
}

pub open spec fn tfm_lf(d: Seq<u8>) -> int { hw(d, 0) }
pub open spec fn tfm_lh(d: Seq<u8>) -> int { hw(d, 1) }
pub open spec fn tfm_bc(d: Seq<u8>) -> int { hw(d, 2) }
pub open spec fn tfm_ec(d: Seq<u8>) -> int { hw(d, 3) }
pub open spec fn tfm_nw(d: Seq<u8>) -> int { hw(d, 4) }
pub open spec fn tfm_nh(d: Seq<u8>) -> int { hw(d, 5) }
pub open spec fn tfm_nd(d: Seq<u8>) -> int { hw(d, 6) }
pub open spec fn tfm_ni(d: Seq<u8>) -> int { hw(d, 7) }
pub open spec fn tfm_nl(d: Seq<u8>) -> int { hw(d, 8) }
pub open spec fn tfm_nk(d: Seq<u8>) -> int { hw(d, 9) }
pub open spec fn tfm_ne(d: Seq<u8>) -> int { hw(d, 10) }
pub open spec fn tfm_np(d: Seq<u8>) -> int { hw(d, 11) }

/// The number of characters, `ec - bc + 1` (0 when `bc = ec + 1`).
pub open spec fn tfm_nc(d: Seq<u8>) -> int {
    if tfm_bc(d) > tfm_ec(d) { 0 } else { tfm_ec(d) - tfm_bc(d) + 1 }
}

pub open spec fn tfm_char_base(d: Seq<u8>) -> int { 24 + 4 * tfm_lh(d) }
pub open spec fn tfm_width_base(d: Seq<u8>) -> int { tfm_char_base(d) + 4 * tfm_nc(d) }
pub open spec fn tfm_height_base(d: Seq<u8>) -> int { tfm_width_base(d) + 4 * tfm_nw(d) }
pub open spec fn tfm_depth_base(d: Seq<u8>) -> int { tfm_height_base(d) + 4 * tfm_nh(d) }
pub open spec fn tfm_italic_base(d: Seq<u8>) -> int { tfm_depth_base(d) + 4 * tfm_nd(d) }
pub open spec fn tfm_lig_base(d: Seq<u8>) -> int { tfm_italic_base(d) + 4 * tfm_ni(d) }
pub open spec fn tfm_kern_base(d: Seq<u8>) -> int { tfm_lig_base(d) + 4 * tfm_nl(d) }
pub open spec fn tfm_exten_base(d: Seq<u8>) -> int { tfm_kern_base(d) + 4 * tfm_nk(d) }
pub open spec fn tfm_param_base(d: Seq<u8>) -> int { tfm_exten_base(d) + 4 * tfm_ne(d) }

/// The lig/kern instruction `i`.
pub open spec fn lk_step(d: Seq<u8>, i: int) -> LigKernStep {
    let p = tfm_lig_base(d) + 4 * i;
    LigKernStep {
        skip: d[p],
        next_char: d[p + 1],
        op: if d[p + 2] >= 128 {
            LigKernOp::Kern((256 * (d[p + 2] - 128) + d[p + 3]) as usize)
        } else {
            LigKernOp::Lig { op: d[p + 2], char: d[p + 3] }
        },
    }
}

/// Instruction `i` names a kern beyond the kern table.
pub open spec fn lk_kern_out_of_range(d: Seq<u8>, i: int) -> bool {
    lk_step(d, i).op matches LigKernOp::Kern(k) && k >= tfm_nk(d)
}

/// The kern index of lig/kern instruction `i` (meaningful for a kern).
pub open spec fn lk_kern_index(d: Seq<u8>, i: int) -> int {
    256 * (d[tfm_lig_base(d) + 4 * i + 2] - 128) + d[tfm_lig_base(d) + 4 * i + 3]
}

/// The first lig/kern instruction from `i` on that names a kern beyond the
/// kern table.
pub open spec fn bad_kern_from(d: Seq<u8>, i: int) -> Option<int>
    decreases tfm_nl(d) - i,
{
    if i < 0 || i >= tfm_nl(d) {
        None
    } else if lk_kern_out_of_range(d, i) {
        Some(i)
    } else {
        bad_kern_from(d, i + 1)
    }
}

proof fn lemma_bad_kern_none(d: Seq<u8>, i: int, j: int)
    requires
        0 <= i <= j < tfm_nl(d),
        bad_kern_from(d, i) is None,
    ensures
        !lk_kern_out_of_range(d, j),
    decreases j - i,
{
    if i < j {
        lemma_bad_kern_none(d, i + 1, j);
    }
}

/// `char <c> <table> index <i> out of range`.
pub open spec fn char_message(c: int, table: Seq<char>, i: int) -> Seq<char> {
    "char "@ + decimal(c as nat) + " "@ + table + " index "@ + decimal(i as nat) + " out of range"@
}

/// Byte `j` of the char_info word of the k-th character.
pub open spec fn cb(d: Seq<u8>, k: int, j: int) -> u8 {
    d[tfm_char_base(d) + 4 * k + j]
}

/// Where the lig/kern program of a tag-1 character starts: the remainder,
/// redirected when the instruction there has a skip byte above 128.
pub open spec fn lk_start(d: Seq<u8>, rem: int) -> int {
    if rem < tfm_nl(d) && d[tfm_lig_base(d) + 4 * rem] > 128 {
        256 * d[tfm_lig_base(d) + 4 * rem + 2] + d[tfm_lig_base(d) + 4 * rem + 3]
    } else {
        rem
    }
}

pub open spec fn char_tag(d: Seq<u8>, k: int) -> Tag {
    let rem = cb(d, k, 3);
    match cb(d, k, 2) & 3 {
        0 => Tag::NoTag,
        1 => Tag::LigKern(lk_start(d, rem as int) as usize),
        2 => Tag::Larger(rem),
        _ => Tag::Extensible(rem as usize),
    }
}

/// What is wrong with the k-th character's char_info word, if anything.
pub open spec fn char_error(d: Seq<u8>, k: int) -> Option<Seq<char>> {
    let wi = cb(d, k, 0) as int;
    let hi = (cb(d, k, 1) >> 4) as int;
    let di = (cb(d, k, 1) & 15) as int;
    let ii = (cb(d, k, 2) >> 2) as int;
    let tag = cb(d, k, 2) & 3;
    if wi == 0 {
        None
    } else if tag == 1 && lk_start(d, cb(d, k, 3) as int) >= tfm_nl(d) {
        Some("char "@ + decimal((tfm_bc(d) + k) as nat) + " lig_kern start "@
            + decimal(lk_start(d, cb(d, k, 3) as int) as nat) + " out of range"@)
    } else if tag == 3 && cb(d, k, 3) >= tfm_ne(d) {
        Some("char "@ + decimal((tfm_bc(d) + k) as nat) + " exten index out of range"@)
    } else if wi >= tfm_nw(d) {
        Some(char_message(tfm_bc(d) + k, "width"@, wi))
    } else if hi >= tfm_nh(d) {
        Some(char_message(tfm_bc(d) + k, "height"@, hi))
    } else if di >= tfm_nd(d) {
        Some(char_message(tfm_bc(d) + k, "depth"@, di))
    } else if ii >= tfm_ni(d) {
        Some(char_message(tfm_bc(d) + k, "italic"@, ii))
    } else {
        None
    }
}

/// The first error among the first `n` characters.
pub open spec fn chars_error(d: Seq<u8>, n: int) -> Option<Seq<char>>
    decreases n,
{
    if n <= 0 {
        None
    } else {
        match chars_error(d, n - 1) {
            Some(m) => Some(m),
            None => char_error(d, n - 1),
        }
    }
}

proof fn lemma_parsed_is_wf(t: Tfm, d: Seq<u8>)
    requires
        tfm_check(d) is None,
        tfm_matches(t, d),
    ensures
        t.wf(),
{
    assert forall|k: int| 0 <= k < t.chars@.len() implies
        ((#[trigger] t.chars@[k]) matches Some(c) ==> match c.tag {
            Tag::LigKern(s) => s < t.lig_kern@.len(),
            Tag::Extensible(e) => e < t.exten@.len(),
            _ => true,
        }) by {
        lemma_chars_error_none(d, tfm_nc(d), k);
        let b: u8 = cb(d, k, 2);
        assert(b & 3 < 4) by (bit_vector);
    }
    assert forall|i: int| 0 <= i < t.lig_kern@.len() implies
        ((#[trigger] t.lig_kern@[i]).op matches LigKernOp::Kern(k) ==> k < t.kern@.len()) by {
        lemma_bad_kern_none(d, 0, i);
    }
}

proof fn lemma_chars_error_none(d: Seq<u8>, n: int, k: int)
    requires
        0 <= k < n,
        chars_error(d, n) is None,
    ensures
        char_error(d, k) is None,
    decreases n - k,
{
    if k < n - 1 {
        lemma_chars_error_none(d, n - 1, k);
    }
}

proof fn lemma_chars_error_stays(d: Seq<u8>, m: int, n: int)
    requires
        0 <= m <= n,
        chars_error(d, m) is Some,
    ensures
        chars_error(d, n) == chars_error(d, m),
    decreases n - m,
{
    if n > m {
        lemma_chars_error_stays(d, m, n - 1);
    }
}

/// The k-th character's entry: `None` when its width index is 0.
pub open spec fn char_entry(d: Seq<u8>, k: int) -> Option<CharInfo> {
    if cb(d, k, 0) == 0 {
        None
    } else {
        Some(CharInfo {
            width: fix_at(d, tfm_width_base(d) + 4 * cb(d, k, 0)),
            height: fix_at(d, tfm_height_base(d) + 4 * (cb(d, k, 1) >> 4)),
            depth: fix_at(d, tfm_depth_base(d) + 4 * (cb(d, k, 1) & 15)),
            italic: fix_at(d, tfm_italic_base(d) + 4 * (cb(d, k, 2) >> 2)),
            tag: char_tag(d, k),
        })
    }
}

pub open spec fn sum_of_sizes(d: Seq<u8>) -> int {
    6 + tfm_lh(d) + tfm_nc(d) + tfm_nw(d) + tfm_nh(d) + tfm_nd(d) + tfm_ni(d) + tfm_nl(d) + tfm_nk(d) + tfm_ne(d) + tfm_np(d)
}

/// The first check that `d` fails, as (offset, message); `None` for a
/// well-formed TFM file.
pub open spec fn tfm_check(d: Seq<u8>) -> Option<(int, Seq<char>)> {
    if d.len() < 24 {
        Some((d.len() as int, msg_unexpected_end()))
    } else if !(tfm_bc(d) <= tfm_ec(d) + 1 && tfm_ec(d) < 256) {
        Some((4, "bad bc/ec: "@ + decimal(tfm_bc(d) as nat) + "/"@ + decimal(tfm_ec(d) as nat)))
    } else if tfm_lf(d) != sum_of_sizes(d) {
        Some((0, "file length does not match the subfile lengths"@))
    } else if tfm_lf(d) * 4 != d.len() {
        Some((0, "file is "@ + decimal(d.len()) + " bytes but lf says "@ + decimal((tfm_lf(d) * 4) as nat)))
    } else if tfm_lh(d) < 2 || tfm_nw(d) == 0 || tfm_nh(d) == 0 || tfm_nd(d) == 0 || tfm_ni(d) == 0 {
        Some((2, "header or dimension tables too short"@))
    } else if bad_kern_from(d, 0) is Some {
        let i = bad_kern_from(d, 0)->Some_0;
        Some((0, "lig_kern["@ + decimal(i as nat) + "] refers to kern "@ + decimal(lk_kern_index(d, i) as nat)
            + " out of "@ + decimal(tfm_nk(d) as nat)))
    } else if chars_error(d, tfm_nc(d)) is Some {
        Some((0, chars_error(d, tfm_nc(d))->Some_0))
    } else {
        None
    }
}

pub open spec fn min(a: int, b: int) -> int {
    if a < b { a } else { b }
}

/// `t` holds what the well-formed TFM file `d` says.
pub open spec fn tfm_matches(t: Tfm, d: Seq<u8>) -> bool {
    &&& t.checksum == be32(d, 24)
    &&& t.design_size == fix_at(d, 28)
    &&& t.coding_scheme@ == if tfm_lh(d) > 2 {
        utf8_lossy(bcpl_bytes(d.subrange(32, 24 + min(48, 4 * tfm_lh(d)))))
    } else {
        Seq::empty()
    }
    &&& t.family@ == if tfm_lh(d) > 12 {
        utf8_lossy(bcpl_bytes(d.subrange(72, 24 + min(68, 4 * tfm_lh(d)))))
    } else {
        Seq::empty()
    }
    &&& t.face == if tfm_lh(d) > 17 { Some(d[95]) } else { None }
    &&& t.first_char == tfm_bc(d)
    &&& t.last_char == tfm_ec(d)
    &&& t.chars@.len() == tfm_nc(d)
    &&& forall|k: int| 0 <= k < tfm_nc(d) ==> #[trigger] t.chars@[k] == char_entry(d, k)
    &&& t.lig_kern@.len() == tfm_nl(d)
    &&& forall|i: int| 0 <= i < tfm_nl(d) ==> #[trigger] t.lig_kern@[i] == lk_step(d, i)
    &&& t.kern@.len() == tfm_nk(d)
    &&& forall|i: int| 0 <= i < tfm_nk(d) ==> #[trigger] t.kern@[i] == fix_at(d, tfm_kern_base(d) + 4 * i)
    &&& t.exten@.len() == tfm_ne(d)
    &&& forall|i: int| 0 <= i < tfm_ne(d) ==> #[trigger] t.exten@[i] == (Extensible {
        top: d[tfm_exten_base(d) + 4 * i],
        mid: d[tfm_exten_base(d) + 4 * i + 1],
        bot: d[tfm_exten_base(d) + 4 * i + 2],
        rep: d[tfm_exten_base(d) + 4 * i + 3],
    })
    &&& t.params@.len() == tfm_np(d)
    &&& forall|i: int| 0 <= i < tfm_np(d) ==> #[trigger] t.params@[i] == fix_at(d, tfm_param_base(d) + 4 * i)
    &&& t.right_boundary == if tfm_nl(d) > 0 && d[tfm_lig_base(d)] == 255 {
        Some(d[tfm_lig_base(d) + 1])
    } else {
        None
    }
    &&& t.left_boundary_program == if tfm_nl(d) > 0 && d[tfm_lig_base(d) + 4 * (tfm_nl(d) - 1)] == 255 {
        Some((256 * d[tfm_lig_base(d) + 4 * (tfm_nl(d) - 1) + 2] + d[tfm_lig_base(d) + 4 * (tfm_nl(d) - 1) + 3]) as usize)
    } else {
        None
    }
}

// ---------- reading ----------

struct Sizes {
    lf: usize,
    lh: usize,
    bc: usize,
    ec: usize,
    nw: usize,
    nh: usize,
    nd: usize,
    ni: usize,
    nl: usize,
    nk: usize,
    ne: usize,
    np: usize,
}

fn read_sizes(data: &[u8]) -> (res: Result<Sizes, ParseError>)
    ensures
        match res {
            Ok(s) => {
                &&& data@.len() >= 24
                &&& s.lf == tfm_lf(data@) && s.lh == tfm_lh(data@) && s.bc == tfm_bc(data@) && s.ec == tfm_ec(data@)
                &&& s.nw == tfm_nw(data@) && s.nh == tfm_nh(data@) && s.nd == tfm_nd(data@) && s.ni == tfm_ni(data@)
                &&& s.nl == tfm_nl(data@) && s.nk == tfm_nk(data@) && s.ne == tfm_ne(data@) && s.np == tfm_np(data@)
            },
            Err(e) => data@.len() < 24 && is_error(e, data@.len() as int, msg_unexpected_end()),
        },
{
    let mut r = Reader::new(data);
    let lf = r.u16()? as usize;
    let lh = r.u16()? as usize;
    let bc = r.u16()? as usize;
    let ec = r.u16()? as usize;
    let nw = r.u16()? as usize;
    let nh = r.u16()? as usize;
    let nd = r.u16()? as usize;
    let ni = r.u16()? as usize;
    let nl = r.u16()? as usize;
    let nk = r.u16()? as usize;
    let ne = r.u16()? as usize;
    let np = r.u16()? as usize;
    Ok(Sizes { lf, lh, bc, ec, nw, nh, nd, ni, nl, nk, ne, np })
}

fn lk_step_at(d: &[u8], p: usize) -> (s: LigKernStep)
    requires
        p + 4 <= d@.len(),
    ensures
        s == (LigKernStep {
            skip: d@[p as int],
            next_char: d@[p + 1],
            op: if d@[p + 2] >= 128 {
                LigKernOp::Kern((256 * (d@[p + 2] - 128) + d@[p + 3]) as usize)
            } else {
                LigKernOp::Lig { op: d@[p + 2], char: d@[p + 3] }
            },
        }),
{
    let dl = d.len();
    let op = if d[p + 2] >= 128 {
        LigKernOp::Kern(256 * (d[p + 2] as usize - 128) + d[p + 3] as usize)
    } else {
        LigKernOp::Lig { op: d[p + 2], char: d[p + 3] }
    };
    LigKernStep { skip: d[p], next_char: d[p + 1], op }
}

impl Tfm {
    /// Parses a TFM file. Fails exactly when `tfm_check` finds a fault, with
    /// that fault's offset and message.
    #[verifier::rlimit(60)]
    pub fn parse(data: &[u8]) -> (res: Result<Tfm, ParseError>)
        ensures
            match res {
                Ok(t) => tfm_check(data@) is None && tfm_matches(t, data@) && t.wf(),
                Err(e) => tfm_check(data@) == Some((e.offset as int, e.message@)),
            },
    {
        let ghost d = data@;
        let s = match read_sizes(data) {
            Ok(s) => s,
            Err(e) => return Err(e),
        };
        let (lf, lh, bc, ec) = (s.lf, s.lh, s.bc, s.ec);
        let (nw, nh, nd, ni, nl, nk, ne, np) = (s.nw, s.nh, s.nd, s.ni, s.nl, s.nk, s.ne, s.np);
        if !(bc <= ec + 1 && ec < 256) {
            let message = text_num2("bad bc/ec: ", bc as u64, "/", ec as u64, "");
            proof {
                reveal_strlit("");
                assert(message@ =~= "bad bc/ec: "@ + decimal(bc as nat) + "/"@ + decimal(ec as nat));
            }
            return Err(ParseError { offset: 4, message });
        }
        let nc = if bc > ec { 0 } else { ec - bc + 1 };
        if lf != 6 + lh + nc + nw + nh + nd + ni + nl + nk + ne + np {
            return Err(err(0, "file length does not match the subfile lengths"));
        }
        if lf * 4 != data.len() {
            let message = text_num2("file is ", data.len() as u64, " bytes but lf says ", (lf * 4) as u64, "");
            proof {
                reveal_strlit("");
                assert(message@ =~= "file is "@ + decimal(d.len()) + " bytes but lf says "@ + decimal((lf * 4) as nat));
            }
            return Err(ParseError { offset: 0, message });
        }
        if lh < 2 || nw == 0 || nh == 0 || nd == 0 || ni == 0 {
            return Err(err(2, "header or dimension tables too short"));
        }
        assert(layout_ok(d));
        let char_base = 24 + 4 * lh;
        let width_base = char_base + 4 * nc;
        let height_base = width_base + 4 * nw;
        let depth_base = height_base + 4 * nh;
        let italic_base = depth_base + 4 * nd;
        let lig_base = italic_base + 4 * ni;
        let kern_base = lig_base + 4 * nl;
        let exten_base = kern_base + 4 * nk;
        let param_base = exten_base + 4 * ne;
        assert(param_base + 4 * np == d.len());

        let header = &data[24..char_base];
        let checksum = be32_at(data, 24);
        let design_size = fix_word_at(data, 28);
        let coding_scheme = if lh > 2 {
            let end = if 48 < header.len() { 48 } else { header.len() };
            let b = &data[32..24 + end];
            bcpl(b)
        } else {
            String::new()
        };
        let family = if lh > 12 {
            let end = if 68 < header.len() { 68 } else { header.len() };
            let b = &data[72..24 + end];
            bcpl(b)
        } else {
            String::new()
        };
        let face = if lh > 17 { Some(data[95]) } else { None };

        let widths = fix_table(data, width_base, nw);
        let heights = fix_table(data, height_base, nh);
        let depths = fix_table(data, depth_base, nd);
        let italics = fix_table(data, italic_base, ni);
        let kern = fix_table(data, kern_base, nk);
        let params = fix_table(data, param_base, np);

        let mut lig_kern: Vec<LigKernStep> = Vec::with_capacity(nl);
        let mut i: usize = 0;
        while i < nl
            invariant
                d == data@,
                lig_base == tfm_lig_base(d),
                nl == tfm_nl(d),
                lig_base + 4 * nl <= d.len(),
                i <= nl,
                lig_kern@.len() == i,
                forall|j: int| 0 <= j < i ==> #[trigger] lig_kern@[j] == lk_step(d, j),
            decreases nl - i,
        {
            lig_kern.push(lk_step_at(data, lig_base + 4 * i));
            i = i + 1;
        }
        let mut i: usize = 0;
        while i < nl
            invariant
                d == data@,
                layout_ok(d),
                nl == tfm_nl(d),
                nk == tfm_nk(d),
                lig_kern@.len() == nl,
                forall|j: int| 0 <= j < nl ==> #[trigger] lig_kern@[j] == lk_step(d, j),
                i <= nl,
                bad_kern_from(d, 0) == bad_kern_from(d, i as int),
            decreases nl - i,
        {
            if let LigKernOp::Kern(k) = lig_kern[i].op {
                if k >= nk {
                    assert(lk_kern_out_of_range(d, i as int));
                    assert(k == lk_kern_index(d, i as int));
                    let mut message = text_num2("lig_kern[", i as u64, "] refers to kern ", k as u64, " out of ");
                    push_decimal(&mut message, nk as u64);
                    return Err(ParseError { offset: 0, message });
                }
            }
            i = i + 1;
        }

        let mut exten: Vec<Extensible> = Vec::with_capacity(ne);
        let mut i: usize = 0;
        while i < ne
            invariant
                d == data@,
                exten_base == tfm_exten_base(d),
                ne == tfm_ne(d),
                exten_base + 4 * ne <= d.len(),
                i <= ne,
                exten@.len() == i,
                forall|j: int| 0 <= j < i ==> #[trigger] exten@[j] == (Extensible {
                    top: d[tfm_exten_base(d) + 4 * j],
                    mid: d[tfm_exten_base(d) + 4 * j + 1],
                    bot: d[tfm_exten_base(d) + 4 * j + 2],
                    rep: d[tfm_exten_base(d) + 4 * j + 3],
                }),
            decreases ne - i,
        {
            let p = exten_base + 4 * i;
            exten.push(Extensible { top: data[p], mid: data[p + 1], bot: data[p + 2], rep: data[p + 3] });
            i = i + 1;
        }

        let right_boundary = if nl > 0 && data[lig_base] == 255 {
            Some(data[lig_base + 1])
        } else {
            None
        };
        let left_boundary_program = if nl > 0 && data[lig_base + 4 * (nl - 1)] == 255 {
            Some(256 * data[lig_base + 4 * (nl - 1) + 2] as usize + data[lig_base + 4 * (nl - 1) + 3] as usize)
        } else {
            None
        };

        let chars = match read_chars(data, &widths, &heights, &depths, &italics) {
            Ok(c) => c,
            Err(e) => return Err(e),
        };
        let t = Tfm {
            checksum,
            design_size,
            coding_scheme,
            family,
            face,
            first_char: bc as u16,
            last_char: ec as u16,
            chars,
            lig_kern,
            kern,
            exten,
            params,
            right_boundary,
            left_boundary_program,
        };
        proof {
            lemma_parsed_is_wf(t, d);
        }
        Ok(t)
    }
}

/// Runs a lig/kern program from instruction `i` with `right` as the next
/// character (tex.web §1040): the first instruction for `right` whose skip
/// byte is at most 128 gives the answer; a skip byte of 128 or more stops
/// the program; otherwise `skip + 1` instructions are passed over.
pub open spec fn run_program(steps: Seq<LigKernStep>, i: int, right: int) -> Option<LigKernOp>
    decreases steps.len() - i,
{
    if i < 0 || i >= steps.len() {
        None
    } else {
        let s = steps[i];
        if s.next_char == right && s.skip <= 128 {
            Some(s.op)
        } else if s.skip >= 128 {
            None
        } else if i + s.skip + 1 >= steps.len() {
            None
        } else {
            run_program(steps, i + s.skip + 1, right)
        }
    }
}

impl Tfm {
    /// The entry of character `code`: `None` outside `first_char..=last_char`.
    pub open spec fn char_at(self, code: int) -> Option<CharInfo> {
        if self.first_char <= code <= self.last_char && code - self.first_char < self.chars@.len() {
            self.chars@[code - self.first_char]
        } else {
            None
        }
    }

    /// The number of codes from `first_char` on that have a slot.
    pub open spec fn char_count(self) -> nat {
        self.chars@.len()
    }

    /// The characters that exist, with their codes, among the first `n` slots.
    pub open spec fn listed_chars(self, n: int) -> Seq<(u16, CharInfo)>
        decreases n,
    {
        if n <= 0 {
            Seq::empty()
        } else {
            let prev = self.listed_chars(n - 1);
            match self.chars@[n - 1] {
                Some(c) => prev.push(((self.first_char + n - 1) as u16, c)),
                None => prev,
            }
        }
    }

    /// Every lig/kern instruction names a kern that exists, every lig/kern
    /// tag starts inside the program and every extensible tag names a recipe.
    pub open spec fn wf(self) -> bool {
        &&& forall|i: int| 0 <= i < self.lig_kern@.len() ==>
            ((#[trigger] self.lig_kern@[i]).op matches LigKernOp::Kern(k) ==> k < self.kern@.len())
        &&& forall|k: int| 0 <= k < self.chars@.len() ==>
            ((#[trigger] self.chars@[k]) matches Some(c) ==> match c.tag {
                Tag::LigKern(s) => s < self.lig_kern@.len(),
                Tag::Extensible(e) => e < self.exten@.len(),
                _ => true,
            })
        &&& self.first_char + self.chars@.len() <= 256
    }

    /// The character's dimensions; `None` for a code without a character.
    pub fn char_info(&self, code: u16) -> (r: Option<&CharInfo>)
        ensures
            match r {
                Some(c) => self.char_at(code as int) == Some(*c),
                None => self.char_at(code as int) is None,
            },
    {
        if code < self.first_char || code > self.last_char {
            return None;
        }
        let i = (code - self.first_char) as usize;
        if i < self.chars.len() {
            match &self.chars[i] {
                Some(c) => Some(c),
                None => None,
            }
        } else {
            None
        }
    }

    /// The characters that exist, in code order, with their codes.
    pub fn chars(&self) -> (r: Vec<(u16, CharInfo)>)
        requires
            self.first_char + self.char_count() <= 65536,
        ensures
            r@ == self.listed_chars(self.char_count() as int),
    {
        let mut r: Vec<(u16, CharInfo)> = Vec::new();
        let mut i: usize = 0;
        while i < self.chars.len()
            invariant
                self.first_char + self.chars@.len() <= 65536,
                i <= self.chars@.len(),
                r@ == self.listed_chars(i as int),
            decreases self.chars@.len() - i,
        {
            if let Some(c) = self.chars[i] {
                r.push((self.first_char + i as u16, c));
            }
            i = i + 1;
        }
        r
    }

    /// `fontdimen n` (counted from 1); the slant (n = 1) is not scaled.
    pub fn fontdimen(&self, n: usize) -> (r: Option<Fix>)
        ensures
            r == if 1 <= n <= self.params@.len() { Some(self.params@[n - 1]) } else { None },
    {
        if n == 0 {
            return None;
        }
        if n - 1 < self.params.len() {
            Some(self.params[n - 1])
        } else {
            None
        }
    }

    /// Runs the lig/kern program of `left` with `right` as the next
    /// character: a ligature, a kern (an index into `kern`), or nothing.
    pub fn lig_kern_for(&self, left: u16, right: u16) -> (r: Option<LigKernOp>)
        ensures
            r == match self.char_at(left as int) {
                Some(c) => match c.tag {
                    Tag::LigKern(s) => if right < 256 {
                        run_program(self.lig_kern@, s as int, right as int)
                    } else {
                        None
                    },
                    _ => None,
                },
                None => None,
            },
    {
        let start = match self.char_info(left) {
            Some(c) => match c.tag {
                Tag::LigKern(s) => s,
                _ => return None,
            },
            None => return None,
        };
        self.run_lig_kern(start, right)
    }

    /// The lig/kern program of the left boundary (the start of a word).
    pub fn left_boundary_lig_kern(&self, right: u16) -> (r: Option<LigKernOp>)
        ensures
            r == match self.left_boundary_program {
                Some(s) => if right < 256 {
                    run_program(self.lig_kern@, s as int, right as int)
                } else {
                    None
                },
                None => None,
            },
    {
        match self.left_boundary_program {
            Some(s) => self.run_lig_kern(s, right),
            None => None,
        }
    }

    fn run_lig_kern(&self, start: usize, right: u16) -> (r: Option<LigKernOp>)
        ensures
            r == if right < 256 { run_program(self.lig_kern@, start as int, right as int) } else { None },
    {
        if right > 255 {
            return None;
        }
        let r8 = right as u8;
        let mut i = start;
        loop
            invariant
                r8 == right,
                run_program(self.lig_kern@, i as int, right as int)
                    == run_program(self.lig_kern@, start as int, right as int),
            decreases self.lig_kern@.len() - i,
        {
            if i >= self.lig_kern.len() {
                return None;
            }
            let s = self.lig_kern[i];
            if s.next_char == r8 && s.skip <= 128 {
                return Some(s.op);
            }
            if s.skip >= 128 {
                return None;
            }
            if s.skip as usize >= self.lig_kern.len() - i - 1 {
                return None;
            }
            i = i + s.skip as usize + 1;
        }
    }
}

/// A well-formed font never hands out a kern index outside the kern table:
/// whatever a lig/kern program run from a valid start yields as a kern
/// names an entry of `kern`.
pub proof fn law_program_kern_in_range(t: Tfm, start: int, right: int)
    requires
        t.wf(),
    ensures
        run_program(t.lig_kern@, start, right) matches Some(LigKernOp::Kern(k)) ==> k < t.kern@.len(),
    decreases t.lig_kern@.len() - start,
{
    if 0 <= start < t.lig_kern@.len() {
        let s = t.lig_kern@[start];
        if !(s.next_char == right && s.skip <= 128) && s.skip < 128 {
            if start + s.skip + 1 < t.lig_kern@.len() {
                law_program_kern_in_range(t, start + s.skip + 1, right);
            }
        }
    }
}

/// For a well-formed font, `lig_kern_for` only yields kerns that `kern` holds.
pub proof fn law_lig_kern_for_kern_in_range(t: Tfm, left: int, right: int)
    requires
        t.wf(),
    ensures
        (match t.char_at(left) {
            Some(c) => match c.tag {
                Tag::LigKern(s) => run_program(t.lig_kern@, s as int, right),
                _ => None,
            },
            None => None,
        }) matches Some(LigKernOp::Kern(k)) ==> k < t.kern@.len(),
{
    match t.char_at(left) {
        Some(c) => match c.tag {
            Tag::LigKern(s) => law_program_kern_in_range(t, s as int, right),
            _ => {},
        },
        None => {},
    }
}

/// A lig/kern program answers for `right` with the first instruction on its
/// skip chain that names `right` (and has a skip byte of at most 128): such
/// an instruction gives its operation; an instruction for another character
/// stops the program when its skip byte is 128 or more, and otherwise hands
/// over to the instruction `skip + 1` places further on.
pub proof fn law_program_step(steps: Seq<LigKernStep>, i: int, right: int)
    requires
        0 <= i < steps.len(),
    ensures
        steps[i].next_char == right && steps[i].skip <= 128 ==> run_program(steps, i, right) == Some(steps[i].op),
        steps[i].next_char != right && steps[i].skip >= 128 ==> run_program(steps, i, right) is None,
        steps[i].next_char != right && steps[i].skip < 128 && i + steps[i].skip + 1 < steps.len()
            ==> run_program(steps, i, right) == run_program(steps, i + steps[i].skip + 1, right),
{
}

/// An instruction that names `right` and is reached from `i` by passing over
/// instructions for other characters (each with a skip byte below 128) is
/// the one whose operation the program gives.
pub proof fn law_program_reaches(steps: Seq<LigKernStep>, chain: Seq<int>, right: int)
    requires
        chain.len() > 0,
        forall|m: int| 0 <= m < chain.len() ==> 0 <= #[trigger] chain[m] < steps.len(),
        forall|m: int| 0 <= m < chain.len() - 1 ==>
            steps[#[trigger] chain[m]].next_char != right && steps[chain[m]].skip < 128
            && chain[m + 1] == chain[m] + steps[chain[m]].skip + 1,
        steps[chain.last()].next_char == right,
        steps[chain.last()].skip <= 128,
    ensures
        run_program(steps, chain[0], right) == Some(steps[chain.last()].op),
    decreases chain.len(),
{
    if chain.len() > 1 {
        let rest = chain.drop_first();
        assert(steps[chain[0]].next_char != right);
        assert(chain[1] == chain[0] + steps[chain[0]].skip + 1);
        assert forall|m: int| 0 <= m < rest.len() - 1 implies
            steps[#[trigger] rest[m]].next_char != right && steps[rest[m]].skip < 128
            && rest[m + 1] == rest[m] + steps[rest[m]].skip + 1 by {
            assert(rest[m] == chain[m + 1]);
            assert(rest[m + 1] == chain[m + 2]);
        }
        law_program_reaches(steps, rest, right);
        assert(rest.last() == chain.last());
        assert(0 <= chain[1] < steps.len());
    }
}

proof fn lemma_nibbles(x: u8)
    ensures
        (x >> 4) as int == x as int / 16,
        (x & 15) as int == x as int % 16,
        (x >> 2) as int == x as int / 4,
        (x & 3) as int == x as int % 4,
{
    assert((x >> 4) as int == x as int / 16) by (bit_vector);
    assert((x & 15) as int == x as int % 16) by (bit_vector);
    assert((x >> 2) as int == x as int / 4) by (bit_vector);
    assert((x & 3) as int == x as int % 4) by (bit_vector);
}

/// The k-th character of a parsed TFM file takes its dimensions from its
/// own char_info word `w` (tex.web §543): the width from the width table at
/// byte 0 of `w`, the height from the height table at the high half of byte
/// 1, the depth from the depth table at the low half of byte 1, the italic
/// correction from the italic table at the high six bits of byte 2; the
/// character is absent exactly when byte 0 is 0. Its tag comes from the low
/// two bits of byte 2, with byte 3 as the remainder.
pub proof fn law_char_dimensions(t: Tfm, d: Seq<u8>, k: int)
    requires
        tfm_check(d) is None,
        tfm_matches(t, d),
        0 <= k < t.chars@.len(),
    ensures
        ({
            let w = 24 + 4 * hw(d, 1) + 4 * k;
            &&& (t.chars@[k] is None <==> d[w] == 0)
            &&& (t.chars@[k] matches Some(c) ==> {
                &&& c.width == fix_at(d, tfm_width_base(d) + 4 * d[w])
                &&& c.height == fix_at(d, tfm_height_base(d) + 4 * (d[w + 1] / 16))
                &&& c.depth == fix_at(d, tfm_depth_base(d) + 4 * (d[w + 1] % 16))
                &&& c.italic == fix_at(d, tfm_italic_base(d) + 4 * (d[w + 2] / 4))
                &&& (d[w + 2] % 4 == 0 <==> c.tag == Tag::NoTag)
                &&& (d[w + 2] % 4 == 2 <==> c.tag == Tag::Larger(d[w + 3]))
                &&& (d[w + 2] % 4 == 3 <==> c.tag == Tag::Extensible(d[w + 3] as usize))
                &&& (d[w + 2] % 4 == 1 <==> c.tag is LigKern)
                &&& (d[w + 2] % 4 == 1 ==> c.tag == Tag::LigKern((
                    if d[w + 3] < hw(d, 8) && d[tfm_lig_base(d) + 4 * d[w + 3]] > 128 {
                        256 * d[tfm_lig_base(d) + 4 * d[w + 3] + 2] + d[tfm_lig_base(d) + 4 * d[w + 3] + 3]
                    } else {
                        d[w + 3] as int
                    }) as usize))
            })
        }),
{
    let w = 24 + 4 * hw(d, 1) + 4 * k;
    assert(t.chars@[k] == char_entry(d, k));
    lemma_nibbles(d[w + 1]);
    lemma_nibbles(d[w + 2]);
}

/// Each lig/kern instruction of a parsed TFM file is its four bytes: the
/// skip byte, the next character, and an operation that is a kern (index
/// `256 * (op - 128) + remainder`) when the op byte is 128 or more and a
/// ligature otherwise.
pub proof fn law_lig_kern_steps(t: Tfm, d: Seq<u8>, i: int)
    requires
        tfm_check(d) is None,
        tfm_matches(t, d),
        0 <= i < t.lig_kern@.len(),
    ensures
        ({
            let p = tfm_lig_base(d) + 4 * i;
            &&& t.lig_kern@[i].skip == d[p]
            &&& t.lig_kern@[i].next_char == d[p + 1]
            &&& (d[p + 2] >= 128 ==> t.lig_kern@[i].op == LigKernOp::Kern((256 * (d[p + 2] - 128) + d[p + 3]) as usize))
            &&& (d[p + 2] < 128 ==> t.lig_kern@[i].op == LigKernOp::Lig { op: d[p + 2], char: d[p + 3] })
        }),
{
    assert(t.lig_kern@[i] == lk_step(d, i));
}

/// The header and the other tables of a parsed TFM file, word by word:
/// the checksum and design size are the first two header words, the
/// character range is `bc..=ec`, and kern `i`, extensible recipe `i` and
/// parameter `i` are the `i`-th words of their tables. The right boundary
/// character is named by a first lig/kern instruction with skip byte 255,
/// and a last one with skip byte 255 says where the left boundary's
/// program starts.
pub proof fn law_tfm_tables(t: Tfm, d: Seq<u8>)
    requires
        tfm_check(d) is None,
        tfm_matches(t, d),
    ensures
        t.checksum as int == d[24] * 0x100_0000 + d[25] * 0x1_0000 + d[26] * 0x100 + d[27],
        t.design_size == fix_at(d, 28),
        t.first_char as int == d[4] * 256 + d[5],
        t.last_char as int == d[6] * 256 + d[7],
        t.chars@.len() == d[6] * 256 + d[7] + 1 - (d[4] * 256 + d[5]),
        forall|i: int| 0 <= i < t.kern@.len() ==> #[trigger] t.kern@[i] == fix_at(d, tfm_kern_base(d) + 4 * i),
        forall|i: int| 0 <= i < t.params@.len() ==> #[trigger] t.params@[i] == fix_at(d, tfm_param_base(d) + 4 * i),
        forall|i: int| 0 <= i < t.exten@.len() ==> {
            let p = tfm_exten_base(d) + 4 * i;
            &&& (#[trigger] t.exten@[i]).top == d[p]
            &&& t.exten@[i].mid == d[p + 1]
            &&& t.exten@[i].bot == d[p + 2]
            &&& t.exten@[i].rep == d[p + 3]
        },
        t.lig_kern@.len() > 0 && t.lig_kern@[0].skip == 255 ==> t.right_boundary == Some(t.lig_kern@[0].next_char),
        !(t.lig_kern@.len() > 0 && t.lig_kern@[0].skip == 255) ==> t.right_boundary is None,
        ({
            let n = t.lig_kern@.len() as int;
            let q = tfm_lig_base(d) + 4 * (n - 1);
            &&& (n > 0 && d[q] == 255 ==> t.left_boundary_program == Some((256 * d[q + 2] + d[q + 3]) as usize))
            &&& (!(n > 0 && d[q] == 255) ==> t.left_boundary_program is None)
        }),
{
    assert(t.lig_kern@.len() > 0 ==> t.lig_kern@[0] == lk_step(d, 0));
    assert(be32(d, 24) == d[24] * 0x100_0000 + d[25] * 0x1_0000 + d[26] * 0x100 + d[27]);
}

/// What a file that `parse` accepts has been checked to be: its length is
/// `4 * lf` bytes, `lf` is the sum of the subfile lengths, `bc <= ec + 1`
/// and `ec < 256`, the header has at least two words, each dimension table
/// has its zero entry, every character's indices lie inside their tables,
/// and every kern instruction names an entry of the kern table.
pub proof fn law_tfm_accepted(d: Seq<u8>)
    requires
        tfm_check(d) is None,
    ensures
        d.len() >= 24,
        d.len() == 4 * hw(d, 0),
        hw(d, 0) == 6 + hw(d, 1) + (hw(d, 3) + 1 - hw(d, 2)) + hw(d, 4) + hw(d, 5) + hw(d, 6) + hw(d, 7)
            + hw(d, 8) + hw(d, 9) + hw(d, 10) + hw(d, 11),
        hw(d, 2) <= hw(d, 3) + 1 && hw(d, 3) < 256,
        hw(d, 1) >= 2 && hw(d, 4) > 0 && hw(d, 5) > 0 && hw(d, 6) > 0 && hw(d, 7) > 0,
        forall|k: int| 0 <= k < hw(d, 3) + 1 - hw(d, 2) && #[trigger] d[tfm_char_base(d) + 4 * k] != 0 ==> {
            let w = tfm_char_base(d) + 4 * k;
            &&& d[w] < hw(d, 4)
            &&& d[w + 1] / 16 < hw(d, 5)
            &&& d[w + 1] % 16 < hw(d, 6)
            &&& d[w + 2] / 4 < hw(d, 7)
        },
        forall|i: int| 0 <= i < hw(d, 8) && #[trigger] d[tfm_lig_base(d) + 4 * i + 2] >= 128 ==>
            256 * (d[tfm_lig_base(d) + 4 * i + 2] - 128) + d[tfm_lig_base(d) + 4 * i + 3] < hw(d, 9),
{
    assert forall|k: int| 0 <= k < hw(d, 3) + 1 - hw(d, 2) && #[trigger] d[tfm_char_base(d) + 4 * k] != 0 implies {
        let w = tfm_char_base(d) + 4 * k;
        &&& d[w] < hw(d, 4)
        &&& d[w + 1] / 16 < hw(d, 5)
        &&& d[w + 1] % 16 < hw(d, 6)
        &&& d[w + 2] / 4 < hw(d, 7)
    } by {
        lemma_chars_error_none(d, tfm_nc(d), k);
        let w = tfm_char_base(d) + 4 * k;
        lemma_nibbles(d[w + 1]);
        lemma_nibbles(d[w + 2]);
    }
    assert forall|i: int| 0 <= i < hw(d, 8) && #[trigger] d[tfm_lig_base(d) + 4 * i + 2] >= 128 implies
        256 * (d[tfm_lig_base(d) + 4 * i + 2] - 128) + d[tfm_lig_base(d) + 4 * i + 3] < hw(d, 9) by {
        lemma_bad_kern_none(d, 0, i);
    }
}

/// The layout checks that `parse` makes before it reads the tables.
pub open spec fn layout_ok(d: Seq<u8>) -> bool {
    &&& d.len() >= 24
    &&& tfm_bc(d) <= tfm_ec(d) + 1 && tfm_ec(d) < 256
    &&& tfm_lf(d) == sum_of_sizes(d)
    &&& tfm_lf(d) * 4 == d.len()
    &&& !(tfm_lh(d) < 2 || tfm_nw(d) == 0 || tfm_nh(d) == 0 || tfm_nd(d) == 0 || tfm_ni(d) == 0)
}

fn char_message_exec(c: usize, table: &str, i: usize) -> (m: String)
    ensures
        m@ == char_message(c as int, table@, i as int),
{
    let mut m = text_num("char ", c as u64, " ");
    string_push_str(&mut m, table);
    string_push_str(&mut m, " index ");
    push_decimal(&mut m, i as u64);
    string_push_str(&mut m, " out of range");
    m
}

fn char_at(
    data: &[u8],
    k: usize,
    char_base: usize,
    lig_base: usize,
    nl: usize,
    ne: usize,
    widths: &Vec<Fix>,
    heights: &Vec<Fix>,
    depths: &Vec<Fix>,
    italics: &Vec<Fix>,
) -> (res: Result<Option<CharInfo>, ParseError>)
    requires
        layout_ok(data@),
        k < tfm_nc(data@),
        nl == tfm_nl(data@),
        ne == tfm_ne(data@),
        char_base == tfm_char_base(data@),
        lig_base == tfm_lig_base(data@),
        widths@.len() == tfm_nw(data@),
        heights@.len() == tfm_nh(data@),
        depths@.len() == tfm_nd(data@),
        italics@.len() == tfm_ni(data@),
        forall|j: int| 0 <= j < tfm_nw(data@) ==> #[trigger] widths@[j] == fix_at(data@, tfm_width_base(data@) + 4 * j),
        forall|j: int| 0 <= j < tfm_nh(data@) ==> #[trigger] heights@[j] == fix_at(data@, tfm_height_base(data@) + 4 * j),
        forall|j: int| 0 <= j < tfm_nd(data@) ==> #[trigger] depths@[j] == fix_at(data@, tfm_depth_base(data@) + 4 * j),
        forall|j: int| 0 <= j < tfm_ni(data@) ==> #[trigger] italics@[j] == fix_at(data@, tfm_italic_base(data@) + 4 * j),
    ensures
        match res {
            Ok(c) => char_error(data@, k as int) is None && c == char_entry(data@, k as int),
            Err(e) => char_error(data@, k as int) is Some && e.offset == 0
                && e.message@ == char_error(data@, k as int)->Some_0,
        },
{
    let bc = be16_at(data, 4);
    let p = char_base + 4 * k;
    let b0 = data[p];
    let b1 = data[p + 1];
    let b2 = data[p + 2];
    let b3 = data[p + 3];
    if b0 == 0 {
        return Ok(None);
    }
    let wi = b0 as usize;
    let hi = (b1 >> 4u8) as usize;
    let di = (b1 & 15u8) as usize;
    let ii = (b2 >> 2u8) as usize;
    let tag_bits = b2 & 3u8;
    assert(b2 & 3u8 < 4u8) by (bit_vector);
    let rem = b3;
    let tag = match tag_bits {
        0 => Tag::NoTag,
        1 => {
            let r = rem as usize;
            let start = if r < nl && data[lig_base + 4 * r] > 128 {
                256 * data[lig_base + 4 * r + 2] as usize + data[lig_base + 4 * r + 3] as usize
            } else {
                r
            };
            if start >= nl {
                let message = text_num2("char ", (bc + k) as u64, " lig_kern start ", start as u64, " out of range");
                return Err(ParseError { offset: 0, message });
            }
            Tag::LigKern(start)
        },
        2 => Tag::Larger(rem),
        _ => {
            if rem as usize >= ne {
                return Err(ParseError { offset: 0, message: text_num("char ", (bc + k) as u64, " exten index out of range") });
            }
            Tag::Extensible(rem as usize)
        },
    };
    if wi >= widths.len() {
        return Err(ParseError { offset: 0, message: char_message_exec(bc + k, "width", wi) });
    }
    if hi >= heights.len() {
        return Err(ParseError { offset: 0, message: char_message_exec(bc + k, "height", hi) });
    }
    if di >= depths.len() {
        return Err(ParseError { offset: 0, message: char_message_exec(bc + k, "depth", di) });
    }
    if ii >= italics.len() {
        return Err(ParseError { offset: 0, message: char_message_exec(bc + k, "italic", ii) });
    }
    Ok(Some(CharInfo {
        width: widths[wi],
        height: heights[hi],
        depth: depths[di],
        italic: italics[ii],
        tag,
    }))
}

fn read_chars(
    data: &[u8],
    widths: &Vec<Fix>,
    heights: &Vec<Fix>,
    depths: &Vec<Fix>,
    italics: &Vec<Fix>,
) -> (res: Result<Vec<Option<CharInfo>>, ParseError>)
    requires
        layout_ok(data@),
        widths@.len() == tfm_nw(data@),
        heights@.len() == tfm_nh(data@),
        depths@.len() == tfm_nd(data@),
        italics@.len() == tfm_ni(data@),
        forall|j: int| 0 <= j < tfm_nw(data@) ==> #[trigger] widths@[j] == fix_at(data@, tfm_width_base(data@) + 4 * j),
        forall|j: int| 0 <= j < tfm_nh(data@) ==> #[trigger] heights@[j] == fix_at(data@, tfm_height_base(data@) + 4 * j),
        forall|j: int| 0 <= j < tfm_nd(data@) ==> #[trigger] depths@[j] == fix_at(data@, tfm_depth_base(data@) + 4 * j),
        forall|j: int| 0 <= j < tfm_ni(data@) ==> #[trigger] italics@[j] == fix_at(data@, tfm_italic_base(data@) + 4 * j),
    ensures
        match res {
            Ok(c) => {
                &&& chars_error(data@, tfm_nc(data@)) is None
                &&& c@.len() == tfm_nc(data@)
                &&& forall|k: int| 0 <= k < tfm_nc(data@) ==> #[trigger] c@[k] == char_entry(data@, k)
            },
            Err(e) => {
                &&& chars_error(data@, tfm_nc(data@)) is Some
                &&& e.offset == 0
                &&& e.message@ == chars_error(data@, tfm_nc(data@))->Some_0
            },
        },
{
    let ghost d = data@;
    let lh = be16_at(data, 2);
    let bc = be16_at(data, 4);
    let ec = be16_at(data, 6);
    let nl = be16_at(data, 16);
    let ne = be16_at(data, 20);
    let nc = if bc > ec { 0 } else { ec - bc + 1 };
    let char_base = 24 + 4 * lh;
    let nw = be16_at(data, 8);
    let nh = be16_at(data, 10);
    let nd = be16_at(data, 12);
    let ni = be16_at(data, 14);
    let lig_base = char_base + 4 * nc + 4 * nw + 4 * nh + 4 * nd + 4 * ni;
    let mut chars: Vec<Option<CharInfo>> = Vec::with_capacity(nc);
    let mut k: usize = 0;
    while k < nc
        invariant
            d == data@,
            layout_ok(d),
            nc == tfm_nc(d),
            nl == tfm_nl(d),
            ne == tfm_ne(d),
            char_base == tfm_char_base(d),
            lig_base == tfm_lig_base(d),
            widths@.len() == tfm_nw(d),
            heights@.len() == tfm_nh(d),
            depths@.len() == tfm_nd(d),
            italics@.len() == tfm_ni(d),
            forall|j: int| 0 <= j < tfm_nw(d) ==> #[trigger] widths@[j] == fix_at(d, tfm_width_base(d) + 4 * j),
            forall|j: int| 0 <= j < tfm_nh(d) ==> #[trigger] heights@[j] == fix_at(d, tfm_height_base(d) + 4 * j),
            forall|j: int| 0 <= j < tfm_nd(d) ==> #[trigger] depths@[j] == fix_at(d, tfm_depth_base(d) + 4 * j),
            forall|j: int| 0 <= j < tfm_ni(d) ==> #[trigger] italics@[j] == fix_at(d, tfm_italic_base(d) + 4 * j),
            k <= nc,
            chars@.len() == k,
            chars_error(d, k as int) is None,
            forall|j: int| 0 <= j < k ==> #[trigger] chars@[j] == char_entry(d, j),
        decreases nc - k,
    {
        assert(chars_error(d, k + 1) == char_error(d, k as int));
        let c = match char_at(data, k, char_base, lig_base, nl, ne, widths, heights, depths, italics) {
            Ok(c) => c,
            Err(e) => {
                proof {
                    lemma_chars_error_stays(d, k + 1, nc as int);
                }
                return Err(e);
            },
        };
        chars.push(c);
        k = k + 1;
    }
    Ok(chars)
}

} // verus!

//! JFM files: the Japanese font metrics of pTeX and upTeX.
//!
//! Dimensions belong to character types rather than to character codes, and
//! a table gives the glue or kern between two types. id 11 is horizontal
//! writing, 9 vertical. upTeX's extended JFM widens codes to 24 bits.

use vstd::prelude::*;
use crate::fix::Fix;
use crate::message::{decimal, push_decimal, string_push_str, text_num, text_num2};
use crate::reader::{bcpl, bcpl_bytes, err, fix_at, is_error, msg_unexpected_end, ParseError, Reader};
use crate::text::{be16, be32, utf8_lossy};
use crate::words::{be16_at, be32_at, fix_table, fix_word_at};

verus! {

#[derive(Debug, Clone, Copy, PartialEq, Eq, Structural)]
pub enum Direction {
    /// Horizontal writing (id = 11).
    Yoko,
    /// Vertical writing (id = 9).
    Tate,
}

#[derive(Debug, Clone, Copy, PartialEq, Eq, Structural)]
pub struct TypeInfo {
    pub width: Fix,
    pub height: Fix,
    pub depth: Fix,
    pub italic: Fix,
    /// Start of the glue/kern program (for tag 1).
    pub glue_kern_start: Option<usize>,
}

#[derive(Debug, Clone, Copy, PartialEq, Eq, Structural)]
pub struct Glue {
    pub width: Fix,
    pub stretch: Fix,
    pub shrink: Fix,
}

#[derive(Debug, Clone, Copy, PartialEq, Eq, Structural)]
pub enum GlueKernOp {
    Kern(Fix),
    Glue(Glue),
}

#[derive(Debug, Clone, Copy, PartialEq, Eq, Structural)]
pub struct GlueKernStep {
    pub skip: u8,
    pub next_type: u8,
    pub op: GlueKernOp,
}

#[derive(Debug, Clone, PartialEq)]
pub struct Jfm {
    pub direction: Direction,
    pub checksum: u32,
    pub design_size: Fix,
    pub coding_scheme: String,
    pub family: String,
    /// Character code -> character type; codes not listed have type 0.
    pub char_types: Vec<(u32, u8)>,
    /// Character type (0..=ec) -> dimensions.
    pub types: Vec<Option<TypeInfo>>,
    pub glue_kern: Vec<GlueKernStep>,
    pub params: Vec<Fix>,
}

// ---------- the file layout ----------

/// The k-th 16-bit word of the header (id, nt, lf, lh, bc, ec, nw, nh, nd,
/// ni, nl, nk, ng, np).
pub open spec fn jw(d: Seq<u8>, k: int) -> int {
    be16(d, 2 * k)
}

pub open spec fn jfm_id(d: Seq<u8>) -> int { jw(d, 0) }
pub open spec fn jfm_nt(d: Seq<u8>) -> int { jw(d, 1) }
pub open spec fn jfm_lf(d: Seq<u8>) -> int { jw(d, 2) }
pub open spec fn jfm_lh(d: Seq<u8>) -> int { jw(d, 3) }
pub open spec fn jfm_bc(d: Seq<u8>) -> int { jw(d, 4) }
pub open spec fn jfm_ec(d: Seq<u8>) -> int { jw(d, 5) }
pub open spec fn jfm_nw(d: Seq<u8>) -> int { jw(d, 6) }
pub open spec fn jfm_nh(d: Seq<u8>) -> int { jw(d, 7) }
pub open spec fn jfm_nd(d: Seq<u8>) -> int { jw(d, 8) }
pub open spec fn jfm_ni(d: Seq<u8>) -> int { jw(d, 9) }
pub open spec fn jfm_nl(d: Seq<u8>) -> int { jw(d, 10) }
pub open spec fn jfm_nk(d: Seq<u8>) -> int { jw(d, 11) }
pub open spec fn jfm_ng(d: Seq<u8>) -> int { jw(d, 12) }
pub open spec fn jfm_np(d: Seq<u8>) -> int { jw(d, 13) }

/// The number of character types, `ec + 1`.
pub open spec fn jfm_nc(d: Seq<u8>) -> int { jfm_ec(d) + 1 }

pub open spec fn jfm_ct_base(d: Seq<u8>) -> int { 28 + 4 * jfm_lh(d) }
pub open spec fn jfm_type_base(d: Seq<u8>) -> int { jfm_ct_base(d) + 4 * jfm_nt(d) }
pub open spec fn jfm_width_base(d: Seq<u8>) -> int { jfm_type_base(d) + 4 * jfm_nc(d) }
pub open spec fn jfm_height_base(d: Seq<u8>) -> int { jfm_width_base(d) + 4 * jfm_nw(d) }
pub open spec fn jfm_depth_base(d: Seq<u8>) -> int { jfm_height_base(d) + 4 * jfm_nh(d) }
pub open spec fn jfm_italic_base(d: Seq<u8>) -> int { jfm_depth_base(d) + 4 * jfm_nd(d) }
pub open spec fn jfm_gk_base(d: Seq<u8>) -> int { jfm_italic_base(d) + 4 * jfm_ni(d) }
pub open spec fn jfm_kern_base(d: Seq<u8>) -> int { jfm_gk_base(d) + 4 * jfm_nl(d) }
pub open spec fn jfm_glue_base(d: Seq<u8>) -> int { jfm_kern_base(d) + 4 * jfm_nk(d) }
pub open spec fn jfm_param_base(d: Seq<u8>) -> int { jfm_glue_base(d) + 4 * jfm_ng(d) }

pub open spec fn jfm_sum_of_sizes(d: Seq<u8>) -> int {
    7 + jfm_lh(d) + jfm_nt(d) + jfm_nc(d) + jfm_nw(d) + jfm_nh(d) + jfm_nd(d) + jfm_ni(d)
        + jfm_nl(d) + jfm_nk(d) + jfm_ng(d) + jfm_np(d)
}

/// The checks that come before the header is read.
pub open spec fn jfm_layout_ok(d: Seq<u8>) -> bool {
    &&& d.len() >= 28
    &&& (jfm_id(d) == 11 || jfm_id(d) == 9)
    &&& jfm_bc(d) == 0
    &&& jfm_lf(d) == jfm_sum_of_sizes(d)
    &&& jfm_lf(d) * 4 == d.len()
}

/// The code of entry `i` of the char_type table: the low 16 bits from the
/// first two bytes, the high 8 bits (upTeX) from the third.
pub open spec fn ct_code(d: Seq<u8>, i: int) -> int {
    let p = jfm_ct_base(d) + 4 * i;
    d[p + 2] * 65536 + d[p] * 256 + d[p + 1]
}

pub open spec fn ct_type(d: Seq<u8>, i: int) -> u8 {
    d[jfm_ct_base(d) + 4 * i + 3]
}

/// Byte `j` of glue/kern instruction `i`.
pub open spec fn gb(d: Seq<u8>, i: int, j: int) -> u8 {
    d[jfm_gk_base(d) + 4 * i + j]
}

/// The table index instruction `i` names (kern or glue, after its op byte).
pub open spec fn gk_index(d: Seq<u8>, i: int) -> int {
    if gb(d, i, 2) >= 128 {
        256 * (gb(d, i, 2) - 128) + gb(d, i, 3)
    } else {
        256 * gb(d, i, 2) + gb(d, i, 3)
    }
}

/// What is wrong with glue/kern instruction `i`, if anything.
pub open spec fn gk_error(d: Seq<u8>, i: int) -> Option<Seq<char>> {
    if gb(d, i, 2) >= 128 {
        if gk_index(d, i) < jfm_nk(d) { None } else { Some("glue_kern["@ + decimal(i as nat) + "] kern index out of range"@) }
    } else {
        if gk_index(d, i) < jfm_ng(d) / 3 { None } else { Some("glue_kern["@ + decimal(i as nat) + "] glue index out of range"@) }
    }
}

pub open spec fn gks_error(d: Seq<u8>, n: int) -> Option<Seq<char>>
    decreases n,
{
    if n <= 0 {
        None
    } else {
        match gks_error(d, n - 1) {
            Some(m) => Some(m),
            None => gk_error(d, n - 1),
        }
    }
}

pub open spec fn gk_step(d: Seq<u8>, i: int) -> GlueKernStep {
    let k = gk_index(d, i);
    GlueKernStep {
        skip: gb(d, i, 0),
        next_type: gb(d, i, 1),
        op: if gb(d, i, 2) >= 128 {
            GlueKernOp::Kern(fix_at(d, jfm_kern_base(d) + 4 * k))
        } else {
            GlueKernOp::Glue(Glue {
                width: fix_at(d, jfm_glue_base(d) + 12 * k),
                stretch: fix_at(d, jfm_glue_base(d) + 12 * k + 4),
                shrink: fix_at(d, jfm_glue_base(d) + 12 * k + 8),
            })
        },
    }
}

/// Byte `j` of the char_info word of type `t`.
pub open spec fn tb(d: Seq<u8>, t: int, j: int) -> u8 {
    d[jfm_type_base(d) + 4 * t + j]
}

/// Where the glue/kern program of a tag-1 type starts (redirected when the
/// instruction at the remainder has a skip byte above 128).
pub open spec fn gk_start(d: Seq<u8>, rem: int) -> int {
    if rem < jfm_nl(d) && gb(d, rem, 0) > 128 {
        256 * gb(d, rem, 2) + gb(d, rem, 3)
    } else {
        rem
    }
}

/// `type <t> <table> index <i> out of range`.
pub open spec fn type_message(t: int, table: Seq<char>, i: int) -> Seq<char> {
    "type "@ + decimal(t as nat) + " "@ + table + " index "@ + decimal(i as nat) + " out of range"@
}

pub open spec fn type_error(d: Seq<u8>, t: int) -> Option<Seq<char>> {
    let wi = tb(d, t, 0) as int;
    if wi == 0 {
        None
    } else if wi >= jfm_nw(d) {
        Some(type_message(t, "width"@, wi))
    } else if (tb(d, t, 1) >> 4) as int >= jfm_nh(d) {
        Some(type_message(t, "height"@, (tb(d, t, 1) >> 4) as int))
    } else if (tb(d, t, 1) & 15) as int >= jfm_nd(d) {
        Some(type_message(t, "depth"@, (tb(d, t, 1) & 15) as int))
    } else if (tb(d, t, 2) >> 2) as int >= jfm_ni(d) {
        Some(type_message(t, "italic"@, (tb(d, t, 2) >> 2) as int))
    } else {
        None
    }
}

pub open spec fn types_error(d: Seq<u8>, n: int) -> Option<Seq<char>>
    decreases n,
{
    if n <= 0 {
        None
    } else {
        match types_error(d, n - 1) {
            Some(m) => Some(m),
            None => type_error(d, n - 1),
        }
    }
}

pub open spec fn type_entry(d: Seq<u8>, t: int) -> Option<TypeInfo> {
    if tb(d, t, 0) == 0 {
        None
    } else {
        Some(TypeInfo {
            width: fix_at(d, jfm_width_base(d) + 4 * tb(d, t, 0)),
            height: fix_at(d, jfm_height_base(d) + 4 * (tb(d, t, 1) >> 4)),
            depth: fix_at(d, jfm_depth_base(d) + 4 * (tb(d, t, 1) & 15)),
            italic: fix_at(d, jfm_italic_base(d) + 4 * (tb(d, t, 2) >> 2)),
            glue_kern_start: if tb(d, t, 2) & 3 == 1 {
                Some(gk_start(d, tb(d, t, 3) as int) as usize)
            } else {
                None
            },
        })
    }
}

/// The first check that `d` fails, as (offset, message).
pub open spec fn jfm_check(d: Seq<u8>) -> Option<(int, Seq<char>)> {
    if d.len() < 2 {
        Some((d.len() as int, msg_unexpected_end()))
    } else if !(jfm_id(d) == 11 || jfm_id(d) == 9) {
        Some((0, "not a JFM (id = "@ + decimal(jfm_id(d) as nat) + ")"@))
    } else if d.len() < 28 {
        Some((d.len() as int, msg_unexpected_end()))
    } else if jfm_bc(d) != 0 {
        Some((8, "JFM must have bc = 0"@))
    } else if jfm_lf(d) != jfm_sum_of_sizes(d) {
        Some((0, "file length does not match the subfile lengths"@))
    } else if jfm_lf(d) * 4 != d.len() {
        Some((0, "file is "@ + decimal(d.len()) + " bytes but lf says "@ + decimal((jfm_lf(d) * 4) as nat)))
    } else if jfm_lh(d) < 2 {
        Some((6, "header too short"@))
    } else if jfm_ng(d) % 3 != 0 {
        Some((0, "glue table length is not a multiple of 3"@))
    } else if gks_error(d, jfm_nl(d)) is Some {
        Some((0, gks_error(d, jfm_nl(d))->Some_0))
    } else if types_error(d, jfm_nc(d)) is Some {
        Some((0, types_error(d, jfm_nc(d))->Some_0))
    } else {
        None
    }
}

pub open spec fn min(a: int, b: int) -> int {
    if a < b { a } else { b }
}

/// `j` holds what the well-formed JFM file `d` says.
pub open spec fn jfm_matches(j: Jfm, d: Seq<u8>) -> bool {
    &&& j.direction == if jfm_id(d) == 11 { Direction::Yoko } else { Direction::Tate }
    &&& j.checksum == be32(d, 28)
    &&& j.design_size == fix_at(d, 32)
    &&& j.coding_scheme@ == if jfm_lh(d) > 2 {
        utf8_lossy(bcpl_bytes(d.subrange(36, 28 + min(48, 4 * jfm_lh(d)))))
    } else {
        Seq::empty()
    }
    &&& j.family@ == if jfm_lh(d) > 12 {
        utf8_lossy(bcpl_bytes(d.subrange(76, 28 + min(68, 4 * jfm_lh(d)))))
    } else {
        Seq::empty()
    }
    &&& j.char_types@.len() == jfm_nt(d)
    &&& forall|i: int| 0 <= i < jfm_nt(d) ==> #[trigger] j.char_types@[i] == (ct_code(d, i) as u32, ct_type(d, i))
    &&& j.types@.len() == jfm_nc(d)
    &&& forall|t: int| 0 <= t < jfm_nc(d) ==> #[trigger] j.types@[t] == type_entry(d, t)
    &&& j.glue_kern@.len() == jfm_nl(d)
    &&& forall|i: int| 0 <= i < jfm_nl(d) ==> #[trigger] j.glue_kern@[i] == gk_step(d, i)
    &&& j.params@.len() == jfm_np(d)
    &&& forall|i: int| 0 <= i < jfm_np(d) ==> #[trigger] j.params@[i] == fix_at(d, jfm_param_base(d) + 4 * i)
}

/// The first character type listed for `code`, or 0.
pub open spec fn type_of_code(cts: Seq<(u32, u8)>, code: u32) -> u8
    decreases cts.len(),
{
    if cts.len() == 0 {
        0
    } else if cts[0].0 == code {
        cts[0].1
    } else {
        type_of_code(cts.drop_first(), code)
    }
}

/// Runs a glue/kern program from instruction `i` for the next type `right`.
pub open spec fn run_glue_kern(steps: Seq<GlueKernStep>, i: int, right: u8) -> Option<GlueKernOp>
    decreases steps.len() - i,
{
    if i < 0 || i >= steps.len() {
        None
    } else {
        let s = steps[i];
        if s.next_type == right && s.skip <= 128 {
            Some(s.op)
        } else if s.skip >= 128 {
            None
        } else if i + s.skip + 1 >= steps.len() {
            None
        } else {
            run_glue_kern(steps, i + s.skip + 1, right)
        }
    }
}

// ---------- reading ----------

struct Sizes {
    id: usize,
    nt: usize,
    lf: usize,
    lh: usize,
    bc: usize,
    ec: usize,
    nw: usize,
    nh: usize,
    nd: usize,
    ni: usize,
    nl: usize,
    nk: usize,
    ng: usize,
    np: usize,
}

fn read_sizes(data: &[u8]) -> (res: Result<Sizes, ParseError>)
    ensures
        match res {
            Ok(s) => {
                &&& data@.len() >= 28
                &&& (jfm_id(data@) == 11 || jfm_id(data@) == 9)
                &&& s.id == jfm_id(data@) && s.nt == jfm_nt(data@) && s.lf == jfm_lf(data@)
                &&& s.lh == jfm_lh(data@) && s.bc == jfm_bc(data@) && s.ec == jfm_ec(data@)
                &&& s.nw == jfm_nw(data@) && s.nh == jfm_nh(data@) && s.nd == jfm_nd(data@)
                &&& s.ni == jfm_ni(data@) && s.nl == jfm_nl(data@) && s.nk == jfm_nk(data@)
                &&& s.ng == jfm_ng(data@) && s.np == jfm_np(data@)
            },
            Err(e) => {
                &&& jfm_check(data@) == Some((e.offset as int, e.message@))
                &&& (data@.len() < 28 || !(jfm_id(data@) == 11 || jfm_id(data@) == 9))
            },
        },
{
    let mut r = Reader::new(data);
    let id = r.u16()? as usize;
    if id != 11 && id != 9 {
        return Err(ParseError { offset: 0, message: text_num("not a JFM (id = ", id as u64, ")") });
    }
    let nt = r.u16()? as usize;
    let lf = r.u16()? as usize;
    let lh = r.u16()? as usize;
    let bc = r.u16()? as usize;
    let ec = r.u16()? as usize;
    let nw = r.u16()? as usize;
    let nh = r.u16()? as usize;
    let nd = r.u16()? as usize;
    let ni = r.u16()? as usize;
    let nl = r.u16()? as usize;
    let nk = r.u16()? as usize;
    let ng = r.u16()? as usize;
    let np = r.u16()? as usize;
    Ok(Sizes { id, nt, lf, lh, bc, ec, nw, nh, nd, ni, nl, nk, ng, np })
}

fn glue_kern_step_at(
    data: &[u8],
    i: usize,
    gk_base: usize,
    kern: &Vec<Fix>,
    glue: &Vec<Glue>,
) -> (res: Result<GlueKernStep, ParseError>)
    requires
        jfm_layout_ok(data@),
        i < jfm_nl(data@),
        gk_base == jfm_gk_base(data@),
        kern@.len() == jfm_nk(data@),
        glue@.len() == jfm_ng(data@) / 3,
        forall|j: int| 0 <= j < jfm_nk(data@) ==> #[trigger] kern@[j] == fix_at(data@, jfm_kern_base(data@) + 4 * j),
        forall|j: int| 0 <= j < jfm_ng(data@) / 3 ==> #[trigger] glue@[j] == (Glue {
            width: fix_at(data@, jfm_glue_base(data@) + 12 * j),
            stretch: fix_at(data@, jfm_glue_base(data@) + 12 * j + 4),
            shrink: fix_at(data@, jfm_glue_base(data@) + 12 * j + 8),
        }),
    ensures
        match res {
            Ok(s) => gk_error(data@, i as int) is None && s == gk_step(data@, i as int),
            Err(e) => gk_error(data@, i as int) is Some && e.offset == 0
                && e.message@ == gk_error(data@, i as int)->Some_0,
        },
{
    let p = gk_base + 4 * i;
    let b0 = data[p];
    let b1 = data[p + 1];
    let b2 = data[p + 2];
    let b3 = data[p + 3];
    let op = if b2 >= 128 {
        let k = 256 * (b2 as usize - 128) + b3 as usize;
        if k >= kern.len() {
            return Err(ParseError { offset: 0, message: text_num("glue_kern[", i as u64, "] kern index out of range") });
        }
        GlueKernOp::Kern(kern[k])
    } else {
        let g = 256 * b2 as usize + b3 as usize;
        if g >= glue.len() {
            return Err(ParseError { offset: 0, message: text_num("glue_kern[", i as u64, "] glue index out of range") });
        }
        GlueKernOp::Glue(glue[g])
    };
    Ok(GlueKernStep { skip: b0, next_type: b1, op })
}

fn type_message_exec(t: usize, table: &str, i: usize) -> (m: String)
    ensures
        m@ == type_message(t as int, table@, i as int),
{
    let mut m = text_num("type ", t as u64, " ");
    string_push_str(&mut m, table);
    string_push_str(&mut m, " index ");
    push_decimal(&mut m, i as u64);
    string_push_str(&mut m, " out of range");
    m
}

fn type_at(
    data: &[u8],
    t: usize,
    type_base: usize,
    gk_base: usize,
    nl: usize,
    widths: &Vec<Fix>,
    heights: &Vec<Fix>,
    depths: &Vec<Fix>,
    italics: &Vec<Fix>,
) -> (res: Result<Option<TypeInfo>, ParseError>)
    requires
        jfm_layout_ok(data@),
        t < jfm_nc(data@),
        nl == jfm_nl(data@),
        type_base == jfm_type_base(data@),
        gk_base == jfm_gk_base(data@),
        widths@.len() == jfm_nw(data@),
        heights@.len() == jfm_nh(data@),
        depths@.len() == jfm_nd(data@),
        italics@.len() == jfm_ni(data@),
        forall|j: int| 0 <= j < jfm_nw(data@) ==> #[trigger] widths@[j] == fix_at(data@, jfm_width_base(data@) + 4 * j),
        forall|j: int| 0 <= j < jfm_nh(data@) ==> #[trigger] heights@[j] == fix_at(data@, jfm_height_base(data@) + 4 * j),
        forall|j: int| 0 <= j < jfm_nd(data@) ==> #[trigger] depths@[j] == fix_at(data@, jfm_depth_base(data@) + 4 * j),
        forall|j: int| 0 <= j < jfm_ni(data@) ==> #[trigger] italics@[j] == fix_at(data@, jfm_italic_base(data@) + 4 * j),
    ensures
        match res {
            Ok(c) => type_error(data@, t as int) is None && c == type_entry(data@, t as int),
            Err(e) => type_error(data@, t as int) is Some && e.offset == 0
                && e.message@ == type_error(data@, t as int)->Some_0,
        },
{
    let p = type_base + 4 * t;
    let b0 = data[p];
    let b1 = data[p + 1];
    let b2 = data[p + 2];
    let b3 = data[p + 3];
    if b0 == 0 {
        return Ok(None);
    }
    let wi = b0 as usize;
    let hi = (b1 >> 4u8) as usize;
    let di = (b1 & 15u8) as usize;
    let ii = (b2 >> 2u8) as usize;
    let tag = b2 & 3u8;
    let glue_kern_start = if tag == 1 {
        let start = b3 as usize;
        let start = if start < nl && data[gk_base + 4 * start] > 128 {
            256 * data[gk_base + 4 * start + 2] as usize + data[gk_base + 4 * start + 3] as usize
        } else {
            start
        };
        Some(start)
    } else {
        None
    };
    if wi >= widths.len() {
        return Err(ParseError { offset: 0, message: type_message_exec(t, "width", wi) });
    }
    if hi >= heights.len() {
        return Err(ParseError { offset: 0, message: type_message_exec(t, "height", hi) });
    }
    if di >= depths.len() {
        return Err(ParseError { offset: 0, message: type_message_exec(t, "depth", di) });
    }
    if ii >= italics.len() {
        return Err(ParseError { offset: 0, message: type_message_exec(t, "italic", ii) });
    }
    Ok(Some(TypeInfo {
        width: widths[wi],
        height: heights[hi],
        depth: depths[di],
        italic: italics[ii],
        glue_kern_start,
    }))
}

proof fn lemma_gks_error_stays(d: Seq<u8>, m: int, n: int)
    requires
        0 <= m <= n,
        gks_error(d, m) is Some,
    ensures
        gks_error(d, n) == gks_error(d, m),
    decreases n - m,
{
    if n > m {
        lemma_gks_error_stays(d, m, n - 1);
    }
}

proof fn lemma_types_error_stays(d: Seq<u8>, m: int, n: int)
    requires
        0 <= m <= n,
        types_error(d, m) is Some,
    ensures
        types_error(d, n) == types_error(d, m),
    decreases n - m,
{
    if n > m {
        lemma_types_error_stays(d, m, n - 1);
    }
}

impl Jfm {
    /// Parses a JFM file. Fails exactly when `jfm_check` finds a fault, with
    /// that fault's offset and message.
    #[verifier::rlimit(60)]
    pub fn parse(data: &[u8]) -> (res: Result<Jfm, ParseError>)
        ensures
            match res {
                Ok(j) => jfm_check(data@) is None && jfm_matches(j, data@),
                Err(e) => jfm_check(data@) == Some((e.offset as int, e.message@)),
            },
    {
        let ghost d = data@;
        let s = match read_sizes(data) {
            Ok(s) => s,
            Err(e) => return Err(e),
        };
        let direction = if s.id == 11 { Direction::Yoko } else { Direction::Tate };
        let (nt, lf, lh, bc, ec) = (s.nt, s.lf, s.lh, s.bc, s.ec);
        let (nw, nh, nd, ni, nl, nk, ng, np) = (s.nw, s.nh, s.nd, s.ni, s.nl, s.nk, s.ng, s.np);
        if bc != 0 {
            return Err(err(8, "JFM must have bc = 0"));
        }
        let nc = ec + 1;
        if lf != 7 + lh + nt + nc + nw + nh + nd + ni + nl + nk + ng + np {
            return Err(err(0, "file length does not match the subfile lengths"));
        }
        if lf * 4 != data.len() {
            let message = text_num2("file is ", data.len() as u64, " bytes but lf says ", (lf * 4) as u64, "");
            proof {
                reveal_strlit("");
                assert(message@ =~= "file is "@ + decimal(d.len()) + " bytes but lf says "@ + decimal((lf * 4) as nat));
            }
            return Err(ParseError { offset: 0, message });
        }
        if lh < 2 {
            return Err(err(6, "header too short"));
        }
        assert(jfm_layout_ok(d));
        let ct_base = 28 + 4 * lh;
        let type_base = ct_base + 4 * nt;
        let width_base = type_base + 4 * nc;
        let height_base = width_base + 4 * nw;
        let depth_base = height_base + 4 * nh;
        let italic_base = depth_base + 4 * nd;
        let gk_base = italic_base + 4 * ni;
        let kern_base = gk_base + 4 * nl;
        let glue_base = kern_base + 4 * nk;
        let param_base = glue_base + 4 * ng;
        assert(param_base + 4 * np == d.len());

        let checksum = be32_at(data, 28);
        let design_size = fix_word_at(data, 32);
        let hlen = 4 * lh;
        let coding_scheme = if lh > 2 {
            let end = if 48 < hlen { 48 } else { hlen };
            bcpl(&data[36..28 + end])
        } else {
            String::new()
        };
        let family = if lh > 12 {
            let end = if 68 < hlen { 68 } else { hlen };
            bcpl(&data[76..28 + end])
        } else {
            String::new()
        };

        let mut char_types: Vec<(u32, u8)> = Vec::with_capacity(nt);
        let mut i: usize = 0;
        while i < nt
            invariant
                d == data@,
                jfm_layout_ok(d),
                ct_base == jfm_ct_base(d),
                nt == jfm_nt(d),
                ct_base + 4 * nt <= d.len(),
                i <= nt,
                char_types@.len() == i,
                forall|j: int| 0 <= j < i ==> #[trigger] char_types@[j] == (ct_code(d, j) as u32, ct_type(d, j)),
            decreases nt - i,
        {
            let p = ct_base + 4 * i;
            let code = (data[p + 2] as u32) * 65536 + (data[p] as u32) * 256 + data[p + 1] as u32;
            char_types.push((code, data[p + 3]));
            i = i + 1;
        }

        let widths = fix_table(data, width_base, nw);
        let heights = fix_table(data, height_base, nh);
        let depths = fix_table(data, depth_base, nd);
        let italics = fix_table(data, italic_base, ni);
        let kern = fix_table(data, kern_base, nk);
        if ng % 3 != 0 {
            return Err(err(0, "glue table length is not a multiple of 3"));
        }
        let mut glue: Vec<Glue> = Vec::with_capacity(ng / 3);
        let mut i: usize = 0;
        while i < ng / 3
            invariant
                d == data@,
                jfm_layout_ok(d),
                glue_base == jfm_glue_base(d),
                ng == jfm_ng(d),
                ng % 3 == 0,
                glue_base + 4 * ng <= d.len(),
                i <= ng / 3,
                glue@.len() == i,
                forall|j: int| 0 <= j < i ==> #[trigger] glue@[j] == (Glue {
                    width: fix_at(d, jfm_glue_base(d) + 12 * j),
                    stretch: fix_at(d, jfm_glue_base(d) + 12 * j + 4),
                    shrink: fix_at(d, jfm_glue_base(d) + 12 * j + 8),
                }),
            decreases ng / 3 - i,
        {
            let p = glue_base + 12 * i;
            glue.push(Glue {
                width: fix_word_at(data, p),
                stretch: fix_word_at(data, p + 4),
                shrink: fix_word_at(data, p + 8),
            });
            i = i + 1;
        }
        let params = fix_table(data, param_base, np);

        let mut glue_kern: Vec<GlueKernStep> = Vec::with_capacity(nl);
        let mut i: usize = 0;
        while i < nl
            invariant
                d == data@,
                jfm_layout_ok(d),
                nl == jfm_nl(d),
                jfm_ng(d) % 3 == 0,
                jfm_lh(d) >= 2,
                gk_base == jfm_gk_base(d),
                kern@.len() == jfm_nk(d),
                glue@.len() == jfm_ng(d) / 3,
                forall|j: int| 0 <= j < jfm_nk(d) ==> #[trigger] kern@[j] == fix_at(d, jfm_kern_base(d) + 4 * j),
                forall|j: int| 0 <= j < jfm_ng(d) / 3 ==> #[trigger] glue@[j] == (Glue {
                    width: fix_at(d, jfm_glue_base(d) + 12 * j),
                    stretch: fix_at(d, jfm_glue_base(d) + 12 * j + 4),
                    shrink: fix_at(d, jfm_glue_base(d) + 12 * j + 8),
                }),
                i <= nl,
                glue_kern@.len() == i,
                gks_error(d, i as int) is None,
                forall|j: int| 0 <= j < i ==> #[trigger] glue_kern@[j] == gk_step(d, j),
            decreases nl - i,
        {
            assert(gks_error(d, i + 1) == gk_error(d, i as int));
            match glue_kern_step_at(data, i, gk_base, &kern, &glue) {
                Ok(st) => glue_kern.push(st),
                Err(e) => {
                    proof {
                        lemma_gks_error_stays(d, i + 1, nl as int);
                    }
                    return Err(e);
                },
            }
            i = i + 1;
        }

        let mut types: Vec<Option<TypeInfo>> = Vec::with_capacity(nc);
        let mut t: usize = 0;
        while t < nc
            invariant
                d == data@,
                jfm_layout_ok(d),
                jfm_ng(d) % 3 == 0,
                jfm_lh(d) >= 2,
                gks_error(d, jfm_nl(d)) is None,
                nc == jfm_nc(d),
                nl == jfm_nl(d),
                type_base == jfm_type_base(d),
                gk_base == jfm_gk_base(d),
                widths@.len() == jfm_nw(d),
                heights@.len() == jfm_nh(d),
                depths@.len() == jfm_nd(d),
                italics@.len() == jfm_ni(d),
                forall|j: int| 0 <= j < jfm_nw(d) ==> #[trigger] widths@[j] == fix_at(d, jfm_width_base(d) + 4 * j),
                forall|j: int| 0 <= j < jfm_nh(d) ==> #[trigger] heights@[j] == fix_at(d, jfm_height_base(d) + 4 * j),
                forall|j: int| 0 <= j < jfm_nd(d) ==> #[trigger] depths@[j] == fix_at(d, jfm_depth_base(d) + 4 * j),
                forall|j: int| 0 <= j < jfm_ni(d) ==> #[trigger] italics@[j] == fix_at(d, jfm_italic_base(d) + 4 * j),
                t <= nc,
                types@.len() == t,
                types_error(d, t as int) is None,
                forall|j: int| 0 <= j < t ==> #[trigger] types@[j] == type_entry(d, j),
            decreases nc - t,
        {
            assert(types_error(d, t + 1) == type_error(d, t as int));
            match type_at(data, t, type_base, gk_base, nl, &widths, &heights, &depths, &italics) {
                Ok(ti) => types.push(ti),
                Err(e) => {
                    proof {
                        lemma_types_error_stays(d, t + 1, nc as int);
                    }
                    return Err(e);
                },
            }
            t = t + 1;
        }
        Ok(Jfm {
            direction,
            checksum,
            design_size,
            coding_scheme,
            family,
            char_types,
            types,
            glue_kern,
            params,
        })
    }

    /// The character type of `code`: the first entry of the table for it, or 0.
    pub fn char_type(&self, code: u32) -> (t: u8)
        ensures
            t == type_of_code(self.char_types@, code),
    {
        let mut i: usize = 0;
        assert(self.char_types@.skip(0) =~= self.char_types@);
        while i < self.char_types.len()
            invariant
                i <= self.char_types@.len(),
                type_of_code(self.char_types@, code) == type_of_code(self.char_types@.skip(i as int), code),
            decreases self.char_types@.len() - i,
        {
            assert(self.char_types@.skip(i as int).drop_first() =~= self.char_types@.skip(i + 1));
            if self.char_types[i].0 == code {
                return self.char_types[i].1;
            }
            i = i + 1;
        }
        0
    }

    pub fn type_info(&self, char_type: u8) -> (r: Option<&TypeInfo>)
        ensures
            match r {
                Some(ti) => char_type < self.types@.len() && self.types@[char_type as int] == Some(*ti),
                None => char_type >= self.types@.len() || self.types@[char_type as int] is None,
            },
    {
        if (char_type as usize) < self.types.len() {
            match &self.types[char_type as usize] {
                Some(ti) => Some(ti),
                None => None,
            }
        } else {
            None
        }
    }

    /// The glue or kern that goes between character types `left` and `right`.
    pub fn glue_kern_between(&self, left: u8, right: u8) -> (r: Option<GlueKernOp>)
        ensures
            r == if left < self.types@.len() {
                match self.types@[left as int] {
                    Some(ti) => match ti.glue_kern_start {
                        Some(s) => run_glue_kern(self.glue_kern@, s as int, right),
                        None => None,
                    },
                    None => None,
                }
            } else {
                None
            },
    {
        let start = match self.type_info(left) {
            Some(ti) => match ti.glue_kern_start {
                Some(s) => s,
                None => return None,
            },
            None => return None,
        };
        self.run_from(start, right)
    }

    fn run_from(&self, start: usize, right: u8) -> (r: Option<GlueKernOp>)
        ensures
            r == run_glue_kern(self.glue_kern@, start as int, right),
    {
        let mut i = start;
        loop
            invariant
                run_glue_kern(self.glue_kern@, i as int, right)
                    == run_glue_kern(self.glue_kern@, start as int, right),
            decreases self.glue_kern@.len() - i,
        {
            if i >= self.glue_kern.len() {
                return None;
            }
            let s = self.glue_kern[i];
            if s.next_type == right && s.skip <= 128 {
                return Some(s.op);
            }
            if s.skip >= 128 {
                return None;
            }
            if s.skip as usize >= self.glue_kern.len() - i - 1 {
                return None;
            }
            i = i + s.skip as usize + 1;
        }
    }
}

/// A pTeX JFM leaves the third byte of each char_type entry 0; its codes are
/// then the 16-bit big-endian values of the first two bytes, so upTeX's
/// 24-bit reading agrees with pTeX's.
pub proof fn law_ptex_codes_unchanged(d: Seq<u8>, i: int)
    requires
        0 <= jfm_ct_base(d) + 4 * i,
        jfm_ct_base(d) + 4 * i + 4 <= d.len(),
        d[jfm_ct_base(d) + 4 * i + 2] == 0,
    ensures
        ct_code(d, i) == be16(d, jfm_ct_base(d) + 4 * i),
{
}

/// A glue/kern program answers for the type `right` with the first
/// instruction on its skip chain that names `right` (with a skip byte of at
/// most 128); an instruction for another type stops the program when its
/// skip byte is 128 or more, and otherwise hands over to the instruction
/// `skip + 1` places further on.
pub proof fn law_glue_kern_step(steps: Seq<GlueKernStep>, i: int, right: u8)
    requires
        0 <= i < steps.len(),
    ensures
        steps[i].next_type == right && steps[i].skip <= 128 ==> run_glue_kern(steps, i, right) == Some(steps[i].op),
        steps[i].next_type != right && steps[i].skip >= 128 ==> run_glue_kern(steps, i, right) is None,
        steps[i].next_type != right && steps[i].skip < 128 && i + steps[i].skip + 1 < steps.len()
            ==> run_glue_kern(steps, i, right) == run_glue_kern(steps, i + steps[i].skip + 1, right),
{
}

proof fn lemma_nibbles(x: u8)
    ensures
        (x >> 4) as int == x as int / 16,
        (x & 15) as int == x as int % 16,
        (x >> 2) as int == x as int / 4,
        (x & 3) as int == x as int % 4,
{
    assert((x >> 4) as int == x as int / 16) by (bit_vector);
    assert((x & 15) as int == x as int % 16) by (bit_vector);
    assert((x >> 2) as int == x as int / 4) by (bit_vector);
    assert((x & 3) as int == x as int % 4) by (bit_vector);
}

/// Type `t` of a parsed JFM file takes its dimensions from its own
/// char_info word `w`: the width from the width table at byte 0, the height
/// from the height table at the high half of byte 1, the depth from the
/// depth table at the low half of byte 1, the italic correction from the
/// italic table at the high six bits of byte 2; the type is absent exactly
/// when byte 0 is 0, and it has a glue/kern program exactly when the low two
/// bits of byte 2 are 1.
pub proof fn law_type_dimensions(j: Jfm, d: Seq<u8>, t: int)
    requires
        jfm_check(d) is None,
        jfm_matches(j, d),
        0 <= t < j.types@.len(),
    ensures
        ({
            let w = 28 + 4 * jw(d, 3) + 4 * jw(d, 1) + 4 * t;
            &&& (j.types@[t] is None <==> d[w] == 0)
            &&& (j.types@[t] matches Some(c) ==> {
                &&& c.width == fix_at(d, jfm_width_base(d) + 4 * d[w])
                &&& c.height == fix_at(d, jfm_height_base(d) + 4 * (d[w + 1] / 16))
                &&& c.depth == fix_at(d, jfm_depth_base(d) + 4 * (d[w + 1] % 16))
                &&& c.italic == fix_at(d, jfm_italic_base(d) + 4 * (d[w + 2] / 4))
                &&& (c.glue_kern_start is Some <==> d[w + 2] % 4 == 1)
            })
        }),
{
    let w = 28 + 4 * jw(d, 3) + 4 * jw(d, 1) + 4 * t;
    assert(j.types@[t] == type_entry(d, t));
    lemma_nibbles(d[w + 1]);
    lemma_nibbles(d[w + 2]);
}

/// Each glue/kern instruction of a parsed JFM file is its four bytes: the
/// skip byte, the next type, and an operation. With an op byte of 128 or
/// more it is the kern at index `256 * (op - 128) + remainder`; otherwise it
/// is the glue triple at index `g = 256 * op + remainder`, whose width,
/// stretch and shrink are the three words of the glue table from entry
/// `3 * g` on.
pub proof fn law_glue_kern_steps(j: Jfm, d: Seq<u8>, i: int)
    requires
        jfm_check(d) is None,
        jfm_matches(j, d),
        0 <= i < j.glue_kern@.len(),
    ensures
        ({
            let p = jfm_gk_base(d) + 4 * i;
            &&& j.glue_kern@[i].skip == d[p]
            &&& j.glue_kern@[i].next_type == d[p + 1]
            &&& (d[p + 2] >= 128 ==> j.glue_kern@[i].op
                == GlueKernOp::Kern(fix_at(d, jfm_kern_base(d) + 4 * (256 * (d[p + 2] - 128) + d[p + 3]))))
            &&& (d[p + 2] < 128 ==> {
                let g = 256 * d[p + 2] + d[p + 3];
                j.glue_kern@[i].op == GlueKernOp::Glue(Glue {
                    width: fix_at(d, jfm_glue_base(d) + 4 * (3 * g)),
                    stretch: fix_at(d, jfm_glue_base(d) + 4 * (3 * g + 1)),
                    shrink: fix_at(d, jfm_glue_base(d) + 4 * (3 * g + 2)),
                })
            })
        }),
{
    assert(j.glue_kern@[i] == gk_step(d, i));
}

/// Each entry of the char_type table of a parsed JFM file is the code of
/// its first three bytes (the third the high byte, upTeX) and the type in
/// its fourth byte.
pub proof fn law_char_type_entries(j: Jfm, d: Seq<u8>, i: int)
    requires
        jfm_check(d) is None,
        jfm_matches(j, d),
        0 <= i < j.char_types@.len(),
    ensures
        ({
            let p = 28 + 4 * jw(d, 3) + 4 * i;
            &&& j.char_types@[i].0 as int == d[p + 2] * 65536 + d[p] * 256 + d[p + 1]
            &&& j.char_types@[i].1 == d[p + 3]
        }),
{
    assert(j.char_types@[i] == (ct_code(d, i) as u32, ct_type(d, i)));
    assert(ct_code(d, i) < 0x1_0000_0000);
}

/// A code's character type is that of the first table entry listing the
/// code, and 0 when no entry lists it.
pub proof fn law_type_of_code(cts: Seq<(u32, u8)>, code: u32)
    ensures
        (forall|i: int| 0 <= i < cts.len() ==> (#[trigger] cts[i]).0 != code) ==> type_of_code(cts, code) == 0,
        forall|i: int| 0 <= i < cts.len() && (#[trigger] cts[i]).0 == code
            && (forall|j: int| 0 <= j < i ==> (#[trigger] cts[j]).0 != code) ==> type_of_code(cts, code) == cts[i].1,
    decreases cts.len(),
{
    if cts.len() > 0 {
        law_type_of_code(cts.drop_first(), code);
        assert forall|i: int| 0 <= i < cts.len() && (#[trigger] cts[i]).0 == code
            && (forall|j: int| 0 <= j < i ==> (#[trigger] cts[j]).0 != code) implies type_of_code(cts, code) == cts[i].1 by {
            if i > 0 {
                assert(cts[0].0 != code);
                assert(cts.drop_first()[i - 1] == cts[i]);
                assert forall|j: int| 0 <= j < i - 1 implies (#[trigger] cts.drop_first()[j]).0 != code by {
                    assert(cts.drop_first()[j] == cts[j + 1]);
                }
            }
        }
        if forall|i: int| 0 <= i < cts.len() ==> (#[trigger] cts[i]).0 != code {
            assert forall|i: int| 0 <= i < cts.drop_first().len() implies (#[trigger] cts.drop_first()[i]).0 != code by {
                assert(cts.drop_first()[i] == cts[i + 1]);
            }
        }
    }
}

/// The header and parameters of a parsed JFM file, word by word: the
/// writing direction from the id (11 horizontal, 9 vertical), the checksum
/// and design size as the first two header words, and parameter `i` as the
/// `i`-th word of the parameter table.
pub proof fn law_jfm_header(j: Jfm, d: Seq<u8>)
    requires
        jfm_check(d) is None,
        jfm_matches(j, d),
    ensures
        (d[0] * 256 + d[1] == 11) ==> j.direction == Direction::Yoko,
        (d[0] * 256 + d[1] == 9) ==> j.direction == Direction::Tate,
        j.checksum as int == d[28] * 0x100_0000 + d[29] * 0x1_0000 + d[30] * 0x100 + d[31],
        j.design_size == fix_at(d, 32),
        j.types@.len() == d[10] * 256 + d[11] + 1,
        forall|i: int| 0 <= i < j.params@.len() ==> #[trigger] j.params@[i] == fix_at(d, jfm_param_base(d) + 4 * i),
{
    assert(be32(d, 28) == d[28] * 0x100_0000 + d[29] * 0x1_0000 + d[30] * 0x100 + d[31]);
}

proof fn lemma_gks_error_none(d: Seq<u8>, n: int, i: int)
    requires
        0 <= i < n,
        gks_error(d, n) is None,
    ensures
        gk_error(d, i) is None,
    decreases n - i,
{
    if i < n - 1 {
        lemma_gks_error_none(d, n - 1, i);
    }
}

proof fn lemma_types_error_none(d: Seq<u8>, n: int, t: int)
    requires
        0 <= t < n,
        types_error(d, n) is None,
    ensures
        type_error(d, t) is None,
    decreases n - t,
{
    if t < n - 1 {
        lemma_types_error_none(d, n - 1, t);
    }
}

/// What a file that `parse` accepts has been checked to be: its id is 11
/// or 9, `bc` is 0, its length is `4 * lf` bytes and `lf` is the sum of the
/// subfile lengths, the header has at least two words, the glue table holds
/// whole triples, every type's indices lie inside their tables, and every
/// glue/kern instruction names an existing kern or glue triple.
pub proof fn law_jfm_accepted(d: Seq<u8>)
    requires
        jfm_check(d) is None,
    ensures
        d.len() >= 28,
        jw(d, 0) == 11 || jw(d, 0) == 9,
        jw(d, 4) == 0,
        d.len() == 4 * jw(d, 2),
        jw(d, 2) == 7 + jw(d, 3) + jw(d, 1) + (jw(d, 5) + 1) + jw(d, 6) + jw(d, 7) + jw(d, 8) + jw(d, 9)
            + jw(d, 10) + jw(d, 11) + jw(d, 12) + jw(d, 13),
        jw(d, 3) >= 2,
        jw(d, 12) % 3 == 0,
        forall|t: int| 0 <= t < jw(d, 5) + 1 && #[trigger] d[jfm_type_base(d) + 4 * t] != 0 ==> {
            let w = jfm_type_base(d) + 4 * t;
            &&& d[w] < jw(d, 6)
            &&& d[w + 1] / 16 < jw(d, 7)
            &&& d[w + 1] % 16 < jw(d, 8)
            &&& d[w + 2] / 4 < jw(d, 9)
        },
        forall|i: int| #![trigger gb(d, i, 2)] 0 <= i < jw(d, 10) ==> {
            &&& (gb(d, i, 2) >= 128 ==> 256 * (gb(d, i, 2) - 128) + gb(d, i, 3) < jw(d, 11))
            &&& (gb(d, i, 2) < 128 ==> 256 * gb(d, i, 2) + gb(d, i, 3) < jw(d, 12) / 3)
        },
{
    assert forall|t: int| 0 <= t < jw(d, 5) + 1 && #[trigger] d[jfm_type_base(d) + 4 * t] != 0 implies {
        let w = jfm_type_base(d) + 4 * t;
        &&& d[w] < jw(d, 6)
        &&& d[w + 1] / 16 < jw(d, 7)
        &&& d[w + 1] % 16 < jw(d, 8)
        &&& d[w + 2] / 4 < jw(d, 9)
    } by {
        lemma_types_error_none(d, jfm_nc(d), t);
        let w = jfm_type_base(d) + 4 * t;
        lemma_nibbles(d[w + 1]);
        lemma_nibbles(d[w + 2]);
    }
    assert forall|i: int| #![trigger gb(d, i, 2)] 0 <= i < jw(d, 10) implies {
        &&& (gb(d, i, 2) >= 128 ==> 256 * (gb(d, i, 2) - 128) + gb(d, i, 3) < jw(d, 11))
        &&& (gb(d, i, 2) < 128 ==> 256 * gb(d, i, 2) + gb(d, i, 3) < jw(d, 12) / 3)
    } by {
        lemma_gks_error_none(d, jfm_nl(d), i);
    }
}

} // verus!

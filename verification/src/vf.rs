//! VF (virtual font) files, after vftovp.web.
//!
//! A VF file goes with a TFM file and defines each character as characters
//! of real fonts plus DVI commands. Only the structure is read here; running
//! the DVI commands is up to the caller.

use vstd::prelude::*;
use crate::fix::Fix;
use crate::message::{decimal, text_num};
use crate::reader::{err, fix_at, is_error, msg_need, msg_unexpected_end, ParseError, Reader};
use crate::text::{be16, be24, be32, string_from_bytes_lossy, utf8_lossy};

verus! {

pub const PRE: u8 = 247;
pub const ID: u8 = 202;
pub const LONG_CHAR: u8 = 242;
pub const FNT_DEF1: u8 = 243;
pub const POST: u8 = 248;

#[derive(Debug, Clone, PartialEq, Eq)]
pub struct FontDef {
    /// The `fnt_def` number that `fnt` commands in the packets refer to.
    pub number: u32,
    pub checksum: u32,
    /// The scale of the real font (relative to the design size; a fix_word).
    pub scale: Fix,
    /// The design size of the real font (a fix_word times 1pt).
    pub design_size: Fix,
    pub area: String,
    pub name: String,
}

#[derive(Debug, Clone, PartialEq, Eq)]
pub struct VfChar {
    pub code: u32,
    /// The TFM width (a fix_word; must agree with the companion TFM file).
    pub width: Fix,
    /// The DVI commands of the packet.
    pub dvi: Vec<u8>,
}

#[derive(Debug, Clone, PartialEq)]
pub struct Vf {
    pub comment: String,
    pub checksum: u32,
    pub design_size: Fix,
    pub fonts: Vec<FontDef>,
    pub chars: Vec<VfChar>,
}

/// A font definition as numbers and decoded names.
pub type FontModel = (u32, u32, Fix, Fix, Seq<char>, Seq<char>);

/// A character packet: code, width and DVI bytes.
pub type CharModel = (u32, Fix, Seq<u8>);

impl View for FontDef {
    type V = FontModel;

    open spec fn view(&self) -> FontModel {
        (self.number, self.checksum, self.scale, self.design_size, self.area@, self.name@)
    }
}

impl View for VfChar {
    type V = CharModel;

    open spec fn view(&self) -> CharModel {
        (self.code, self.width, self.dvi@)
    }
}

/// One command of the body: a font definition or a character packet, and
/// the position after it.
pub enum VfItem {
    Font(FontModel),
    Char(CharModel),
}

/// The `n`-byte big-endian number at `p`.
pub open spec fn be_n(d: Seq<u8>, p: int, n: int) -> int
    decreases n,
{
    if n <= 0 {
        0
    } else {
        be_n(d, p, n - 1) * 256 + d[p + n - 1]
    }
}

/// The command at `p`: `Ok(None)` for `post`, `Ok(Some((item, next)))`, or
/// the error (offset, message) the reader meets.
pub open spec fn vf_item(d: Seq<u8>, p: int) -> Result<Option<(VfItem, int)>, (int, Seq<char>)> {
    let len = d.len() as int;
    if p >= len {
        Err((len, msg_unexpected_end()))
    } else {
        let op = d[p] as int;
        if 243 <= op <= 246 {
            let n = op - 242;
            let r = p + 1 + n;
            if r + 14 > len {
                Err((len, msg_unexpected_end()))
            } else {
                let a = d[r + 12] as int;
                let l = d[r + 13] as int;
                let s = r + 14;
                if s + a > len {
                    Err((s, msg_need(a)))
                } else if s + a + l > len {
                    Err((s + a, msg_need(l)))
                } else {
                    Ok(Some((VfItem::Font((
                        be_n(d, p + 1, n) as u32,
                        be32(d, r) as u32,
                        fix_at(d, r + 4),
                        fix_at(d, r + 8),
                        utf8_lossy(d.subrange(s, s + a)),
                        utf8_lossy(d.subrange(s + a, s + a + l)),
                    )), s + a + l)))
                }
            }
        } else if op == 242 {
            if p + 13 > len {
                Err((len, msg_unexpected_end()))
            } else {
                let pl = be32(d, p + 1);
                let s = p + 13;
                if s + pl > len {
                    Err((s, msg_need(pl)))
                } else {
                    Ok(Some((VfItem::Char((be32(d, p + 5) as u32, fix_at(d, p + 9), d.subrange(s, s + pl))), s + pl)))
                }
            }
        } else if op <= 241 {
            if p + 5 > len {
                Err((len, msg_unexpected_end()))
            } else {
                let s = p + 5;
                if s + op > len {
                    Err((s, msg_need(op)))
                } else {
                    Ok(Some((VfItem::Char((d[p + 1] as u32, Fix(be24(d, p + 2) as i32), d.subrange(s, s + op))), s + op)))
                }
            }
        } else if op == 248 {
            Ok(None)
        } else {
            Err((p, "unexpected opcode "@ + decimal(op as nat) + " in VF"@))
        }
    }
}

/// The font definitions and packets from `p` up to `post`, in order, or the
/// first error.
pub open spec fn vf_body(d: Seq<u8>, p: int) -> Result<(Seq<FontModel>, Seq<CharModel>), (int, Seq<char>)>
    decreases d.len() - p,
{
    match vf_item(d, p) {
        Err(e) => Err(e),
        Ok(None) => Ok((Seq::empty(), Seq::empty())),
        Ok(Some((item, next))) => if next <= p {
            Err((p, Seq::empty()))
        } else {
            match vf_body(d, next) {
                Err(e) => Err(e),
                Ok((fs, cs)) => match item {
                    VfItem::Font(f) => Ok((seq![f] + fs, cs)),
                    VfItem::Char(c) => Ok((fs, seq![c] + cs)),
                },
            }
        },
    }
}

/// What parsing `d` yields: (comment, checksum, design size, fonts, chars)
/// or the error (offset, message).
pub open spec fn vf_spec(d: Seq<u8>) -> Result<(Seq<char>, u32, Fix, Seq<FontModel>, Seq<CharModel>), (int, Seq<char>)> {
    let len = d.len() as int;
    if len < 1 {
        Err((len, msg_unexpected_end()))
    } else if d[0] != 247 {
        Err((0, "not a VF file"@))
    } else if len < 2 {
        Err((len, msg_unexpected_end()))
    } else if d[1] != 202 {
        Err((0, "not a VF file"@))
    } else if len < 3 {
        Err((len, msg_unexpected_end()))
    } else if 3 + d[2] > len {
        Err((3, msg_need(d[2] as int)))
    } else if 3 + d[2] + 8 > len {
        Err((len, msg_unexpected_end()))
    } else {
        let k = d[2] as int;
        match vf_body(d, 11 + k) {
            Err(e) => Err(e),
            Ok((fs, cs)) => Ok((utf8_lossy(d.subrange(3, 3 + k)), be32(d, 3 + k) as u32, fix_at(d, 7 + k), fs, cs)),
        }
    }
}

/// Glues the items already read in front of what the rest of the body gives.
pub open spec fn prepend(
    fs: Seq<FontModel>,
    cs: Seq<CharModel>,
    r: Result<(Seq<FontModel>, Seq<CharModel>), (int, Seq<char>)>,
) -> Result<(Seq<FontModel>, Seq<CharModel>), (int, Seq<char>)> {
    match r {
        Err(e) => Err(e),
        Ok((f, c)) => Ok((fs + f, cs + c)),
    }
}

/// The first character of the list with code `code`.
pub open spec fn first_with_code(cs: Seq<VfChar>, code: u32) -> Option<int> {
    if exists|i: int| 0 <= i < cs.len() && #[trigger] cs[i].code == code {
        Some(choose|i: int| 0 <= i < cs.len() && cs[i].code == code
            && forall|j: int| 0 <= j < i ==> #[trigger] cs[j].code != code)
    } else {
        None
    }
}

impl Vf {
    /// Parses a VF file; the result is exactly what `vf_spec` says.
    pub fn parse(data: &[u8]) -> (res: Result<Vf, ParseError>)
        ensures
            match (res, vf_spec(data@)) {
                (Ok(v), Ok((comment, checksum, design_size, fonts, chars))) => {
                    &&& v.comment@ == comment
                    &&& v.checksum == checksum
                    &&& v.design_size == design_size
                    &&& v.fonts@.map_values(|f: FontDef| f@) == fonts
                    &&& v.chars@.map_values(|c: VfChar| c@) == chars
                },
                (Err(e), Err((offset, msg))) => e.offset == offset && e.message@ == msg,
                _ => false,
            },
    {
        let ghost d = data@;
        let mut r = Reader::new(data);
        if r.u8()? != PRE {
            return Err(err(0, "not a VF file"));
        }
        if r.u8()? != ID {
            return Err(err(0, "not a VF file"));
        }
        let k = r.u8()? as usize;
        let comment = string_from_bytes_lossy(r.bytes(k)?);
        let checksum = r.u32()?;
        let design_size = r.fix()?;
        let mut fonts: Vec<FontDef> = Vec::new();
        let mut chars: Vec<VfChar> = Vec::new();
        let ghost whole = vf_spec(d);
        assert(whole == match vf_body(d, 11 + k as int) {
            Err(e) => Err(e),
            Ok((fs, cs)) => Ok((comment@, checksum, design_size, fs, cs)),
        });
        assert(fonts@.map_values(|f: FontDef| f@) =~= Seq::<FontModel>::empty());
        assert(chars@.map_values(|c: VfChar| c@) =~= Seq::<CharModel>::empty());
        assert(vf_body(d, 11 + k as int) == prepend(Seq::empty(), Seq::empty(), vf_body(d, r.pos as int))) by {
            match vf_body(d, r.pos as int) {
                Err(_) => {},
                Ok((f, c)) => {
                    assert(Seq::<FontModel>::empty() + f =~= f);
                    assert(Seq::<CharModel>::empty() + c =~= c);
                },
            }
        }
        loop
            invariant_except_break
                d == data@,
                whole == vf_spec(d),
                whole == match vf_body(d, 11 + k as int) {
                    Err(e) => Err(e),
                    Ok((fs, cs)) => Ok((comment@, checksum, design_size, fs, cs)),
                },
                r.data@ == d,
                r.pos <= d.len(),
                3 + k + 8 <= d.len(),
                vf_body(d, 11 + k) == prepend(
                    fonts@.map_values(|f: FontDef| f@),
                    chars@.map_values(|c: VfChar| c@),
                    vf_body(d, r.pos as int),
                ),
            ensures
                d == data@,
                whole == vf_spec(d),
                whole == match vf_body(d, 11 + k as int) {
                    Err(e) => Err(e),
                    Ok((fs, cs)) => Ok((comment@, checksum, design_size, fs, cs)),
                },
                r.data@ == d,
                3 + k + 8 <= d.len(),
                vf_body(d, 11 + k) == Ok::<(Seq<FontModel>, Seq<CharModel>), (int, Seq<char>)>((
                    fonts@.map_values(|f: FontDef| f@),
                    chars@.map_values(|c: VfChar| c@),
                )),
            decreases d.len() - r.pos,
        {
            let ghost p = r.pos as int;
            let ghost fs0 = fonts@.map_values(|f: FontDef| f@);
            let ghost cs0 = chars@.map_values(|c: VfChar| c@);
            assert(vf_body(d, 11 + k as int) == prepend(fs0, cs0, vf_body(d, p)));
            match read_item(&mut r) {
                Ok(Some(Item::Font(f))) => {
                    fonts.push(f);
                    proof {
                        assert(fonts@.map_values(|f: FontDef| f@) =~= fs0.push(f@));
                        lemma_prepend_font(fs0, cs0, f@, vf_body(d, r.pos as int));
                    }
                },
                Ok(Some(Item::Char(c))) => {
                    chars.push(c);
                    proof {
                        assert(chars@.map_values(|c: VfChar| c@) =~= cs0.push(c@));
                        lemma_prepend_char(fs0, cs0, c@, vf_body(d, r.pos as int));
                    }
                },
                Ok(None) => {
                    proof {
                        assert(fs0 + Seq::<FontModel>::empty() =~= fs0);
                        assert(cs0 + Seq::<CharModel>::empty() =~= cs0);
                    }
                    break;
                },
                Err(e) => {
                    proof {
                        assert(vf_item(d, p) is Err);
                        assert(vf_item(d, p)->Err_0 == (e.offset as int, e.message@));
                        assert(vf_body(d, p) == Err::<(Seq<FontModel>, Seq<CharModel>), (int, Seq<char>)>((e.offset as int, e.message@)));
                        assert(vf_body(d, 11 + k as int) == Err::<(Seq<FontModel>, Seq<CharModel>), (int, Seq<char>)>((e.offset as int, e.message@)));
                    }
                    return Err(e);
                },
            }
        }
        Ok(Vf { comment, checksum, design_size, fonts, chars })
    }

    /// The first packet for `code`, if any.
    pub fn char(&self, code: u32) -> (r: Option<&VfChar>)
        ensures
            match r {
                Some(c) => first_with_code(self.chars@, code) matches Some(i) && self.chars@[i] == *c,
                None => first_with_code(self.chars@, code) is None,
            },
    {
        let mut i: usize = 0;
        while i < self.chars.len()
            invariant
                i <= self.chars@.len(),
                forall|j: int| 0 <= j < i ==> #[trigger] self.chars@[j].code != code,
            decreases self.chars@.len() - i,
        {
            if self.chars[i].code == code {
                proof {
                    let w = choose|w: int| 0 <= w < self.chars@.len() && self.chars@[w].code == code
                        && forall|j: int| 0 <= j < w ==> #[trigger] self.chars@[j].code != code;
                    assert(0 <= i < self.chars@.len() && self.chars@[i as int].code == code
                        && forall|j: int| 0 <= j < i ==> #[trigger] self.chars@[j].code != code);
                    if w < i {
                        assert(self.chars@[w].code != code);
                    } else if w > i {
                        assert(self.chars@[i as int].code != code);
                    }
                }
                return Some(&self.chars[i]);
            }
            i = i + 1;
        }
        None
    }
}

proof fn lemma_prepend_font(
    fs: Seq<FontModel>,
    cs: Seq<CharModel>,
    f: FontModel,
    r: Result<(Seq<FontModel>, Seq<CharModel>), (int, Seq<char>)>,
)
    ensures
        prepend(fs, cs, match r {
            Err(e) => Err(e),
            Ok((f2, c2)) => Ok((seq![f] + f2, c2)),
        }) == prepend(fs.push(f), cs, r),
{
    match r {
        Err(_) => {},
        Ok((f2, c2)) => {
            assert(fs + (seq![f] + f2) =~= fs.push(f) + f2);
        },
    }
}

proof fn lemma_prepend_char(
    fs: Seq<FontModel>,
    cs: Seq<CharModel>,
    c: CharModel,
    r: Result<(Seq<FontModel>, Seq<CharModel>), (int, Seq<char>)>,
)
    ensures
        prepend(fs, cs, match r {
            Err(e) => Err(e),
            Ok((f2, c2)) => Ok((f2, seq![c] + c2)),
        }) == prepend(fs, cs.push(c), r),
{
    match r {
        Err(_) => {},
        Ok((f2, c2)) => {
            assert(cs + (seq![c] + c2) =~= cs.push(c) + c2);
        },
    }
}

enum Item {
    Font(FontDef),
    Char(VfChar),
}

/// Reads the command at the reader's position.
fn read_item(r: &mut Reader) -> (res: Result<Option<Item>, ParseError>)
    requires
        old(r).pos <= old(r).data@.len(),
    ensures
        final(r).data@ == old(r).data@,
        match (res, vf_item(old(r).data@, old(r).pos as int)) {
            (Ok(None), Ok(None)) => true,
            (Ok(Some(Item::Font(f))), Ok(Some((VfItem::Font(m), next)))) =>
                f@ == m && final(r).pos == next && next <= old(r).data@.len(),
            (Ok(Some(Item::Char(c))), Ok(Some((VfItem::Char(m), next)))) =>
                c@ == m && final(r).pos == next && next <= old(r).data@.len(),
            (Err(e), Err((offset, msg))) => e.offset == offset && e.message@ == msg,
            _ => false,
        },
{
    let ghost d = r.data@;
    let ghost p = r.pos as int;
    let at = r.pos;
    let op = r.u8()?;
    if op >= FNT_DEF1 && op <= 246 {
        let n = (op - FNT_DEF1) as usize + 1;
        let mut number: u32 = 0;
        let mut i: usize = 0;
        while i < n
            invariant
                d == old(r).data@,
                p == old(r).pos,
                op == d[p],
                p < d.len(),
                n == op - 242,
                r.data@ == d,
                1 <= n <= 4,
                i <= n,
                r.pos == p + 1 + i,
                r.pos <= d.len(),
                number == be_n(d, p + 1, i as int),
                number < pow256(i as int),
            decreases n - i,
        {
            let b = r.u8()?;
            proof {
                assert(be_n(d, p + 1, i + 1) == be_n(d, p + 1, i as int) * 256 + d[p + 1 + i]);
                reveal_with_fuel(pow256, 4);
                assert(pow256(i as int) <= 16777216);
            }
            number = number * 256 + b as u32;
            i = i + 1;
        }
        let checksum = r.u32()?;
        let scale = r.fix()?;
        let design_size = r.fix()?;
        let a = r.u8()? as usize;
        let l = r.u8()? as usize;
        let area = string_from_bytes_lossy(r.bytes(a)?);
        let name = string_from_bytes_lossy(r.bytes(l)?);
        Ok(Some(Item::Font(FontDef { number, checksum, scale, design_size, area, name })))
    } else if op == LONG_CHAR {
        let pl = r.u32()? as usize;
        let code = r.u32()?;
        let width = r.fix()?;
        let dvi = vstd::slice::slice_to_vec(r.bytes(pl)?);
        Ok(Some(Item::Char(VfChar { code, width, dvi })))
    } else if op <= 241 {
        let pl = op as usize;
        let code = r.u8()? as u32;
        let width = Fix(r.u24()? as i32);
        let dvi = vstd::slice::slice_to_vec(r.bytes(pl)?);
        Ok(Some(Item::Char(VfChar { code, width, dvi })))
    } else if op == POST {
        Ok(None)
    } else {
        Err(ParseError { offset: at, message: text_num("unexpected opcode ", op as u64, " in VF") })
    }
}

pub open spec fn pow256(i: int) -> int
    decreases i,
{
    if i <= 0 { 1 } else { 256 * pow256(i - 1) }
}

/// A font definition at `p` (`fnt_def1` to `fnt_def4`, opcode `242 + n`)
/// holds the `n`-byte font number, then three 4-byte words in this order:
/// the checksum, the scale and the design size. The font list that the
/// body from `p` gives starts with that font, and its scale and design size
/// are the second and third of those words.
pub proof fn law_font_def(d: Seq<u8>, p: int)
    requires
        0 <= p < d.len(),
        243 <= d[p] <= 246,
        vf_body(d, p) is Ok,
    ensures
        ({
            let n = d[p] - 242;
            let fs = vf_body(d, p)->Ok_0.0;
            &&& fs.len() > 0
            &&& fs[0].0 as int == be_n(d, p + 1, n) % 0x1_0000_0000
            &&& fs[0].1 as int == be32(d, p + 1 + n) % 0x1_0000_0000
            &&& fs[0].2 == fix_at(d, p + 1 + n + 4)
            &&& fs[0].3 == fix_at(d, p + 1 + n + 8)
        }),
{
    let n = d[p] - 242;
    lemma_be_n_bounds(d, p + 1, n);
    assert(0 <= be32(d, p + 1 + n) < 0x1_0000_0000) by {
        let r = p + 1 + n;
        assert(0 <= be16(d, r) < 65536);
        assert(0 <= be16(d, r + 2) < 65536);
    }
}

/// A character packet at `p` gives the first character of the body from
/// `p`: a `long_char` (opcode 242) its 4-byte code at `p + 5`, its TFM
/// width at `p + 9` and the packet of the length at `p + 1` from `p + 13`;
/// a short packet (opcode below 242, the packet's length) its code at
/// `p + 1`, its 3-byte width at `p + 2` and the packet from `p + 5`.
pub proof fn law_char_packet(d: Seq<u8>, p: int)
    requires
        0 <= p < d.len(),
        d[p] <= 242,
        vf_body(d, p) is Ok,
    ensures
        ({
            let cs = vf_body(d, p)->Ok_0.1;
            &&& cs.len() > 0
            &&& d[p] == 242 ==> cs[0].1 == fix_at(d, p + 9) && cs[0].2 == d.subrange(p + 13, p + 13 + be32(d, p + 1))
                && cs[0].0 as int == be32(d, p + 5) % 0x1_0000_0000
            &&& d[p] < 242 ==> cs[0].0 == d[p + 1] as u32 && cs[0].1 == Fix(be24(d, p + 2) as i32)
                && cs[0].2 == d.subrange(p + 5, p + 5 + d[p])
        }),
{
    if d[p] == 242 {
        let r = p + 5;
        assert(0 <= be16(d, r) < 65536);
        assert(0 <= be16(d, r + 2) < 65536);
    }
}

proof fn lemma_be_n_bounds(d: Seq<u8>, p: int, n: int)
    requires
        0 <= n <= 4,
    ensures
        0 <= be_n(d, p, n) < pow256(n),
        pow256(n) <= 0x1_0000_0000,
    decreases n,
{
    if n > 0 {
        lemma_be_n_bounds(d, p, n - 1);
        assert(pow256(n) == 256 * pow256(n - 1));
        assert(pow256(0) == 1);
        assert(pow256(1) == 256);
        assert(pow256(2) == 65536);
        assert(pow256(3) == 16777216);
        assert(pow256(4) == 0x1_0000_0000);
    }
}

/// The preamble of a VF file: `pre`, `id` 202, the comment length `k` and
/// the comment, then the checksum and the design size as two 4-byte words;
/// the font definitions and packets are those of the body that follows.
pub proof fn law_vf_preamble(d: Seq<u8>)
    requires
        vf_spec(d) is Ok,
    ensures
        ({
            let k = d[2] as int;
            let v = vf_spec(d)->Ok_0;
            &&& d[0] == 247 && d[1] == 202
            &&& v.1 as int == d[3 + k] * 0x100_0000 + d[4 + k] * 0x1_0000 + d[5 + k] * 0x100 + d[6 + k]
            &&& v.2 == fix_at(d, 7 + k)
            &&& vf_body(d, 11 + k) == Ok::<(Seq<FontModel>, Seq<CharModel>), (int, Seq<char>)>((v.3, v.4))
        }),
{
    let k = d[2] as int;
    assert(be32(d, 3 + k) == d[3 + k] * 0x100_0000 + d[4 + k] * 0x1_0000 + d[5 + k] * 0x100 + d[6 + k]);
}

} // verus!

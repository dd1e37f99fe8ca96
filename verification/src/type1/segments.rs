//! Splitting a Type 1 font file into its clear text and its eexec part: the
//! segments of a PFB file, or the text of a PFA file with its eexec part in
//! hexadecimal or in binary.

use vstd::prelude::*;
use crate::glyph::{gerr, GlyphError};
use crate::message::{decimal, text_num};
use crate::type1::search::{find, find_seq};

verus! {

/// The little-endian 32-bit length of the PFB segment whose header starts at `p`.
pub open spec fn le32(d: Seq<u8>, p: int) -> int {
    d[p + 2] as int + d[p + 3] as int * 256 + d[p + 4] as int * 65536 + d[p + 5] as int * 16777216
}

/// The segments from `pos` on, added to `clear` and `binary`: type 1 text
/// counts only before the first binary segment, type 3 ends the file, and so
/// does the first position without a segment header. The error: a segment
/// runs past the end of the data, or has an unknown type.
pub open spec fn pfb_from(d: Seq<u8>, pos: int, clear: Seq<u8>, binary: Seq<u8>) -> Result<(Seq<u8>, Seq<u8>), Seq<char>>
    decreases d.len() - pos,
{
    if pos < 0 || pos + 6 > d.len() || d[pos] != 0x80 || d[pos + 1] == 3 {
        Ok((clear, binary))
    } else {
        let kind = d[pos + 1];
        let len = le32(d, pos);
        let seg = d.subrange(pos + 6, pos + 6 + len);
        if pos + 6 + len > d.len() {
            Err("truncated PFB segment"@)
        } else if kind == 1 {
            pfb_from(d, pos + 6 + len, if binary.len() == 0 { clear + seg } else { clear }, binary)
        } else if kind == 2 {
            pfb_from(d, pos + 6 + len, clear, binary + seg)
        } else {
            Err("bad PFB segment type "@ + decimal(kind as nat))
        }
    }
}

/// Line ends, spaces and tabs.
pub open spec fn is_eol_or_blank(c: u8) -> bool {
    c == 13 || c == 10 || c == 32 || c == 9
}

/// The first position at or after `p` that holds no line end or blank.
pub open spec fn skip_blanks(d: Seq<u8>, p: int) -> int
    decreases d.len() - p,
{
    if 0 <= p < d.len() && is_eol_or_blank(d[p]) {
        skip_blanks(d, p + 1)
    } else {
        p
    }
}

pub open spec fn is_hex_digit(c: u8) -> bool {
    (48 <= c <= 57) || (97 <= c <= 102) || (65 <= c <= 70)
}

pub open spec fn hex_value(c: u8) -> u8 {
    if 48 <= c <= 57 {
        (c - 48) as u8
    } else if 97 <= c <= 102 {
        (c - 97 + 10) as u8
    } else {
        (c - 65 + 10) as u8
    }
}

/// The bytes that the hexadecimal digits of `s` spell, two digits to a byte,
/// with every other byte passed over; `hi` is a first digit already read.
/// A last lone digit is dropped.
pub open spec fn hex_bytes(s: Seq<u8>, hi: Option<u8>) -> Seq<u8>
    decreases s.len(),
{
    if s.len() == 0 {
        Seq::empty()
    } else if !is_hex_digit(s[0]) {
        hex_bytes(s.drop_first(), hi)
    } else {
        match hi {
            None => hex_bytes(s.drop_first(), Some(hex_value(s[0]))),
            Some(h) => seq![(h * 16 + hex_value(s[0])) as u8] + hex_bytes(s.drop_first(), None),
        }
    }
}

/// The eexec part of a PFA file starts with four hexadecimal digits (or with
/// fewer, up to its end) when it is written in hexadecimal.
pub open spec fn starts_hex(rest: Seq<u8>) -> bool {
    forall|i: int| 0 <= i < rest.len() && i < 4 ==> is_hex_digit(#[trigger] rest[i])
}

/// The clear text and the eexec part of a font file, or why it cannot be
/// split.
pub open spec fn split_spec(d: Seq<u8>) -> Result<(Seq<u8>, Seq<u8>), Seq<char>> {
    if d.len() > 0 && d[0] == 0x80 {
        pfb_from(d, 0, Seq::empty(), Seq::empty())
    } else {
        match find_seq(d, seq![101u8, 101, 120, 101, 99], 0) {
            None => Err("no eexec section"@),
            Some(idx) => {
                let rest = d.skip(skip_blanks(d, idx + 5));
                Ok((d.take(idx), if starts_hex(rest) { hex_bytes(rest, None) } else { rest }))
            },
        }
    }
}

fn is_hex_digit_exec(c: u8) -> (r: bool)
    ensures
        r == is_hex_digit(c),
{
    (48 <= c && c <= 57) || (97 <= c && c <= 102) || (65 <= c && c <= 70)
}

fn hex_value_exec(c: u8) -> (r: u8)
    requires
        is_hex_digit(c),
    ensures
        r == hex_value(c),
        r < 16,
{
    if 48 <= c && c <= 57 {
        c - 48
    } else if 97 <= c && c <= 102 {
        c - 97 + 10
    } else {
        c - 65 + 10
    }
}

proof fn lemma_hex_value_small(c: u8)
    requires
        is_hex_digit(c),
    ensures
        hex_value(c) < 16,
{
}

fn append(out: &mut Vec<u8>, s: &[u8], lo: usize, hi: usize)
    requires
        lo <= hi <= s@.len(),
    ensures
        final(out)@ == old(out)@ + s@.subrange(lo as int, hi as int),
{
    let mut i = lo;
    while i < hi
        invariant
            lo <= i <= hi <= s@.len(),
            out@ == old(out)@ + s@.subrange(lo as int, i as int),
        decreases hi - i,
    {
        out.push(s[i]);
        i = i + 1;
        assert(out@ =~= old(out)@ + s@.subrange(lo as int, i as int));
    }
}

fn split_pfb(data: &[u8]) -> (r: Result<(Vec<u8>, Vec<u8>), GlyphError>)
    ensures
        match (r, pfb_from(data@, 0, Seq::empty(), Seq::empty())) {
            (Ok((c, b)), Ok((sc, sb))) => c@ == sc && b@ == sb,
            (Err(e), Err(m)) => e.message@ == m,
            _ => false,
        },
{
    let mut clear: Vec<u8> = Vec::new();
    let mut binary: Vec<u8> = Vec::new();
    let mut pos: usize = 0;
    let n = data.len();
    while n >= 6 && pos <= n - 6 && data[pos] == 0x80 && data[pos + 1] != 3
        invariant
            n == data@.len(),
            pos <= n,
            pfb_from(data@, 0, Seq::empty(), Seq::empty()) == pfb_from(data@, pos as int, clear@, binary@),
        decreases n - pos,
    {
        let kind = data[pos + 1];
        let len: u64 = data[pos + 2] as u64 + data[pos + 3] as u64 * 256 + data[pos + 4] as u64 * 65536
            + data[pos + 5] as u64 * 16777216;
        let room = n - pos - 6;
        if len > room as u64 {
            return Err(gerr("truncated PFB segment"));
        }
        let len = len as usize;
        let end = pos + 6 + len;
        if kind == 1 {
            if binary.len() == 0 {
                append(&mut clear, data, pos + 6, end);
            }
        } else if kind == 2 {
            append(&mut binary, data, pos + 6, end);
        } else {
            let message = text_num("bad PFB segment type ", kind as u64, "");
            proof {
                reveal_strlit("");
                assert(message@ =~= "bad PFB segment type "@ + decimal(kind as nat));
            }
            return Err(GlyphError { message });
        }
        pos = end;
    }
    Ok((clear, binary))
}

fn skip_blanks_exec(d: &[u8], p: usize) -> (r: usize)
    requires
        p <= d@.len(),
    ensures
        r == skip_blanks(d@, p as int),
        p <= r <= d@.len(),
{
    let mut i = p;
    while i < d.len() && (d[i] == 13 || d[i] == 10 || d[i] == 32 || d[i] == 9)
        invariant
            p <= i <= d@.len(),
            skip_blanks(d@, p as int) == skip_blanks(d@, i as int),
        decreases d@.len() - i,
    {
        i = i + 1;
    }
    i
}

fn decode_hex(s: &[u8], lo: usize) -> (out: Vec<u8>)
    requires
        lo <= s@.len(),
    ensures
        out@ == hex_bytes(s@.skip(lo as int), None),
{
    let mut out: Vec<u8> = Vec::new();
    let mut hi: Option<u8> = None;
    let mut i = lo;
    while i < s.len()
        invariant
            lo <= i <= s@.len(),
            hi matches Some(h) ==> h < 16,
            out@ + hex_bytes(s@.skip(i as int), hi) == hex_bytes(s@.skip(lo as int), None),
        decreases s@.len() - i,
    {
        let c = s[i];
        let ghost tail = s@.skip(i as int);
        assert(tail.drop_first() =~= s@.skip(i + 1));
        if is_hex_digit_exec(c) {
            let v = hex_value_exec(c);
            match hi {
                None => {
                    hi = Some(v);
                },
                Some(h) => {
                    let b = h * 16 + v;
                    let ghost old_out = out@;
                    out.push(b);
                    assert(out@ =~= old_out + seq![b]);
                    assert(out@ + hex_bytes(s@.skip(i + 1), None) =~= old_out + (seq![b] + hex_bytes(
                        s@.skip(i + 1),
                        None,
                    )));
                    hi = None;
                },
            }
        }
        i = i + 1;
    }
    assert(s@.skip(i as int) =~= Seq::<u8>::empty());
    assert(out@ + Seq::<u8>::empty() =~= out@);
    out
}

/// The clear text and the eexec part of a Type 1 font file: the joined
/// segments of a PFB file, or for a PFA file the text before `eexec` and what
/// follows it (past line ends and blanks), decoded when it is hexadecimal.
pub fn split_segments(data: &[u8]) -> (r: Result<(Vec<u8>, Vec<u8>), GlyphError>)
    ensures
        match (r, split_spec(data@)) {
            (Ok((c, b)), Ok((sc, sb))) => c@ == sc && b@ == sb,
            (Err(e), Err(m)) => e.message@ == m,
            _ => false,
        },
{
    if data.len() > 0 && data[0] == 0x80 {
        return split_pfb(data);
    }
    let key: [u8; 5] = [101, 101, 120, 101, 99];
    let ks = key.as_slice();
    assert(ks@ =~= seq![101u8, 101, 120, 101, 99]);
    let idx = match find(data, ks) {
        Some(i) => i,
        None => {
            return Err(gerr("no eexec section"));
        },
    };
    let mut clear: Vec<u8> = Vec::new();
    append(&mut clear, data, 0, idx);
    assert(clear@ =~= data@.take(idx as int));
    let start = skip_blanks_exec(data, idx + 5);
    let ghost rest = data@.skip(start as int);
    let mut k: usize = 0;
    let mut hex = true;
    while k < 4 && k < data.len() - start
        invariant
            start <= data@.len(),
            k <= 4,
            rest == data@.skip(start as int),
            hex == (forall|i: int| 0 <= i < rest.len() && i < k ==> is_hex_digit(#[trigger] rest[i])),
        decreases 4 - k,
    {
        let c = data[start + k];
        assert(rest[k as int] == c);
        if !is_hex_digit_exec(c) {
            hex = false;
        }
        k = k + 1;
    }
    assert(hex == starts_hex(rest));
    let binary = if hex {
        decode_hex(data, start)
    } else {
        let mut b: Vec<u8> = Vec::new();
        append(&mut b, data, start, data.len());
        assert(b@ =~= rest);
        b
    };
    Ok((clear, binary))
}

/// The four little-endian bytes of a segment length below 2^32.
pub open spec fn le32_bytes(n: int) -> Seq<u8> {
    let n1 = n / 256;
    let n2 = n1 / 256;
    seq![(n % 256) as u8, (n1 % 256) as u8, (n2 % 256) as u8, (n2 / 256) as u8]
}

/// A PFB file made of one text segment, one binary segment and the end
/// marker.
pub open spec fn pfb_file(clear: Seq<u8>, binary: Seq<u8>) -> Seq<u8> {
    seq![0x80u8, 1] + le32_bytes(clear.len() as int) + clear + seq![0x80u8, 2] + le32_bytes(binary.len() as int)
        + binary + seq![0x80u8, 3]
}

proof fn lemma_le32_bytes(d: Seq<u8>, p: int, n: int)
    requires
        0 <= n < 4294967296,
        0 <= p,
        p + 6 <= d.len(),
        d.subrange(p + 2, p + 6) == le32_bytes(n),
    ensures
        le32(d, p) == n,
{
    let n1 = n / 256;
    let n2 = n1 / 256;
    assert(d[p + 2] == d.subrange(p + 2, p + 6)[0]);
    assert(d[p + 3] == d.subrange(p + 2, p + 6)[1]);
    assert(d[p + 4] == d.subrange(p + 2, p + 6)[2]);
    assert(d[p + 5] == d.subrange(p + 2, p + 6)[3]);
    assert(n == n % 256 + 256 * n1);
    assert(n1 == n1 % 256 + 256 * n2);
    assert(n2 == n2 % 256 + 256 * (n2 / 256));
    assert(n2 / 256 < 256);
}

/// Splitting a PFB file gives back the text and the binary part it was made
/// of.
pub proof fn law_split_pfb_file(clear: Seq<u8>, binary: Seq<u8>)
    requires
        clear.len() < 4294967296,
        binary.len() < 4294967296,
    ensures
        split_spec(pfb_file(clear, binary)) == Ok::<(Seq<u8>, Seq<u8>), Seq<char>>((clear, binary)),
{
    let d = pfb_file(clear, binary);
    let lc = clear.len() as int;
    let lb = binary.len() as int;
    let p1 = 6 + lc;
    let p2 = p1 + 6 + lb;
    assert(d.len() == p2 + 2);
    assert(d[0] == 0x80u8 && d[1] == 1u8);
    assert(d.subrange(2, 6) =~= le32_bytes(lc));
    lemma_le32_bytes(d, 0, lc);
    assert(d.subrange(6, p1) =~= clear);
    assert(d[p1] == 0x80u8 && d[p1 + 1] == 2u8);
    assert(d.subrange(p1 + 2, p1 + 6) =~= le32_bytes(lb));
    lemma_le32_bytes(d, p1, lb);
    assert(d.subrange(p1 + 6, p2) =~= binary);
    assert(d[p2] == 0x80u8 && d[p2 + 1] == 3u8);
    assert(Seq::<u8>::empty() + clear =~= clear);
    assert(Seq::<u8>::empty() + binary =~= binary);
    assert(pfb_from(d, p2, clear, binary) == Ok::<(Seq<u8>, Seq<u8>), Seq<char>>((clear, binary)));
    assert(pfb_from(d, p1, clear, Seq::empty()) == Ok::<(Seq<u8>, Seq<u8>), Seq<char>>((clear, binary)));
    assert(pfb_from(d, 0, Seq::empty(), Seq::empty()) == Ok::<(Seq<u8>, Seq<u8>), Seq<char>>((clear, binary)));
}

} // verus!

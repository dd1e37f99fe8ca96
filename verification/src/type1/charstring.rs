//! The encoding of Type 1 charstrings: numbers in one, two or five bytes,
//! operators in one byte, and escaped operators (`12 x`) in two.

use vstd::prelude::*;
use crate::glyph::{gerr, GlyphError};

verus! {

#[derive(Debug, Clone, Copy, PartialEq, Eq)]
pub enum CsToken {
    /// A number pushed on the operand stack.
    Number(i32),
    /// A one-byte operator (below 32, other than 12).
    Op(u8),
    /// The operator `12 x`, given by `x`.
    Escape(u8),
}

/// Why a charstring cannot be read on.
#[derive(Debug, Clone, Copy, PartialEq, Eq)]
pub enum CsFault {
    /// A number whose following bytes are missing.
    TruncatedNumber,
    /// A `12` at the very end.
    TruncatedEscape,
}

/// A four-byte big-endian two's complement number.
pub open spec fn be_i32(b0: u8, b1: u8, b2: u8, b3: u8) -> int {
    let u = b0 as int * 16777216 + b1 as int * 65536 + b2 as int * 256 + b3 as int;
    if u >= 2147483648 {
        u - 4294967296
    } else {
        u
    }
}

/// The token at `i` and where the next one starts; `None` at the end.
pub open spec fn cs_token(cs: Seq<u8>, i: int) -> Option<Result<(CsToken, int), CsFault>> {
    if i < 0 || i >= cs.len() {
        None
    } else {
        let v = cs[i] as int;
        if v >= 32 {
            if v <= 246 {
                Some(Ok((CsToken::Number((v - 139) as i32), i + 1)))
            } else if v <= 250 {
                if i + 1 >= cs.len() {
                    Some(Err(CsFault::TruncatedNumber))
                } else {
                    Some(Ok((CsToken::Number(((v - 247) * 256 + cs[i + 1] + 108) as i32), i + 2)))
                }
            } else if v <= 254 {
                if i + 1 >= cs.len() {
                    Some(Err(CsFault::TruncatedNumber))
                } else {
                    Some(Ok((CsToken::Number((-(v - 251) * 256 - cs[i + 1] - 108) as i32), i + 2)))
                }
            } else if i + 4 >= cs.len() {
                Some(Err(CsFault::TruncatedNumber))
            } else {
                Some(Ok((CsToken::Number(be_i32(cs[i + 1], cs[i + 2], cs[i + 3], cs[i + 4]) as i32), i + 5)))
            }
        } else if v == 12 {
            if i + 1 >= cs.len() {
                Some(Err(CsFault::TruncatedEscape))
            } else {
                Some(Ok((CsToken::Escape(cs[i + 1]), i + 2)))
            }
        } else {
            Some(Ok((CsToken::Op(v as u8), i + 1)))
        }
    }
}

/// The value a number token stands for.
pub open spec fn number_value(t: CsToken) -> int {
    match t {
        CsToken::Number(n) => n as int,
        _ => 0,
    }
}

/// Reads the token at `i`: `Ok(None)` at the end of the charstring,
/// `Ok(Some((token, next)))`, or an error for a number or escape cut off
/// by the end.
pub fn next_token(cs: &[u8], i: usize) -> (r: Result<Option<(CsToken, usize)>, CsFault>)
    ensures
        match (r, cs_token(cs@, i as int)) {
            (Ok(None), None) => true,
            (Ok(Some((t, n))), Some(Ok((st, sn)))) => t == st && n == sn,
            (Err(f), Some(Err(sf))) => f == sf,
            _ => false,
        },
        r matches Ok(Some((t, n))) ==> i < n <= cs@.len(),
{
    let len = cs.len();
    if i >= len {
        return Ok(None);
    }
    let v = cs[i];
    if v >= 32 {
        if v <= 246 {
            Ok(Some((CsToken::Number(v as i32 - 139), i + 1)))
        } else if v <= 250 {
            if i + 1 >= len {
                return Err(CsFault::TruncatedNumber);
            }
            let w = cs[i + 1] as i32;
            Ok(Some((CsToken::Number((v as i32 - 247) * 256 + w + 108), i + 2)))
        } else if v <= 254 {
            if i + 1 >= len {
                return Err(CsFault::TruncatedNumber);
            }
            let w = cs[i + 1] as i32;
            Ok(Some((CsToken::Number(-(v as i32 - 251) * 256 - w - 108), i + 2)))
        } else {
            if len < 4 || i >= len - 4 {
                return Err(CsFault::TruncatedNumber);
            }
            let u: i64 = cs[i + 1] as i64 * 16777216 + cs[i + 2] as i64 * 65536 + cs[i + 3] as i64 * 256
                + cs[i + 4] as i64;
            let n: i64 = if u >= 2147483648 {
                u - 4294967296
            } else {
                u
            };
            Ok(Some((CsToken::Number(n as i32), i + 5)))
        }
    } else if v == 12 {
        if i + 1 >= len {
            return Err(CsFault::TruncatedEscape);
        }
        Ok(Some((CsToken::Escape(cs[i + 1]), i + 2)))
    } else {
        Ok(Some((CsToken::Op(v), i + 1)))
    }
}

/// The message the font reader gives for a fault.
pub fn fault_error(f: CsFault) -> (e: GlyphError)
    ensures
        e.message@ == match f {
            CsFault::TruncatedNumber => "truncated number"@,
            CsFault::TruncatedEscape => "truncated escape"@,
        },
{
    match f {
        CsFault::TruncatedNumber => gerr("truncated number"),
        CsFault::TruncatedEscape => gerr("truncated escape"),
    }
}

} // verus!

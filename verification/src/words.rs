//! Fixed-position reads of big-endian words, for formats whose table layout
//! is known once the header has been checked.

use vstd::prelude::*;
use crate::fix::Fix;
use crate::reader::fix_at;
use crate::text::{be16, be32};

verus! {

pub fn be16_at(d: &[u8], i: usize) -> (v: usize)
    requires
        i + 2 <= d@.len(),
    ensures
        v == be16(d@, i as int),
{
    (d[i] as usize) * 256 + d[i + 1] as usize
}

pub fn be32_at(d: &[u8], i: usize) -> (v: u32)
    requires
        i + 4 <= d@.len(),
    ensures
        v == be32(d@, i as int),
{
    let hi = (d[i] as u32) * 256 + d[i + 1] as u32;
    let lo = (d[i + 2] as u32) * 256 + d[i + 3] as u32;
    hi * 65536 + lo
}

pub fn fix_word_at(d: &[u8], i: usize) -> (v: Fix)
    requires
        i + 4 <= d@.len(),
    ensures
        v == fix_at(d@, i as int),
{
    Fix(be32_at(d, i) as i32)
}

/// `n` consecutive fix_words starting at byte `base`.
pub fn fix_table(d: &[u8], base: usize, n: usize) -> (v: Vec<Fix>)
    requires
        base + 4 * n <= d@.len(),
    ensures
        v@.len() == n,
        forall|j: int| 0 <= j < n ==> #[trigger] v@[j] == fix_at(d@, base + 4 * j),
{
    let mut v: Vec<Fix> = Vec::with_capacity(n);
    let mut i: usize = 0;
    let dl: usize = d.len();
    while i < n
        invariant
            dl == d@.len(),
            base + 4 * n <= d@.len(),
            i <= n,
            v@.len() == i,
            forall|j: int| 0 <= j < i ==> #[trigger] v@[j] == fix_at(d@, base + 4 * j),
        decreases n - i,
    {
        v.push(fix_word_at(d, base + 4 * i));
        i = i + 1;
    }
    v
}

} // verus!

//! The Type 1 encryption (eexec with r = 55665, charstrings with r = 4330).

use vstd::prelude::*;

verus! {

pub const EEXEC_R: u16 = 55665;
pub const CHARSTRING_R: u16 = 4330;

/// The next key after the cipher byte `c`: `(c + r) * 52845 + 22719` in
/// 16-bit wrapping arithmetic.
pub open spec fn step(r: int, c: int) -> int {
    ((((c + r) % 65536) * 52845) % 65536 + 22719) % 65536
}

/// The key before cipher byte `n` of `data`.
pub open spec fn dec_state(data: Seq<u8>, r: int, n: int) -> int
    decreases n,
{
    if n <= 0 {
        r
    } else {
        step(dec_state(data, r, n - 1), data[n - 1] as int)
    }
}

pub open spec fn key_byte(state: int) -> u8 {
    (state / 256) as u8
}

/// All of `data` decrypted.
pub open spec fn decrypted(data: Seq<u8>, r: int) -> Seq<u8> {
    Seq::new(data.len(), |i: int| data[i] ^ key_byte(dec_state(data, r, i)))
}

/// `data` decrypted with the first `skip` plain bytes (the random prefix) dropped.
pub open spec fn decrypt_skip(data: Seq<u8>, r: int, skip: int) -> Seq<u8> {
    if data.len() > skip {
        decrypted(data, r).skip(skip)
    } else {
        Seq::empty()
    }
}

proof fn lemma_state_range(data: Seq<u8>, r: int, n: int)
    requires
        0 <= r < 65536,
    ensures
        0 <= dec_state(data, r, n) < 65536,
    decreases n,
{
    if n > 0 {
        lemma_state_range(data, r, n - 1);
    }
}

pub fn decrypt(data: &[u8], r: u16, skip: usize) -> (out: Vec<u8>)
    ensures
        out@ == decrypt_skip(data@, r as int, skip as int),
{
    let mut out: Vec<u8> = Vec::new();
    let mut state: u32 = r as u32;
    let mut i: usize = 0;
    let ghost whole = decrypted(data@, r as int);
    while i < data.len()
        invariant
            i <= data@.len(),
            whole == decrypted(data@, r as int),
            state == dec_state(data@, r as int, i as int),
            state < 65536,
            out@ == if i <= skip { Seq::<u8>::empty() } else { whole.subrange(skip as int, i as int) },
        decreases data@.len() - i,
    {
        let c = data[i];
        let p = c ^ ((state / 256) as u8);
        proof {
            lemma_state_range(data@, r as int, i as int);
        }
        if i >= skip {
            out.push(p);
            assert(out@ =~= whole.subrange(skip as int, i + 1));
        }
        state = (((c as u32 + state) % 65536) * 52845 % 65536 + 22719) % 65536;
        i = i + 1;
    }
    proof {
        if data@.len() > skip {
            assert(out@ =~= decrypted(data@, r as int).skip(skip as int));
        } else {
            assert(out@ =~= Seq::<u8>::empty());
        }
    }
    out
}

/// The key before plain byte `n` when encrypting `p`.
pub open spec fn enc_state(p: Seq<u8>, r: int, n: int) -> int
    decreases n,
{
    if n <= 0 {
        r
    } else {
        let s = enc_state(p, r, n - 1);
        step(s, (p[n - 1] ^ key_byte(s)) as int)
    }
}

/// `p` encrypted with the initial key `r`.
pub open spec fn encrypted(p: Seq<u8>, r: int) -> Seq<u8> {
    Seq::new(p.len(), |i: int| p[i] ^ key_byte(enc_state(p, r, i)))
}

proof fn lemma_states_agree(p: Seq<u8>, r: int, n: int)
    requires
        0 <= n <= p.len(),
    ensures
        dec_state(encrypted(p, r), r, n) == enc_state(p, r, n),
    decreases n,
{
    if n > 0 {
        lemma_states_agree(p, r, n - 1);
    }
}

/// Decryption undoes encryption with the same initial key.
pub proof fn law_decrypt_encrypted(p: Seq<u8>, r: int)
    ensures
        decrypted(encrypted(p, r), r) == p,
{
    let c = encrypted(p, r);
    assert forall|i: int| 0 <= i < p.len() implies #[trigger] decrypted(c, r)[i] == p[i] by {
        lemma_states_agree(p, r, i);
        let k = key_byte(enc_state(p, r, i));
        let x = p[i];
        assert((x ^ k) ^ k == x) by (bit_vector);
    }
    assert(decrypted(c, r) =~= p);
}

/// A charstring stored with random bytes in front reads back as written:
/// encrypting the bytes followed by the charstring, then decrypting with the
/// same key and dropping as many bytes as were put in front, gives the
/// charstring again.
pub proof fn law_skip_after_encrypt(front: Seq<u8>, p: Seq<u8>, r: int)
    ensures
        decrypt_skip(encrypted(front + p, r), r, front.len() as int) == p,
{
    let q = front + p;
    law_decrypt_encrypted(q, r);
    if p.len() > 0 {
        assert(decrypted(encrypted(q, r), r).skip(front.len() as int) =~= p);
    } else {
        assert(decrypt_skip(encrypted(q, r), r, front.len() as int) =~= p);
    }
}

} // verus!

//! DSA keys over the group that I2P uses: how the public key follows from
//! the private one. Signatures of this algorithm are neither made nor
//! checked here.

use vstd::arithmetic::power::pow;
use vstd::prelude::*;

use crate::crypto::elgamal::{
    lemma_be_value_leading_zeros, lemma_smaller_is_shorter, modpow, spec_be_value,
};

verus! {

/// The prime modulus of the group.
pub const DSA_P: [u8; 128] = [
    0x9C, 0x05, 0xB2, 0xAA, 0x96, 0x0D, 0x9B, 0x97, 0xB8, 0x93, 0x19, 0x63, 0xC9, 0xCC, 0x9E, 0x8C,
    0x30, 0x26, 0xE9, 0xB8, 0xED, 0x92, 0xFA, 0xD0, 0xA6, 0x9C, 0xC8, 0x86, 0xD5, 0xBF, 0x80, 0x15,
    0xFC, 0xAD, 0xAE, 0x31, 0xA0, 0xAD, 0x18, 0xFA, 0xB3, 0xF0, 0x1B, 0x00, 0xA3, 0x58, 0xDE, 0x23,
    0x76, 0x55, 0xC4, 0x96, 0x4A, 0xFA, 0xA2, 0xB3, 0x37, 0xE9, 0x6A, 0xD3, 0x16, 0xB9, 0xFB, 0x1C,
    0xC5, 0x64, 0xB5, 0xAE, 0xC5, 0xB6, 0x9A, 0x9F, 0xF6, 0xC3, 0xE4, 0x54, 0x87, 0x07, 0xFE, 0xF8,
    0x50, 0x3D, 0x91, 0xDD, 0x86, 0x02, 0xE8, 0x67, 0xE6, 0xD3, 0x5D, 0x22, 0x35, 0xC1, 0x86, 0x9C,
    0xE2, 0x47, 0x9C, 0x3B, 0x9D, 0x54, 0x01, 0xDE, 0x04, 0xE0, 0x72, 0x7F, 0xB3, 0x3D, 0x65, 0x11,
    0x28, 0x5D, 0x4C, 0xF2, 0x95, 0x38, 0xD9, 0xE3, 0xB6, 0x05, 0x1F, 0x5B, 0x22, 0xCC, 0x1C, 0x93,
];

/// The generator of the subgroup.
pub const DSA_G: [u8; 128] = [
    0x0C, 0x1F, 0x4D, 0x27, 0xD4, 0x00, 0x93, 0xB4, 0x29, 0xE9, 0x62, 0xD7, 0x22, 0x38, 0x24, 0xE0,
    0xBB, 0xC4, 0x7E, 0x7C, 0x83, 0x2A, 0x39, 0x23, 0x6F, 0xC6, 0x83, 0xAF, 0x84, 0x88, 0x95, 0x81,
    0x07, 0x5F, 0xF9, 0x08, 0x2E, 0xD3, 0x23, 0x53, 0xD4, 0x37, 0x4D, 0x73, 0x01, 0xCD, 0xA1, 0xD2,
    0x3C, 0x43, 0x1F, 0x46, 0x98, 0x59, 0x9D, 0xDA, 0x02, 0x45, 0x18, 0x24, 0xFF, 0x36, 0x97, 0x52,
    0x59, 0x36, 0x47, 0xCC, 0x3D, 0xDC, 0x19, 0x7D, 0xE9, 0x85, 0xE4, 0x3D, 0x13, 0x6C, 0xDC, 0xFC,
    0x6B, 0xD5, 0x40, 0x9C, 0xD2, 0xF4, 0x50, 0x82, 0x11, 0x42, 0xA5, 0xE6, 0xF8, 0xEB, 0x1C, 0x3A,
    0xB5, 0xD0, 0x48, 0x4B, 0x81, 0x29, 0xFC, 0xF1, 0x7B, 0xCE, 0x4F, 0x7F, 0x33, 0x32, 0x1C, 0x3C,
    0xB3, 0xDB, 0xB1, 0x4A, 0x90, 0x5E, 0x7B, 0x2B, 0x3E, 0x93, 0xBE, 0x47, 0x08, 0xCB, 0xCC, 0x82,
];

/// The `len` bytes that stand for the number `v` in big-endian notation,
/// as far as they can hold it.
pub open spec fn spec_be_bytes(v: nat, len: nat) -> Seq<u8>
    decreases len,
{
    if len == 0 {
        Seq::empty()
    } else {
        spec_be_bytes(v / 256, (len - 1) as nat).push((v % 256) as u8)
    }
}

/// The public key that belongs to the private number `secret`: the
/// generator to that power, reduced by the prime, in 128 bytes.
pub open spec fn spec_dsa_public(secret: Seq<u8>) -> Seq<u8> {
    spec_be_bytes(
        (pow(spec_be_value(DSA_G@) as int, spec_be_value(secret)) % (spec_be_value(
            DSA_P@,
        ) as int)) as nat,
        128,
    )
}

pub proof fn lemma_be_bytes_len(v: nat, len: nat)
    ensures
        spec_be_bytes(v, len).len() == len,
    decreases len,
{
    if len > 0 {
        lemma_be_bytes_len(v / 256, (len - 1) as nat);
    }
}

/// Bytes are the big-endian notation, in their number, of the number that
/// they stand for.
pub proof fn lemma_be_bytes_of_value(s: Seq<u8>)
    ensures
        spec_be_bytes(spec_be_value(s), s.len()) == s,
    decreases s.len(),
{
    if s.len() > 0 {
        let hi = spec_be_value(s.drop_last());
        let v = spec_be_value(s);
        assert(v == hi * 256 + s.last() as nat);
        assert(v / 256 == hi);
        assert(v % 256 == s.last() as nat);
        lemma_be_bytes_of_value(s.drop_last());
        assert(s.drop_last().push(s.last()) =~= s);
    }
}

/// `bytes`, which are at most `len`, with zero bytes in front to make
/// `len`.
pub fn left_pad(bytes: &[u8], len: usize) -> (r: Vec<u8>)
    requires
        bytes@.len() <= len,
    ensures
        r@.len() == len,
        spec_be_value(r@) == spec_be_value(bytes@),
{
    let k = len - bytes.len();
    let mut out: Vec<u8> = Vec::new();
    let mut i: usize = 0;
    while i < k
        invariant
            i <= k,
            out@ == Seq::new(i as nat, |j: int| 0u8),
        decreases k - i,
    {
        out.push(0u8);
        assert(out@ =~= Seq::new((i + 1) as nat, |j: int| 0u8));
        i += 1;
    }
    out.extend_from_slice(bytes);
    proof {
        assert(out@ =~= Seq::new(k as nat, |j: int| 0u8) + bytes@);
        lemma_be_value_leading_zeros(k as nat, bytes@);
    }
    out
}

/// Derives the public key from the private number.
pub fn dsa_public(secret: &[u8]) -> (r: Vec<u8>)
    ensures
        r@ == spec_dsa_public(secret@),
        r@.len() == 128,
{
    let p = DSA_P;
    let g = DSA_G;
    proof {
        assert(spec_be_value(p@) >= 1) by {
            assert(p@.last() == 0x93);
        }
    }
    let y = modpow(g.as_slice(), secret, p.as_slice());
    proof {
        let m = spec_be_value(p@) as int;
        vstd::arithmetic::div_mod::lemma_mod_bound(
            pow(spec_be_value(g@) as int, spec_be_value(secret@)),
            m,
        );
        lemma_smaller_is_shorter(y@, p@);
    }
    let key = left_pad(y.as_slice(), 128);
    proof {
        lemma_be_bytes_of_value(key@);
        lemma_be_bytes_len(spec_be_value(key@), 128);
    }
    key
}

} // verus!

//! ElGamal key pairs over the 2048-bit group that I2P uses.

use vstd::arithmetic::power::pow;
use vstd::prelude::*;

use crate::crypto::primitives::os_random_bytes;
use crate::bytes::to_array;
use crate::crypto::{PrivateKey, PublicKey};

verus! {

/// The number that `s` is in big-endian notation.
pub open spec fn spec_be_value(s: Seq<u8>) -> nat
    decreases s.len(),
{
    if s.len() == 0 {
        0
    } else {
        spec_be_value(s.drop_last()) * 256 + s.last() as nat
    }
}

/// `num_bigint::BigUint::modpow` on numbers in big-endian notation: the
/// result stands for `base` to the power `exponent`, reduced by `modulus`,
/// and is written without leading zero bytes (zero itself is one zero
/// byte).
#[verifier::external_body]
pub(crate) fn modpow(base: &[u8], exponent: &[u8], modulus: &[u8]) -> (r: Vec<u8>)
    requires
        spec_be_value(modulus@) != 0,
    ensures
        spec_be_value(r@) == pow(spec_be_value(base@) as int, spec_be_value(exponent@)) % (
        spec_be_value(modulus@) as int),
        r@.len() >= 1,
        r@.len() > 1 ==> r@[0] != 0,
{
    let b = num_bigint::BigUint::from_bytes_be(base);
    let e = num_bigint::BigUint::from_bytes_be(exponent);
    let m = num_bigint::BigUint::from_bytes_be(modulus);
    b.modpow(&e, &m).to_bytes_be()
}

/// The prime modulus of the group.
pub const ELGAMAL_P: [u8; 256] = [
    0xFF, 0xFF, 0xFF, 0xFF, 0xFF, 0xFF, 0xFF, 0xFF, 0xC9, 0x0F, 0xDA, 0xA2, 0x21, 0x68, 0xC2, 0x34,
    0xC4, 0xC6, 0x62, 0x8B, 0x80, 0xDC, 0x1C, 0xD1, 0x29, 0x02, 0x4E, 0x08, 0x8A, 0x67, 0xCC, 0x74,
    0x02, 0x0B, 0xBE, 0xA6, 0x3B, 0x13, 0x9B, 0x22, 0x51, 0x4A, 0x08, 0x79, 0x8E, 0x34, 0x04, 0xDD,
    0xEF, 0x95, 0x19, 0xB3, 0xCD, 0x3A, 0x43, 0x1B, 0x30, 0x2B, 0x0A, 0x6D, 0xF2, 0x5F, 0x14, 0x37,
    0x4F, 0xE1, 0x35, 0x6D, 0x6D, 0x51, 0xC2, 0x45, 0xE4, 0x85, 0xB5, 0x76, 0x62, 0x5E, 0x7E, 0xC6,
    0xF4, 0x4C, 0x42, 0xE9, 0xA6, 0x37, 0xED, 0x6B, 0x0B, 0xFF, 0x5C, 0xB6, 0xF4, 0x06, 0xB7, 0xED,
    0xEE, 0x38, 0x6B, 0xFB, 0x5A, 0x89, 0x9F, 0xA5, 0xAE, 0x9F, 0x24, 0x11, 0x7C, 0x4B, 0x1F, 0xE6,
    0x49, 0x28, 0x66, 0x51, 0xEC, 0xE4, 0x5B, 0x3D, 0xC2, 0x00, 0x7C, 0xB8, 0xA1, 0x63, 0xBF, 0x05,
    0x98, 0xDA, 0x48, 0x36, 0x1C, 0x55, 0xD3, 0x9A, 0x69, 0x16, 0x3F, 0xA8, 0xFD, 0x24, 0xCF, 0x5F,
    0x83, 0x65, 0x5D, 0x23, 0xDC, 0xA3, 0xAD, 0x96, 0x1C, 0x62, 0xF3, 0x56, 0x20, 0x85, 0x52, 0xBB,
    0x9E, 0xD5, 0x29, 0x07, 0x70, 0x96, 0x96, 0x6D, 0x67, 0x0C, 0x35, 0x4E, 0x4A, 0xBC, 0x98, 0x04,
    0xF1, 0x74, 0x6C, 0x08, 0xCA, 0x18, 0x21, 0x7C, 0x32, 0x90, 0x5E, 0x46, 0x2E, 0x36, 0xCE, 0x3B,
    0xE3, 0x9E, 0x77, 0x2C, 0x18, 0x0E, 0x86, 0x03, 0x9B, 0x27, 0x83, 0xA2, 0xEC, 0x07, 0xA2, 0x8F,
    0xB5, 0xC5, 0x5D, 0xF0, 0x6F, 0x4C, 0x52, 0xC9, 0xDE, 0x2B, 0xCB, 0xF6, 0x95, 0x58, 0x17, 0x18,
    0x39, 0x95, 0x49, 0x7C, 0xEA, 0x95, 0x6A, 0xE5, 0x15, 0xD2, 0x26, 0x18, 0x98, 0xFA, 0x05, 0x10,
    0x15, 0x72, 0x8E, 0x5A, 0x8A, 0xAC, 0xAA, 0x68, 0xFF, 0xFF, 0xFF, 0xFF, 0xFF, 0xFF, 0xFF, 0xFF,
];

/// The generator of the group.
pub const ELGAMAL_G: u8 = 2;

/// The public key that belongs to the private exponent `secret`: the
/// generator to that power, reduced by the prime.
pub open spec fn spec_elgamal_public(secret: Seq<u8>, prime: Seq<u8>) -> int {
    pow(2, spec_be_value(secret)) % (spec_be_value(prime) as int)
}

/// A number in big-endian notation is below 256 to the number of its bytes.
pub proof fn lemma_be_value_bound(s: Seq<u8>)
    ensures
        spec_be_value(s) < pow(256, s.len()),
    decreases s.len(),
{
    reveal(pow);
    if s.len() > 0 {
        lemma_be_value_bound(s.drop_last());
        let hi = spec_be_value(s.drop_last()) as int;
        let top = pow(256, (s.len() - 1) as nat);
        assert(hi + 1 <= top);
        assert((hi + 1) * 256 <= top * 256) by (nonlinear_arith)
            requires
                hi + 1 <= top,
        ;
        assert(pow(256, s.len()) == 256 * top);
    }
}

/// A number whose first byte is not zero is at least 256 to the number of
/// the bytes after it.
pub proof fn lemma_be_value_lower(s: Seq<u8>)
    requires
        s.len() >= 1,
        s[0] != 0,
    ensures
        spec_be_value(s) >= pow(256, (s.len() - 1) as nat),
    decreases s.len(),
{
    reveal(pow);
    if s.len() == 1 {
        assert(s.drop_last().len() == 0);
        assert(spec_be_value(s.drop_last()) == 0);
        assert(s.last() == s[0]);
    } else {
        assert(s.drop_last()[0] == s[0]);
        lemma_be_value_lower(s.drop_last());
        let hi = spec_be_value(s.drop_last()) as int;
        let low = pow(256, (s.len() - 2) as nat);
        assert(hi * 256 >= low * 256) by (nonlinear_arith)
            requires
                hi >= low,
        ;
        assert(pow(256, (s.len() - 1) as nat) == 256 * low);
    }
}

/// Zero bytes in front do not change the number.
pub proof fn lemma_be_value_leading_zeros(k: nat, s: Seq<u8>)
    ensures
        spec_be_value(Seq::new(k, |i: int| 0u8) + s) == spec_be_value(s),
    decreases s.len(),
{
    let zeros = Seq::new(k, |i: int| 0u8);
    if s.len() == 0 {
        assert(zeros + s =~= zeros);
        lemma_be_value_zeros(k);
    } else {
        assert((zeros + s).drop_last() =~= zeros + s.drop_last());
        lemma_be_value_leading_zeros(k, s.drop_last());
    }
}

/// Zero bytes alone stand for zero.
pub proof fn lemma_be_value_zeros(k: nat)
    ensures
        spec_be_value(Seq::new(k, |i: int| 0u8)) == 0,
    decreases k,
{
    if k > 0 {
        assert(Seq::new(k, |i: int| 0u8).drop_last() =~= Seq::new((k - 1) as nat, |i: int| 0u8));
        lemma_be_value_zeros((k - 1) as nat);
    }
}

/// A number without leading zeros that is smaller than another has no more
/// bytes than the other.
pub proof fn lemma_smaller_is_shorter(r: Seq<u8>, m: Seq<u8>)
    requires
        r.len() >= 1,
        r.len() > 1 ==> r[0] != 0,
        spec_be_value(r) < spec_be_value(m),
    ensures
        r.len() <= m.len(),
{
    if r.len() > 1 {
        lemma_be_value_lower(r);
        lemma_be_value_bound(m);
        if r.len() > m.len() {
            vstd::arithmetic::power::lemma_pow_increases(256, m.len(), (r.len() - 1) as nat);
        }
    } else {
        if m.len() == 0 {
            assert(spec_be_value(m) == 0);
        }
    }
}

/// `bytes`, which are at most 256, with zero bytes in front to make 256.
fn left_pad_256(bytes: &[u8]) -> (r: [u8; 256])
    requires
        bytes@.len() <= 256,
    ensures
        spec_be_value(r@) == spec_be_value(bytes@),
{
    let mut out = [0u8; 256];
    let k = 256 - bytes.len();
    let mut i: usize = 0;
    while i < bytes.len()
        invariant
            i <= bytes@.len(),
            k == 256 - bytes@.len(),
            bytes@.len() <= 256,
            out@.len() == 256,
            forall|j: int| 0 <= j < k ==> out@[j] == 0u8,
            forall|j: int| 0 <= j < i ==> out@[k + j] == bytes@[j],
        decreases bytes@.len() - i,
    {
        out[k + i] = bytes[i];
        i += 1;
    }
    proof {
        assert(out@ =~= Seq::new(k as nat, |i: int| 0u8) + bytes@);
        lemma_be_value_leading_zeros(k as nat, bytes@);
    }
    out
}

impl PrivateKey {
    /// A fresh private key, or nothing where the operating system gives no
    /// random bytes.
    pub fn generate() -> (r: Option<PrivateKey>) {
        match os_random_bytes(256) {
            Some(bytes) => Some(PrivateKey(to_array(bytes.as_slice()))),
            None => None,
        }
    }
}

impl PublicKey {
    /// Derives the public key from the private one.
    pub fn from_secret(secret: &PrivateKey) -> (r: PublicKey)
        ensures
            spec_be_value(r@) == spec_elgamal_public(secret@, ELGAMAL_P@),
    {
        let p = ELGAMAL_P;
        let g = [ELGAMAL_G];
        proof {
            assert(spec_be_value(p@) >= 255) by {
                assert(p@.last() == 0xff);
            }
            assert(g@.drop_last().len() == 0);
            assert(spec_be_value(g@.drop_last()) == 0);
            assert(spec_be_value(g@) == 2);
        }
        let y = modpow(g.as_slice(), secret.0.as_slice(), p.as_slice());
        proof {
            let m = spec_be_value(p@) as int;
            vstd::arithmetic::div_mod::lemma_mod_bound(pow(2, spec_be_value(secret@)), m);
            lemma_smaller_is_shorter(y@, p@);
        }
        PublicKey(left_pad_256(y.as_slice()))
    }
}

} // verus!

//! The wire format of the common data structures: for each structure a
//! description of its bytes, a parser and a generator, and the proof that
//! parsing what was generated gives the structure back.

use vstd::prelude::*;
use vstd::utf8::valid_utf8;

use crate::crypto::{
    EncType, PrivateKey, PublicKey, SigType, Signature, SigningPrivateKey, SigningPublicKey,
    TypedBytes,
};
use crate::data::mapping::{spec_insert, spec_insert_all, spec_sorted, Pair};
use crate::data::{
    spec_address_views, spec_hash_views, Certificate, CertificateView, I2PDate, I2PString,
    KeyCertificate, KeyCertificateView, Mapping, RouterAddress, RouterAddressView,
    RouterIdentity, RouterIdentityView, RouterInfo, RouterInfoView, RouterSecretKeys,
    RouterSecretKeysView,
};
use crate::text::encoding::string_from_utf8;

verus! {

/// Why a parser gave no value.
#[derive(Clone, Copy, Debug, PartialEq, Eq, Structural)]
pub enum ParseError {
    /// The input ends before the structure does. More input may mend it.
    Incomplete,
    /// The input is not the encoding of any value.
    Invalid,
}

//
// Primitives
//
/// Reads one byte.
pub open spec fn spec_u8(s: Seq<u8>) -> Result<(u8, int), ParseError> {
    if s.len() < 1 {
        Err(ParseError::Incomplete)
    } else {
        Ok((s[0], 1))
    }
}

/// Reads a big-endian 16-bit number.
pub open spec fn spec_be_u16(s: Seq<u8>) -> Result<(u16, int), ParseError> {
    if s.len() < 2 {
        Err(ParseError::Incomplete)
    } else {
        Ok(((s[0] as int * 256 + s[1] as int) as u16, 2))
    }
}

/// Reads a big-endian 32-bit number.
pub open spec fn spec_be_u32(s: Seq<u8>) -> Result<(u32, int), ParseError> {
    if s.len() < 4 {
        Err(ParseError::Incomplete)
    } else {
        Ok(
            (
                (((s[0] as int * 256 + s[1] as int) * 256 + s[2] as int) * 256
                    + s[3] as int) as u32,
                4,
            ),
        )
    }
}

/// Reads a big-endian 64-bit number.
#[verifier::opaque]
pub open spec fn spec_be_u64(s: Seq<u8>) -> Result<(u64, int), ParseError> {
    if s.len() < 8 {
        Err(ParseError::Incomplete)
    } else {
        Ok(
            (
                (((((((s[0] as int * 256 + s[1] as int) * 256 + s[2] as int) * 256 + s[3] as int)
                    * 256 + s[4] as int) * 256 + s[5] as int) * 256 + s[6] as int) * 256
                    + s[7] as int) as u64,
                8,
            ),
        )
    }
}

/// Reads `n` bytes.
pub open spec fn spec_take(s: Seq<u8>, n: int) -> Result<(Seq<u8>, int), ParseError> {
    if s.len() < n {
        Err(ParseError::Incomplete)
    } else {
        Ok((s.subrange(0, n), n))
    }
}

/// The two bytes of a big-endian 16-bit number.
pub open spec fn spec_gen_be_u16(v: u16) -> Seq<u8> {
    seq![(v / 256) as u8, (v % 256) as u8]
}

/// The four bytes of a big-endian 32-bit number.
pub open spec fn spec_gen_be_u32(v: u32) -> Seq<u8> {
    seq![
        (v / 0x100_0000) as u8,
        (v / 0x1_0000 % 256) as u8,
        (v / 0x100 % 256) as u8,
        (v % 256) as u8,
    ]
}

/// The eight bytes of a big-endian 64-bit number.
pub open spec fn spec_gen_be_u64(v: u64) -> Seq<u8> {
    seq![
        (v / 0x100_0000_0000_0000) as u8,
        (v / 0x1_0000_0000_0000 % 256) as u8,
        (v / 0x100_0000_0000 % 256) as u8,
        (v / 0x1_0000_0000 % 256) as u8,
        (v / 0x100_0000 % 256) as u8,
        (v / 0x1_0000 % 256) as u8,
        (v / 0x100 % 256) as u8,
        (v % 256) as u8,
    ]
}

pub proof fn lemma_be_u16_roundtrip(v: u16, rest: Seq<u8>)
    ensures
        spec_be_u16(spec_gen_be_u16(v) + rest) == Ok::<(u16, int), ParseError>((v, 2)),
{
}

pub proof fn lemma_be_u32_roundtrip(v: u32, rest: Seq<u8>)
    ensures
        spec_be_u32(spec_gen_be_u32(v) + rest) == Ok::<(u32, int), ParseError>((v, 4)),
{
}

#[verifier::rlimit(40)]
pub proof fn lemma_be_u64_roundtrip(v: u64, rest: Seq<u8>)
    ensures
        spec_be_u64(spec_gen_be_u64(v) + rest) == Ok::<(u64, int), ParseError>((v, 8)),
{
    reveal(spec_be_u64);
    let x = v as int;
    let q1 = x / 256;
    let q2 = q1 / 256;
    let q3 = q2 / 256;
    let q4 = q3 / 256;
    let q5 = q4 / 256;
    let q6 = q5 / 256;
    let q7 = q6 / 256;
    vstd::arithmetic::div_mod::lemma_div_denominator(x, 256, 256);
    vstd::arithmetic::div_mod::lemma_div_denominator(x, 0x1_0000, 256);
    vstd::arithmetic::div_mod::lemma_div_denominator(x, 0x100_0000, 256);
    vstd::arithmetic::div_mod::lemma_div_denominator(x, 0x1_0000_0000, 256);
    vstd::arithmetic::div_mod::lemma_div_denominator(x, 0x100_0000_0000, 256);
    vstd::arithmetic::div_mod::lemma_div_denominator(x, 0x1_0000_0000_0000, 256);
    assert(q2 == x / 0x1_0000);
    assert(q3 == x / 0x100_0000);
    assert(q4 == x / 0x1_0000_0000);
    assert(q5 == x / 0x100_0000_0000);
    assert(q6 == x / 0x1_0000_0000_0000);
    assert(q7 == x / 0x100_0000_0000_0000);
    assert(q7 < 256);
    let s = spec_gen_be_u64(v) + rest;
    assert(s[0] == q7 as u8);
    assert(s[1] == (q6 % 256) as u8);
    assert(s[2] == (q5 % 256) as u8);
    assert(s[3] == (q4 % 256) as u8);
    assert(s[4] == (q3 % 256) as u8);
    assert(s[5] == (q2 % 256) as u8);
    assert(s[6] == (q1 % 256) as u8);
    assert(s[7] == (x % 256) as u8);
    assert(q6 == q7 * 256 + q6 % 256);
    assert(q5 == q6 * 256 + q5 % 256);
    assert(q4 == q5 * 256 + q4 % 256);
    assert(q3 == q4 * 256 + q3 % 256);
    assert(q2 == q3 * 256 + q2 % 256);
    assert(q1 == q2 * 256 + q1 % 256);
    assert(x == q1 * 256 + x % 256);
}

pub proof fn lemma_take_roundtrip(bytes: Seq<u8>, rest: Seq<u8>)
    ensures
        spec_take(bytes + rest, bytes.len() as int) == Ok::<(Seq<u8>, int), ParseError>(
            (bytes, bytes.len() as int),
        ),
{
    assert((bytes + rest).subrange(0, bytes.len() as int) =~= bytes);
}

/// Skipping twice is skipping once.
pub proof fn lemma_skip_skip(s: Seq<u8>, a: int, b: int)
    requires
        0 <= a,
        0 <= b,
        a + b <= s.len(),
    ensures
        s.skip(a).skip(b) == s.skip(a + b),
{
    assert(s.skip(a).skip(b) =~= s.skip(a + b));
}

/// What follows the first part of a concatenation is the second part.
pub proof fn lemma_concat_skip(a: Seq<u8>, b: Seq<u8>)
    ensures
        (a + b).skip(a.len() as int) == b,
{
    assert((a + b).skip(a.len() as int) =~= b);
}

/// Concatenation is associative.
pub proof fn lemma_concat_assoc(a: Seq<u8>, b: Seq<u8>, c: Seq<u8>)
    ensures
        (a + b) + c == a + (b + c),
{
    assert((a + b) + c =~= a + (b + c));
}

/// Reads one byte at `pos`.
pub fn be_u8(input: &[u8], pos: usize) -> (r: Result<(u8, usize), ParseError>)
    requires
        pos <= input@.len(),
    ensures
        match r {
            Ok((v, end)) => spec_u8(input@.skip(pos as int)) == Ok::<(u8, int), ParseError>(
                (v, end - pos),
            ) && pos <= end <= input@.len(),
            Err(e) => spec_u8(input@.skip(pos as int)) == Err::<(u8, int), ParseError>(e),
        },
{
    if input.len() - pos < 1 {
        Err(ParseError::Incomplete)
    } else {
        Ok((input[pos], pos + 1))
    }
}

/// Reads a big-endian 16-bit number at `pos`.
pub fn be_u16(input: &[u8], pos: usize) -> (r: Result<(u16, usize), ParseError>)
    requires
        pos <= input@.len(),
    ensures
        match r {
            Ok((v, end)) => spec_be_u16(input@.skip(pos as int)) == Ok::<(u16, int), ParseError>(
                (v, end - pos),
            ) && pos <= end <= input@.len(),
            Err(e) => spec_be_u16(input@.skip(pos as int)) == Err::<(u16, int), ParseError>(e),
        },
{
    if input.len() - pos < 2 {
        Err(ParseError::Incomplete)
    } else {
        let v: u16 = (input[pos] as u16) * 256 + (input[pos + 1] as u16);
        Ok((v, pos + 2))
    }
}

/// Reads a big-endian 32-bit number at `pos`.
pub fn be_u32(input: &[u8], pos: usize) -> (r: Result<(u32, usize), ParseError>)
    requires
        pos <= input@.len(),
    ensures
        match r {
            Ok((v, end)) => spec_be_u32(input@.skip(pos as int)) == Ok::<(u32, int), ParseError>(
                (v, end - pos),
            ) && pos <= end <= input@.len(),
            Err(e) => spec_be_u32(input@.skip(pos as int)) == Err::<(u32, int), ParseError>(e),
        },
{
    if input.len() - pos < 4 {
        Err(ParseError::Incomplete)
    } else {
        let a: u32 = (input[pos] as u32) * 256 + (input[pos + 1] as u32);
        let b: u32 = a * 256 + (input[pos + 2] as u32);
        let c: u32 = b * 256 + (input[pos + 3] as u32);
        Ok((c, pos + 4))
    }
}

/// Reads a big-endian 64-bit number at `pos`.
pub fn be_u64(input: &[u8], pos: usize) -> (r: Result<(u64, usize), ParseError>)
    requires
        pos <= input@.len(),
    ensures
        match r {
            Ok((v, end)) => spec_be_u64(input@.skip(pos as int)) == Ok::<(u64, int), ParseError>(
                (v, end - pos),
            ) && end == pos + 8 && end <= input@.len(),
            Err(e) => spec_be_u64(input@.skip(pos as int)) == Err::<(u64, int), ParseError>(e),
        },
{
    proof {
        reveal(spec_be_u64);
    }
    if input.len() - pos < 8 {
        Err(ParseError::Incomplete)
    } else {
        let a: u64 = (input[pos] as u64) * 256 + (input[pos + 1] as u64);
        let b: u64 = a * 256 + (input[pos + 2] as u64);
        let c: u64 = b * 256 + (input[pos + 3] as u64);
        let d: u64 = c * 256 + (input[pos + 4] as u64);
        let e: u64 = d * 256 + (input[pos + 5] as u64);
        let f: u64 = e * 256 + (input[pos + 6] as u64);
        let g: u64 = f * 256 + (input[pos + 7] as u64);
        Ok((g, pos + 8))
    }
}

/// Reads `n` bytes at `pos`.
pub fn take(input: &[u8], pos: usize, n: usize) -> (r: Result<(Vec<u8>, usize), ParseError>)
    requires
        pos <= input@.len(),
    ensures
        match r {
            Ok((v, end)) => spec_take(input@.skip(pos as int), n as int) == Ok::<
                (Seq<u8>, int),
                ParseError,
            >((v@, end - pos)) && pos <= end <= input@.len(),
            Err(e) => spec_take(input@.skip(pos as int), n as int) == Err::<
                (Seq<u8>, int),
                ParseError,
            >(e),
        },
{
    if input.len() - pos < n {
        Err(ParseError::Incomplete)
    } else {
        let piece = vstd::slice::slice_subrange(input, pos, pos + n);
        let mut out: Vec<u8> = Vec::new();
        out.extend_from_slice(piece);
        assert(out@ =~= input@.skip(pos as int).subrange(0, n as int));
        Ok((out, pos + n))
    }
}

/// Appends the big-endian form of `v`.
pub fn gen_be_u16(buf: &mut Vec<u8>, v: u16)
    ensures
        final(buf)@ == old(buf)@ + spec_gen_be_u16(v),
{
    buf.push((v / 256) as u8);
    buf.push((v % 256) as u8);
    assert(buf@ =~= old(buf)@ + spec_gen_be_u16(v));
}

/// Appends the big-endian form of `v`.
pub fn gen_be_u32(buf: &mut Vec<u8>, v: u32)
    ensures
        final(buf)@ == old(buf)@ + spec_gen_be_u32(v),
{
    buf.push((v / 0x100_0000) as u8);
    buf.push((v / 0x1_0000 % 256) as u8);
    buf.push((v / 0x100 % 256) as u8);
    buf.push((v % 256) as u8);
    assert(buf@ =~= old(buf)@ + spec_gen_be_u32(v));
}

/// Appends the big-endian form of `v`.
pub fn gen_be_u64(buf: &mut Vec<u8>, v: u64)
    ensures
        final(buf)@ == old(buf)@ + spec_gen_be_u64(v),
{
    buf.push((v / 0x100_0000_0000_0000) as u8);
    buf.push((v / 0x1_0000_0000_0000 % 256) as u8);
    buf.push((v / 0x100_0000_0000 % 256) as u8);
    buf.push((v / 0x1_0000_0000 % 256) as u8);
    buf.push((v / 0x100_0000 % 256) as u8);
    buf.push((v / 0x1_0000 % 256) as u8);
    buf.push((v / 0x100 % 256) as u8);
    buf.push((v % 256) as u8);
    assert(buf@ =~= old(buf)@ + spec_gen_be_u64(v));
}

//
// Strings
//
/// Reads a string: one byte with the length, then as many bytes of UTF-8.
pub open spec fn spec_i2p_string(s: Seq<u8>) -> Result<(Seq<u8>, int), ParseError> {
    if s.len() < 1 {
        Err(ParseError::Incomplete)
    } else if s.len() < 1 + s[0] {
        Err(ParseError::Incomplete)
    } else if !valid_utf8(s.subrange(1, 1 + s[0])) {
        Err(ParseError::Invalid)
    } else {
        Ok((s.subrange(1, 1 + s[0]), 1 + s[0]))
    }
}

/// The wire form of a string of at most 255 bytes.
pub open spec fn spec_gen_i2p_string(v: Seq<u8>) -> Seq<u8> {
    seq![v.len() as u8] + v
}

pub proof fn lemma_i2p_string_roundtrip(v: Seq<u8>, rest: Seq<u8>)
    requires
        v.len() <= 255,
        valid_utf8(v),
    ensures
        spec_i2p_string(spec_gen_i2p_string(v) + rest) == Ok::<(Seq<u8>, int), ParseError>(
            (v, 1 + v.len() as int),
        ),
{
    let s = spec_gen_i2p_string(v) + rest;
    assert(s[0] == v.len() as u8);
    assert(s.subrange(1, 1 + s[0]) =~= v);
}

/// Reads a string at `pos`.
pub fn i2p_string(input: &[u8], pos: usize) -> (r: Result<(I2PString, usize), ParseError>)
    requires
        pos <= input@.len(),
    ensures
        match r {
            Ok((v, end)) => spec_i2p_string(input@.skip(pos as int)) == Ok::<
                (Seq<u8>, int),
                ParseError,
            >((v@, end - pos)) && pos <= end <= input@.len(),
            Err(e) => spec_i2p_string(input@.skip(pos as int)) == Err::<
                (Seq<u8>, int),
                ParseError,
            >(e),
        },
{
    let ghost s = input@.skip(pos as int);
    if input.len() - pos < 1 {
        return Err(ParseError::Incomplete);
    }
    let n = input[pos] as usize;
    if input.len() - pos - 1 < n {
        return Err(ParseError::Incomplete);
    }
    let piece = vstd::slice::slice_subrange(input, pos + 1, pos + 1 + n);
    let mut bytes: Vec<u8> = Vec::new();
    bytes.extend_from_slice(piece);
    assert(bytes@ =~= s.subrange(1, 1 + s[0]));
    match string_from_utf8(bytes) {
        Some(text) => {
            proof {
                vstd::utf8::decode_utf8_encode_utf8(s.subrange(1, 1 + s[0]));
            }
            Ok((I2PString(text), pos + 1 + n))
        },
        None => Err(ParseError::Invalid),
    }
}

/// Appends the wire form of a string of at most 255 bytes.
pub fn gen_i2p_string(buf: &mut Vec<u8>, s: &I2PString)
    requires
        s@.len() <= 255,
    ensures
        final(buf)@ == old(buf)@ + spec_gen_i2p_string(s@),
{
    let bytes = s.0.as_str().as_bytes();
    buf.push(bytes.len() as u8);
    buf.extend_from_slice(bytes);
    assert(buf@ =~= old(buf)@ + spec_gen_i2p_string(s@));
}

//
// Mappings
//
/// Reads one entry of a mapping: key, `=`, value, `;`.
pub open spec fn spec_pair(s: Seq<u8>) -> Result<(Pair, int), ParseError> {
    match spec_i2p_string(s) {
        Err(e) => Err(e),
        Ok((key, n1)) => {
            if s.len() < n1 + 1 {
                Err(ParseError::Incomplete)
            } else if s[n1] != 0x3d {
                Err(ParseError::Invalid)
            } else {
                match spec_i2p_string(s.skip(n1 + 1)) {
                    Err(e) => Err(e),
                    Ok((value, n2)) => {
                        if s.len() < n1 + n2 + 2 {
                            Err(ParseError::Incomplete)
                        } else if s[n1 + n2 + 1] != 0x3b {
                            Err(ParseError::Invalid)
                        } else {
                            Ok(((key, value), n1 + n2 + 2))
                        }
                    },
                }
            }
        },
    }
}

/// Reads entries until the input is used up; nothing where some part of
/// the input is no entry.
pub open spec fn spec_pairs(s: Seq<u8>) -> Option<Seq<Pair>>
    decreases s.len(),
{
    if s.len() == 0 {
        Some(Seq::empty())
    } else {
        match spec_pair(s) {
            Err(_) => None,
            Ok((p, n)) => {
                if n <= 0 || n > s.len() {
                    None
                } else {
                    match spec_pairs(s.skip(n)) {
                        None => None,
                        Some(rest) => Some(seq![p] + rest),
                    }
                }
            },
        }
    }
}

/// Reads a mapping: a big-endian 16-bit length, then as many bytes of
/// entries. An entry with a key that came before replaces the earlier one.
#[verifier::opaque]
pub open spec fn spec_mapping(s: Seq<u8>) -> Result<(Seq<Pair>, int), ParseError> {
    match spec_be_u16(s) {
        Err(e) => Err(e),
        Ok((len, _)) => match spec_take(s.skip(2), len as int) {
            Err(e) => Err(e),
            Ok((body, _)) => match spec_pairs(body) {
                None => Err(ParseError::Invalid),
                Some(pairs) => Ok((spec_insert_all(Seq::empty(), pairs), 2 + len)),
            },
        },
    }
}

/// The wire form of one entry.
pub open spec fn spec_gen_pair(p: Pair) -> Seq<u8> {
    spec_gen_i2p_string(p.0) + seq![0x3du8] + spec_gen_i2p_string(p.1) + seq![0x3bu8]
}

/// The wire forms of the entries one after the other.
pub open spec fn spec_gen_pairs(v: Seq<Pair>) -> Seq<u8>
    decreases v.len(),
{
    if v.len() == 0 {
        Seq::empty()
    } else {
        spec_gen_pair(v[0]) + spec_gen_pairs(v.skip(1))
    }
}

/// The wire form of a mapping.
pub open spec fn spec_gen_mapping(v: Seq<Pair>) -> Seq<u8> {
    spec_gen_be_u16(spec_gen_pairs(v).len() as u16) + spec_gen_pairs(v)
}

/// Key and value are texts that fit the one-byte length of a string.
pub open spec fn spec_pair_fits(p: Pair) -> bool {
    &&& p.0.len() <= 255
    &&& p.1.len() <= 255
    &&& valid_utf8(p.0)
    &&& valid_utf8(p.1)
}

/// The entries can be written: each one fits, and all together fit the
/// 16-bit length of a mapping.
pub open spec fn spec_mapping_fits(v: Seq<Pair>) -> bool {
    &&& forall|i: int| 0 <= i < v.len() ==> spec_pair_fits(#[trigger] v[i])
    &&& spec_gen_pairs(v).len() <= 0xffff
}

pub proof fn lemma_pair_roundtrip(p: Pair, rest: Seq<u8>)
    requires
        spec_pair_fits(p),
    ensures
        spec_pair(spec_gen_pair(p) + rest) == Ok::<(Pair, int), ParseError>(
            (p, spec_gen_pair(p).len() as int),
        ),
        spec_gen_pair(p).len() == p.0.len() + p.1.len() + 4,
{
    let s = spec_gen_pair(p) + rest;
    let n1 = 1 + p.0.len() as int;
    let n2 = 1 + p.1.len() as int;
    let rest1 = seq![0x3du8] + spec_gen_i2p_string(p.1) + seq![0x3bu8] + rest;
    assert(s =~= spec_gen_i2p_string(p.0) + rest1);
    lemma_i2p_string_roundtrip(p.0, rest1);
    assert(s[n1] == 0x3du8);
    let rest2 = seq![0x3bu8] + rest;
    assert(s.skip(n1 + 1) =~= spec_gen_i2p_string(p.1) + rest2);
    lemma_i2p_string_roundtrip(p.1, rest2);
    assert(s[n1 + n2 + 1] == 0x3bu8);
}

pub proof fn lemma_pairs_roundtrip(v: Seq<Pair>)
    requires
        forall|i: int| 0 <= i < v.len() ==> spec_pair_fits(#[trigger] v[i]),
    ensures
        spec_pairs(spec_gen_pairs(v)) == Some(v),
    decreases v.len(),
{
    if v.len() == 0 {
        assert(v =~= Seq::<Pair>::empty());
    } else {
        let tail = v.skip(1);
        assert(spec_pair_fits(v[0]));
        lemma_pair_roundtrip(v[0], spec_gen_pairs(tail));
        let s = spec_gen_pairs(v);
        let n = spec_gen_pair(v[0]).len() as int;
        assert(s.skip(n) =~= spec_gen_pairs(tail));
        assert forall|i: int| 0 <= i < tail.len() implies spec_pair_fits(#[trigger] tail[i]) by {
            assert(tail[i] == v[i + 1]);
        }
        lemma_pairs_roundtrip(tail);
        assert(seq![v[0]] + tail =~= v);
    }
}

/// A mapping in canonical order that can be written is read back from its
/// wire form, whatever follows it.
pub proof fn lemma_mapping_roundtrip(v: Seq<Pair>, rest: Seq<u8>)
    requires
        spec_sorted(v),
        spec_mapping_fits(v),
    ensures
        spec_mapping(spec_gen_mapping(v) + rest) == Ok::<(Seq<Pair>, int), ParseError>(
            (v, spec_gen_mapping(v).len() as int),
        ),
{
    reveal(spec_mapping);
    let body = spec_gen_pairs(v);
    let s = spec_gen_mapping(v) + rest;
    assert(s =~= spec_gen_be_u16(body.len() as u16) + (body + rest));
    lemma_be_u16_roundtrip(body.len() as u16, body + rest);
    assert(s.skip(2) =~= body + rest);
    lemma_take_roundtrip(body, rest);
    lemma_pairs_roundtrip(v);
    assert(Seq::<Pair>::empty() + v =~= v);
    crate::data::mapping::lemma_insert_all_sorted(Seq::empty(), v);
}

pub proof fn lemma_gen_pairs_push(v: Seq<Pair>, p: Pair)
    ensures
        spec_gen_pairs(v.push(p)) == spec_gen_pairs(v) + spec_gen_pair(p),
    decreases v.len(),
{
    if v.len() == 0 {
        let one = v.push(p);
        assert(one.skip(1) =~= Seq::<Pair>::empty());
        assert(spec_gen_pairs(one.skip(1)) =~= Seq::<u8>::empty());
        assert(one[0] == p);
        assert(spec_gen_pairs(one) =~= spec_gen_pair(p));
        assert(spec_gen_pairs(v) =~= Seq::<u8>::empty());
    } else {
        assert(v.push(p).skip(1) =~= v.skip(1).push(p));
        lemma_gen_pairs_push(v.skip(1), p);
        assert(spec_gen_pair(v[0]) + (spec_gen_pairs(v.skip(1)) + spec_gen_pair(p))
            =~= spec_gen_pairs(v) + spec_gen_pair(p));
    }
}

pub proof fn lemma_insert_all_push(acc: Seq<Pair>, v: Seq<Pair>, p: Pair)
    ensures
        spec_insert_all(acc, v.push(p)) == spec_insert(spec_insert_all(acc, v), p.0, p.1),
    decreases v.len(),
{
    if v.len() == 0 {
        let one = v.push(p);
        assert(one.skip(1) =~= Seq::<Pair>::empty());
        assert(one[0] == p);
        assert(spec_insert_all(spec_insert(acc, p.0, p.1), one.skip(1)) == spec_insert(
            acc,
            p.0,
            p.1,
        ));
        assert(spec_insert_all(acc, v) == acc);
    } else {
        let more = v.push(p);
        assert(more.skip(1) =~= v.skip(1).push(p));
        assert(more[0] == v[0]);
        lemma_insert_all_push(spec_insert(acc, v[0].0, v[0].1), v.skip(1), p);
    }
}

/// What is read as an entry fits, and its wire form is what was read.
pub proof fn lemma_pair_parsed(s: Seq<u8>)
    requires
        spec_pair(s) is Ok,
    ensures
        spec_pair_fits(spec_pair(s)->Ok_0.0),
        0 < spec_pair(s)->Ok_0.1 <= s.len(),
        spec_gen_pair(spec_pair(s)->Ok_0.0) == s.subrange(0, spec_pair(s)->Ok_0.1),
{
    let (key, n1) = spec_i2p_string(s)->Ok_0;
    let (value, n2) = spec_i2p_string(s.skip(n1 + 1))->Ok_0;
    let t = s.skip(n1 + 1);
    assert(value == t.subrange(1, 1 + t[0]));
    assert(spec_gen_pair((key, value)) =~= s.subrange(0, n1 + n2 + 2));
}

/// What is read as entries fits, and the wire form of the entries is what
/// was read.
pub proof fn lemma_pairs_parsed(s: Seq<u8>)
    requires
        spec_pairs(s) is Some,
    ensures
        forall|i: int|
            0 <= i < spec_pairs(s)->Some_0.len() ==> spec_pair_fits(
                #[trigger] spec_pairs(s)->Some_0[i],
            ),
        spec_gen_pairs(spec_pairs(s)->Some_0) == s,
    decreases s.len(),
{
    if s.len() == 0 {
        assert(spec_gen_pairs(Seq::<Pair>::empty()) =~= s);
    } else {
        lemma_pair_parsed(s);
        let (p, n) = spec_pair(s)->Ok_0;
        lemma_pairs_parsed(s.skip(n));
        let rest = spec_pairs(s.skip(n))->Some_0;
        let all = seq![p] + rest;
        assert(all.skip(1) =~= rest);
        assert(spec_gen_pairs(all) =~= s.subrange(0, n) + s.skip(n));
        assert(s.subrange(0, n) + s.skip(n) =~= s);
        assert forall|i: int| 0 <= i < all.len() implies spec_pair_fits(#[trigger] all[i]) by {
            if i > 0 {
                assert(all[i] == rest[i - 1]);
            }
        }
    }
}

/// The wire form of entries with one more in front.
pub proof fn lemma_gen_pairs_cons(p: Pair, v: Seq<Pair>)
    ensures
        spec_gen_pairs(seq![p] + v) == spec_gen_pair(p) + spec_gen_pairs(v),
{
    assert((seq![p] + v).skip(1) =~= v);
}

/// An insertion keeps the entries writable and adds no more bytes than
/// the new entry has.
pub proof fn lemma_insert_fits(v: Seq<Pair>, key: Seq<u8>, value: Seq<u8>)
    requires
        forall|i: int| 0 <= i < v.len() ==> spec_pair_fits(#[trigger] v[i]),
        spec_pair_fits((key, value)),
    ensures
        forall|i: int|
            0 <= i < spec_insert(v, key, value).len() ==> spec_pair_fits(
                #[trigger] spec_insert(v, key, value)[i],
            ),
        spec_gen_pairs(spec_insert(v, key, value)).len() <= spec_gen_pairs(v).len()
            + spec_gen_pair((key, value)).len(),
    decreases v.len(),
{
    let r = spec_insert(v, key, value);
    let p = (key, value);
    if v.len() == 0 {
        lemma_gen_pairs_cons(p, Seq::empty());
        assert(r =~= seq![p] + Seq::<Pair>::empty());
    } else if v[0].0 == key {
        lemma_gen_pairs_cons(p, v.skip(1));
        assert forall|i: int| 0 <= i < r.len() implies spec_pair_fits(#[trigger] r[i]) by {
            if i > 0 {
                assert(r[i] == v[i]);
            }
        }
    } else if crate::data::mapping::bytes_lt(key, v[0].0) {
        lemma_gen_pairs_cons(p, v);
        assert forall|i: int| 0 <= i < r.len() implies spec_pair_fits(#[trigger] r[i]) by {
            if i > 0 {
                assert(r[i] == v[i - 1]);
            }
        }
    } else {
        let w = v.skip(1);
        assert forall|i: int| 0 <= i < w.len() implies spec_pair_fits(#[trigger] w[i]) by {
            assert(w[i] == v[i + 1]);
        }
        lemma_insert_fits(w, key, value);
        let rw = spec_insert(w, key, value);
        lemma_gen_pairs_cons(v[0], rw);
        assert forall|i: int| 0 <= i < r.len() implies spec_pair_fits(#[trigger] r[i]) by {
            if i > 0 {
                assert(r[i] == rw[i - 1]);
            } else {
                assert(r[0] == v[0]);
            }
        }
    }
}

/// Storing writable entries into writable entries in canonical order
/// gives writable entries in canonical order, and no more bytes.
pub proof fn lemma_insert_all_fits(acc: Seq<Pair>, pairs: Seq<Pair>)
    requires
        spec_sorted(acc),
        forall|i: int| 0 <= i < acc.len() ==> spec_pair_fits(#[trigger] acc[i]),
        forall|i: int| 0 <= i < pairs.len() ==> spec_pair_fits(#[trigger] pairs[i]),
    ensures
        spec_sorted(spec_insert_all(acc, pairs)),
        forall|i: int|
            0 <= i < spec_insert_all(acc, pairs).len() ==> spec_pair_fits(
                #[trigger] spec_insert_all(acc, pairs)[i],
            ),
        spec_gen_pairs(spec_insert_all(acc, pairs)).len() <= spec_gen_pairs(acc).len()
            + spec_gen_pairs(pairs).len(),
    decreases pairs.len(),
{
    if pairs.len() > 0 {
        let p = pairs[0];
        assert(spec_pair_fits(p));
        lemma_insert_fits(acc, p.0, p.1);
        crate::data::mapping::lemma_insert_sorted(acc, p.0, p.1);
        let tail = pairs.skip(1);
        assert forall|i: int| 0 <= i < tail.len() implies spec_pair_fits(#[trigger] tail[i]) by {
            assert(tail[i] == pairs[i + 1]);
        }
        lemma_insert_all_fits(spec_insert(acc, p.0, p.1), tail);
    }
}

/// What is read as a mapping is in canonical order and can be written.
pub proof fn lemma_mapping_parsed(s: Seq<u8>)
    requires
        spec_mapping(s) is Ok,
    ensures
        spec_sorted(spec_mapping(s)->Ok_0.0),
        spec_mapping_fits(spec_mapping(s)->Ok_0.0),
        2 <= spec_mapping(s)->Ok_0.1 <= s.len(),
{
    reveal(spec_mapping);
    let len = spec_be_u16(s)->Ok_0.0;
    let body = s.skip(2).subrange(0, len as int);
    lemma_pairs_parsed(body);
    let pairs = spec_pairs(body)->Some_0;
    assert(spec_gen_pairs(Seq::<Pair>::empty()).len() == 0);
    lemma_insert_all_fits(Seq::empty(), pairs);
}

/// Reads one entry at `pos`.
fn pair(input: &[u8], pos: usize) -> (r: Result<(I2PString, I2PString, usize), ParseError>)
    requires
        pos <= input@.len(),
    ensures
        match r {
            Ok((k, v, end)) => spec_pair(input@.skip(pos as int)) == Ok::<(Pair, int), ParseError>(
                ((k@, v@), end - pos),
            ) && pos < end <= input@.len(),
            Err(e) => spec_pair(input@.skip(pos as int)) == Err::<(Pair, int), ParseError>(e),
        },
{
    let ghost s = input@.skip(pos as int);
    let (key, p1) = match i2p_string(input, pos) {
        Ok(r) => r,
        Err(e) => {
            return Err(e);
        },
    };
    if input.len() - p1 < 1 {
        return Err(ParseError::Incomplete);
    }
    assert(s[p1 - pos] == input@[p1 as int]);
    if input[p1] != 0x3d {
        return Err(ParseError::Invalid);
    }
    assert(s.skip(p1 - pos + 1) =~= input@.skip(p1 + 1));
    let (value, p2) = match i2p_string(input, p1 + 1) {
        Ok(r) => r,
        Err(e) => {
            return Err(e);
        },
    };
    if input.len() - p2 < 1 {
        return Err(ParseError::Incomplete);
    }
    assert(s[p2 - pos] == input@[p2 as int]);
    if input[p2] != 0x3b {
        return Err(ParseError::Invalid);
    }
    Ok((key, value, p2 + 1))
}

/// Reads the entries that make up the whole of `body`.
#[verifier::rlimit(40)]
fn pairs(body: &[u8]) -> (r: Option<Mapping>)
    ensures
        match r {
            Some(m) => spec_pairs(body@) matches Some(ps) && m@ == spec_insert_all(
                Seq::empty(),
                ps,
            ) && m.wf(),
            None => spec_pairs(body@) is None,
        },
{
    let mut m = Mapping::new();
    let mut pos: usize = 0;
    let ghost mut done: Seq<Pair> = Seq::empty();
    proof {
        assert(body@.skip(0) =~= body@);
        assert(forall|rest: Seq<Pair>| Seq::<Pair>::empty() + rest =~= rest);
    }
    while pos < body.len()
        invariant
            pos <= body@.len(),
            m.wf(),
            m@ == spec_insert_all(Seq::empty(), done),
            spec_pairs(body@) == match spec_pairs(body@.skip(pos as int)) {
                Some(rest) => Some(done + rest),
                None => None::<Seq<Pair>>,
            },
        decreases body@.len() - pos,
    {
        let ghost tail = body@.skip(pos as int);
        match pair(body, pos) {
            Err(_) => {
                return None;
            },
            Ok((key, value, end)) => {
                proof {
                    assert(tail.skip(end - pos) =~= body@.skip(end as int));
                    lemma_insert_all_push(Seq::empty(), done, (key@, value@));
                    assert forall|rest: Seq<Pair>|
                        done + (seq![(key@, value@)] + rest) =~= #[trigger] (done.push(
                            (key@, value@),
                        ) + rest) by {}
                    done = done.push((key@, value@));
                }
                m.insert(key, value);
                pos = end;
            },
        }
    }
    proof {
        assert(body@.skip(pos as int) =~= Seq::<u8>::empty());
        assert(done + Seq::<Pair>::empty() =~= done);
    }
    Some(m)
}

/// Reads a mapping at `pos`.
pub fn mapping(input: &[u8], pos: usize) -> (r: Result<(Mapping, usize), ParseError>)
    requires
        pos <= input@.len(),
    ensures
        match r {
            Ok((m, end)) => spec_mapping(input@.skip(pos as int)) == Ok::<
                (Seq<Pair>, int),
                ParseError,
            >((m@, end - pos)) && pos < end <= input@.len() && m.wf() && spec_mapping_fits(m@),
            Err(e) => spec_mapping(input@.skip(pos as int)) == Err::<(Seq<Pair>, int), ParseError>(
                e,
            ),
        },
{
    proof {
        reveal(spec_mapping);
    }
    let ghost s = input@.skip(pos as int);
    proof {
        if spec_mapping(s) is Ok {
            lemma_mapping_parsed(s);
        }
    }
    let (len, p1) = match be_u16(input, pos) {
        Ok(r) => r,
        Err(e) => {
            return Err(e);
        },
    };
    assert(s.skip(2) =~= input@.skip(p1 as int));
    let (body, p2) = match take(input, p1, len as usize) {
        Ok(r) => r,
        Err(e) => {
            return Err(e);
        },
    };
    match pairs(body.as_slice()) {
        Some(m) => Ok((m, p2)),
        None => Err(ParseError::Invalid),
    }
}

/// Whether the mapping can be written.
#[verifier::rlimit(40)]
pub fn mapping_fits(m: &Mapping) -> (r: bool)
    ensures
        r == spec_mapping_fits(m@),
{
    let mut total: usize = 0;
    let mut i: usize = 0;
    proof {
        assert(m@.subrange(0, 0) =~= Seq::<Pair>::empty());
    }
    while i < m.0.len()
        invariant
            i <= m.0@.len(),
            m@.len() == m.0@.len(),
            total == spec_gen_pairs(m@.subrange(0, i as int)).len(),
            total <= 0xffff,
            forall|j: int| 0 <= j < i ==> spec_pair_fits(#[trigger] m@[j]),
        decreases m.0@.len() - i,
    {
        let k = m.0[i].0.0.as_str().as_bytes().len();
        let v = m.0[i].1.0.as_str().as_bytes().len();
        proof {
            vstd::utf8::encode_utf8_valid_utf8(m.0@[i as int].0.0@);
            vstd::utf8::encode_utf8_valid_utf8(m.0@[i as int].1.0@);
            assert(m@[i as int] == (m.0@[i as int].0@, m.0@[i as int].1@));
        }
        if k > 255 || v > 255 {
            assert(!spec_pair_fits(m@[i as int]));
            return false;
        }
        proof {
            assert(m@.subrange(0, i + 1) =~= m@.subrange(0, i as int).push(m@[i as int]));
            lemma_gen_pairs_push(m@.subrange(0, i as int), m@[i as int]);
            lemma_pair_roundtrip(m@[i as int], Seq::empty());
        }
        total = total + k + v + 4;
        if total > 0xffff {
            proof {
                lemma_gen_pairs_prefix(m@, i + 1);
            }
            return false;
        }
        i += 1;
    }
    assert(m@.subrange(0, i as int) =~= m@);
    true
}

/// The entries up to `i` take no more bytes than all of them.
pub proof fn lemma_gen_pairs_prefix(v: Seq<Pair>, i: int)
    requires
        0 <= i <= v.len(),
    ensures
        spec_gen_pairs(v.subrange(0, i)).len() <= spec_gen_pairs(v).len(),
    decreases v.len() - i,
{
    if i == v.len() {
        assert(v.subrange(0, i) =~= v);
    } else {
        assert(v.subrange(0, i + 1) =~= v.subrange(0, i).push(v[i]));
        lemma_gen_pairs_push(v.subrange(0, i), v[i]);
        lemma_gen_pairs_prefix(v, i + 1);
    }
}

/// Appends the wire form of a mapping that can be written.
pub fn gen_mapping(buf: &mut Vec<u8>, m: &Mapping)
    requires
        spec_mapping_fits(m@),
    ensures
        final(buf)@ == old(buf)@ + spec_gen_mapping(m@),
{
    let mut body: Vec<u8> = Vec::new();
    let mut i: usize = 0;
    proof {
        assert(m@.subrange(0, 0) =~= Seq::<Pair>::empty());
    }
    while i < m.0.len()
        invariant
            i <= m.0@.len(),
            m@.len() == m.0@.len(),
            spec_mapping_fits(m@),
            body@ == spec_gen_pairs(m@.subrange(0, i as int)),
        decreases m.0@.len() - i,
    {
        proof {
            assert(m@[i as int] == (m.0@[i as int].0@, m.0@[i as int].1@));
            assert(spec_pair_fits(m@[i as int]));
            assert(m@.subrange(0, i + 1) =~= m@.subrange(0, i as int).push(m@[i as int]));
            lemma_gen_pairs_push(m@.subrange(0, i as int), m@[i as int]);
        }
        let ghost before = body@;
        gen_i2p_string(&mut body, &m.0[i].0);
        body.push(0x3d);
        gen_i2p_string(&mut body, &m.0[i].1);
        body.push(0x3b);
        assert(body@ =~= before + spec_gen_pair(m@[i as int]));
        i += 1;
    }
    assert(m@.subrange(0, i as int) =~= m@);
    gen_be_u16(buf, body.len() as u16);
    buf.extend_from_slice(body.as_slice());
    assert(buf@ =~= old(buf)@ + spec_gen_mapping(m@));
}

//
// Certificates
//
/// Reads the payload of a key certificate: the two algorithm tags, then the
/// key data in excess of the key block, and nothing more.
pub open spec fn spec_key_certificate(p: Seq<u8>) -> Option<KeyCertificateView> {
    if p.len() < 4 {
        None
    } else {
        let sig_tag = (p[0] as int * 256 + p[1] as int) as u16;
        let enc_tag = (p[2] as int * 256 + p[3] as int) as u16;
        match (SigType::spec_from_bytes(sig_tag), EncType::spec_from_bytes(enc_tag)) {
            (Some(sig_type), Some(enc_type)) => {
                let n1 = sig_type.spec_extra_data_len(enc_type) as int;
                let n2 = enc_type.spec_extra_data_len(sig_type) as int;
                if p.len() != 4 + n1 + n2 {
                    None
                } else {
                    Some(
                        KeyCertificateView {
                            sig_type,
                            enc_type,
                            sig_data: p.subrange(4, 4 + n1),
                            enc_data: p.subrange(4 + n1, 4 + n1 + n2),
                        },
                    )
                }
            },
            _ => None,
        }
    }
}

/// The payload of a key certificate.
pub open spec fn spec_gen_key_certificate(kc: KeyCertificateView) -> Seq<u8> {
    spec_gen_be_u16(kc.sig_type.spec_code()) + spec_gen_be_u16(kc.enc_type.spec_code())
        + kc.sig_data + kc.enc_data
}

/// The payload of a certificate.
pub open spec fn spec_certificate_payload(c: CertificateView) -> Seq<u8> {
    match c {
        CertificateView::Null => Seq::empty(),
        CertificateView::HashCash(p) => p,
        CertificateView::Hidden => Seq::empty(),
        CertificateView::Signed(p) => p,
        CertificateView::Multiple(p) => p,
        CertificateView::Key(kc) => spec_gen_key_certificate(kc),
    }
}

/// The wire form of a certificate: type code, 16-bit payload length,
/// payload.
pub open spec fn spec_gen_certificate(c: CertificateView) -> Seq<u8> {
    seq![c.code()] + spec_gen_be_u16(spec_certificate_payload(c).len() as u16)
        + spec_certificate_payload(c)
}

/// Reads a certificate. A type code above 5 is invalid, as is a null or
/// hidden certificate with a payload and a key certificate whose payload is
/// not exactly what its algorithms ask for.
#[verifier::opaque]
pub open spec fn spec_certificate(s: Seq<u8>) -> Result<(CertificateView, int), ParseError> {
    match spec_u8(s) {
        Err(e) => Err(e),
        Ok((code, _)) => {
            if code > 5 {
                Err(ParseError::Invalid)
            } else {
                match spec_be_u16(s.skip(1)) {
                    Err(e) => Err(e),
                    Ok((len, _)) => {
                        if code == 0 || code == 2 {
                            if len != 0 {
                                Err(ParseError::Invalid)
                            } else if code == 0 {
                                Ok((CertificateView::Null, 3))
                            } else {
                                Ok((CertificateView::Hidden, 3))
                            }
                        } else {
                            match spec_take(s.skip(3), len as int) {
                                Err(e) => Err(e),
                                Ok((payload, _)) => {
                                    if code == 1 {
                                        Ok((CertificateView::HashCash(payload), 3 + len))
                                    } else if code == 3 {
                                        Ok((CertificateView::Signed(payload), 3 + len))
                                    } else if code == 4 {
                                        Ok((CertificateView::Multiple(payload), 3 + len))
                                    } else {
                                        match spec_key_certificate(payload) {
                                            None => Err(ParseError::Invalid),
                                            Some(kc) => Ok((CertificateView::Key(kc), 3 + len)),
                                        }
                                    }
                                },
                            }
                        }
                    },
                }
            }
        },
    }
}

pub proof fn lemma_key_certificate_roundtrip(kc: KeyCertificateView)
    requires
        kc.wf(),
    ensures
        spec_key_certificate(spec_gen_key_certificate(kc)) == Some(kc),
        spec_gen_key_certificate(kc).len() == 4 + kc.sig_data.len() + kc.enc_data.len(),
{
    let p = spec_gen_key_certificate(kc);
    let n1 = kc.sig_data.len() as int;
    let n2 = kc.enc_data.len() as int;
    lemma_be_u16_roundtrip(
        kc.sig_type.spec_code(),
        spec_gen_be_u16(kc.enc_type.spec_code()) + kc.sig_data + kc.enc_data,
    );
    assert(p =~= spec_gen_be_u16(kc.sig_type.spec_code()) + (spec_gen_be_u16(
        kc.enc_type.spec_code(),
    ) + kc.sig_data + kc.enc_data));
    lemma_be_u16_roundtrip(kc.enc_type.spec_code(), kc.sig_data + kc.enc_data);
    assert(p.skip(2) =~= spec_gen_be_u16(kc.enc_type.spec_code()) + (kc.sig_data + kc.enc_data));
    assert(p[2] == p.skip(2)[0]);
    assert(p[3] == p.skip(2)[1]);
    assert(p.subrange(4, 4 + n1) =~= kc.sig_data);
    assert(p.subrange(4 + n1, 4 + n1 + n2) =~= kc.enc_data);
}

/// A well-formed certificate is read back from its wire form, whatever
/// follows it.
pub proof fn lemma_certificate_roundtrip(c: CertificateView, rest: Seq<u8>)
    requires
        c.wf(),
    ensures
        spec_certificate(spec_gen_certificate(c) + rest) == Ok::<
            (CertificateView, int),
            ParseError,
        >((c, spec_gen_certificate(c).len() as int)),
        spec_gen_certificate(c).len() == 3 + spec_certificate_payload(c).len(),
        spec_certificate_payload(c).len() <= 0xffff,
{
    reveal(spec_certificate);
    let payload = spec_certificate_payload(c);
    if c is Key {
        lemma_key_certificate_roundtrip(c->Key_0);
    }
    let s = spec_gen_certificate(c) + rest;
    assert(s =~= seq![c.code()] + (spec_gen_be_u16(payload.len() as u16) + (payload + rest)));
    assert(s.skip(1) =~= spec_gen_be_u16(payload.len() as u16) + (payload + rest));
    lemma_be_u16_roundtrip(payload.len() as u16, payload + rest);
    assert(s.skip(3) =~= payload + rest);
    lemma_take_roundtrip(payload, rest);
}

/// Reads the payload of a key certificate.
fn key_certificate(payload: &[u8]) -> (r: Option<KeyCertificate>)
    ensures
        match r {
            Some(kc) => spec_key_certificate(payload@) == Some(kc@) && kc@.wf(),
            None => spec_key_certificate(payload@) is None,
        },
{
    if payload.len() < 4 {
        return None;
    }
    let sig_tag: u16 = (payload[0] as u16) * 256 + (payload[1] as u16);
    let enc_tag: u16 = (payload[2] as u16) * 256 + (payload[3] as u16);
    let sig_type = match SigType::from_bytes(sig_tag) {
        Some(t) => t,
        None => {
            return None;
        },
    };
    let enc_type = match EncType::from_bytes(enc_tag) {
        Some(t) => t,
        None => {
            return None;
        },
    };
    let n1 = sig_type.extra_data_len(&enc_type);
    let n2 = enc_type.extra_data_len(&sig_type);
    if payload.len() - 4 != n1 + n2 {
        return None;
    }
    let sig_data = crate::bytes::copy_bytes(vstd::slice::slice_subrange(payload, 4, 4 + n1));
    let enc_data = crate::bytes::copy_bytes(
        vstd::slice::slice_subrange(payload, 4 + n1, 4 + n1 + n2),
    );
    Some(KeyCertificate::new(sig_type, enc_type, sig_data, enc_data))
}

/// Reads a certificate at `pos`.
pub fn certificate(input: &[u8], pos: usize) -> (r: Result<(Certificate, usize), ParseError>)
    requires
        pos <= input@.len(),
    ensures
        match r {
            Ok((c, end)) => spec_certificate(input@.skip(pos as int)) == Ok::<
                (CertificateView, int),
                ParseError,
            >((c@, end - pos)) && pos <= end <= input@.len() && c@.wf(),
            Err(e) => spec_certificate(input@.skip(pos as int)) == Err::<
                (CertificateView, int),
                ParseError,
            >(e),
        },
{
    proof {
        reveal(spec_certificate);
    }
    let ghost s = input@.skip(pos as int);
    let (code, p1) = match be_u8(input, pos) {
        Ok(r) => r,
        Err(e) => {
            return Err(e);
        },
    };
    if code > 5 {
        return Err(ParseError::Invalid);
    }
    assert(s.skip(1) =~= input@.skip(p1 as int));
    let (len, p2) = match be_u16(input, p1) {
        Ok(r) => r,
        Err(e) => {
            return Err(e);
        },
    };
    if code == 0 || code == 2 {
        if len != 0 {
            return Err(ParseError::Invalid);
        }
        if code == 0 {
            return Ok((Certificate::Null, p2));
        } else {
            return Ok((Certificate::Hidden, p2));
        }
    }
    assert(s.skip(3) =~= input@.skip(p2 as int));
    let (payload, p3) = match take(input, p2, len as usize) {
        Ok(r) => r,
        Err(e) => {
            return Err(e);
        },
    };
    if code == 1 {
        Ok((Certificate::HashCash(payload), p3))
    } else if code == 3 {
        Ok((Certificate::Signed(payload), p3))
    } else if code == 4 {
        Ok((Certificate::Multiple(payload), p3))
    } else {
        match key_certificate(payload.as_slice()) {
            Some(kc) => Ok((Certificate::Key(kc), p3)),
            None => Err(ParseError::Invalid),
        }
    }
}

/// Appends the wire form of a well-formed certificate.
pub fn gen_certificate(buf: &mut Vec<u8>, c: &Certificate)
    requires
        c@.wf(),
    ensures
        final(buf)@ == old(buf)@ + spec_gen_certificate(c@),
{
    buf.push(c.code());
    match c {
        Certificate::Null => {
            gen_be_u16(buf, 0);
        },
        Certificate::Hidden => {
            gen_be_u16(buf, 0);
        },
        Certificate::HashCash(p) => {
            gen_be_u16(buf, p.len() as u16);
            buf.extend_from_slice(p.as_slice());
        },
        Certificate::Signed(p) => {
            gen_be_u16(buf, p.len() as u16);
            buf.extend_from_slice(p.as_slice());
        },
        Certificate::Multiple(p) => {
            gen_be_u16(buf, p.len() as u16);
            buf.extend_from_slice(p.as_slice());
        },
        Certificate::Key(kc) => {
            let sig_data = kc.sig_data();
            let enc_data = kc.enc_data();
            let len = 4 + sig_data.len() + enc_data.len();
            gen_be_u16(buf, len as u16);
            gen_be_u16(buf, kc.sig_type().code());
            gen_be_u16(buf, kc.enc_type().code());
            buf.extend_from_slice(sig_data);
            buf.extend_from_slice(enc_data);
            proof {
                lemma_key_certificate_roundtrip(kc@);
            }
        },
    }
    assert(buf@ =~= old(buf)@ + spec_gen_certificate(c@));
}

//
// Router identities
//
/// The part of the signing key that stands in the key block.
pub open spec fn spec_key_in_block(v: RouterIdentityView) -> Seq<u8> {
    v.signing_key.bytes.subrange(0, 128 - v.pad_len())
}

/// The wire form of a router identity: 384 bytes with the encryption key,
/// the padding and as much of the signing key as fits, then the
/// certificate.
pub open spec fn spec_gen_router_identity(v: RouterIdentityView) -> Seq<u8> {
    v.public_key + v.padding_bytes() + spec_key_in_block(v) + spec_gen_certificate(v.certificate)
}

/// The identity that the key block and the certificate after it describe.
pub open spec fn spec_identity_of(
    public_key: Seq<u8>,
    signing_data: Seq<u8>,
    certificate: CertificateView,
) -> RouterIdentityView {
    match certificate {
        CertificateView::Key(kc) => {
            let pad = kc.sig_type.spec_pad_len(kc.enc_type) as int;
            RouterIdentityView {
                public_key,
                padding: if pad > 0 {
                    Some(signing_data.subrange(0, pad))
                } else {
                    None
                },
                signing_key: TypedBytes {
                    sig_type: kc.sig_type,
                    bytes: signing_data.skip(pad) + kc.sig_data,
                },
                certificate,
            }
        },
        _ => RouterIdentityView {
            public_key,
            padding: None,
            signing_key: TypedBytes { sig_type: SigType::DsaSha1, bytes: signing_data },
            certificate,
        },
    }
}

/// Reads a router identity.
#[verifier::opaque]
pub open spec fn spec_router_identity(s: Seq<u8>) -> Result<(RouterIdentityView, int), ParseError> {
    match spec_take(s, 256) {
        Err(e) => Err(e),
        Ok((public_key, _)) => match spec_take(s.skip(256), 128) {
            Err(e) => Err(e),
            Ok((signing_data, _)) => match spec_certificate(s.skip(384)) {
                Err(e) => Err(e),
                Ok((certificate, n)) => Ok(
                    (spec_identity_of(public_key, signing_data, certificate), 384 + n),
                ),
            },
        },
    }
}

/// What is read as a router identity is well-formed.
pub proof fn lemma_parsed_identity_wf(s: Seq<u8>)
    requires
        spec_router_identity(s) is Ok,
    ensures
        spec_router_identity(s)->Ok_0.0.wf(),
        384 <= spec_router_identity(s)->Ok_0.1 <= s.len(),
{
    reveal(spec_router_identity);
    let public_key = s.subrange(0, 256);
    let signing_data = s.skip(256).subrange(0, 128);
    let c = spec_certificate(s.skip(384))->Ok_0.0;
    lemma_parsed_certificate_wf(s.skip(384));
    let v = spec_identity_of(public_key, signing_data, c);
    match c {
        CertificateView::Key(kc) => {
            let pad = kc.sig_type.spec_pad_len(kc.enc_type) as int;
            assert(v.signing_key.bytes.skip(v.signing_key.bytes.len() - kc.sig_data.len())
                =~= kc.sig_data);
        },
        _ => {},
    }
}

/// What is read as a certificate is well-formed.
pub proof fn lemma_parsed_certificate_wf(s: Seq<u8>)
    requires
        spec_certificate(s) is Ok,
    ensures
        spec_certificate(s)->Ok_0.0.wf(),
        3 <= spec_certificate(s)->Ok_0.1 <= s.len(),
{
    reveal(spec_certificate);
}

/// A well-formed identity is read back from its wire form, whatever
/// follows it.
#[verifier::rlimit(40)]
pub proof fn lemma_router_identity_roundtrip(v: RouterIdentityView, rest: Seq<u8>)
    requires
        v.wf(),
    ensures
        spec_router_identity(spec_gen_router_identity(v) + rest) == Ok::<
            (RouterIdentityView, int),
            ParseError,
        >((v, spec_gen_router_identity(v).len() as int)),
        spec_gen_router_identity(v).len() == 384 + spec_gen_certificate(v.certificate).len(),
{
    reveal(spec_router_identity);
    let cert = spec_gen_certificate(v.certificate);
    let s = spec_gen_router_identity(v) + rest;
    let pad = v.pad_len() as int;
    let in_block = spec_key_in_block(v);
    match v.certificate {
        CertificateView::Key(kc) => {
            assert(kc.sig_data.len() == kc.sig_type.spec_extra_data_len(kc.enc_type));
        },
        _ => {},
    }
    assert(in_block.len() == 128 - pad);
    assert(s =~= v.public_key + (v.padding_bytes() + in_block + cert + rest));
    lemma_take_roundtrip(v.public_key, v.padding_bytes() + in_block + cert + rest);
    assert(s.skip(256) =~= (v.padding_bytes() + in_block) + (cert + rest));
    lemma_take_roundtrip(v.padding_bytes() + in_block, cert + rest);
    assert(s.skip(384) =~= cert + rest);
    lemma_certificate_roundtrip(v.certificate, rest);
    let signing_data = v.padding_bytes() + in_block;
    let w = spec_identity_of(v.public_key, signing_data, v.certificate);
    match v.certificate {
        CertificateView::Key(kc) => {
            assert(signing_data.skip(pad) =~= in_block);
            assert(in_block + kc.sig_data =~= v.signing_key.bytes);
            if pad > 0 {
                assert(signing_data.subrange(0, pad) =~= v.padding->Some_0);
            }
        },
        _ => {
            assert(signing_data =~= v.signing_key.bytes);
        },
    }
    assert(w == v);
}

/// Reads a router identity at `pos`.
#[verifier::rlimit(40)]
pub fn router_identity(input: &[u8], pos: usize) -> (r: Result<(RouterIdentity, usize), ParseError>)
    requires
        pos <= input@.len(),
    ensures
        match r {
            Ok((v, end)) => spec_router_identity(input@.skip(pos as int)) == Ok::<
                (RouterIdentityView, int),
                ParseError,
            >((v@, end - pos)) && pos <= end <= input@.len() && v@.wf(),
            Err(e) => spec_router_identity(input@.skip(pos as int)) == Err::<
                (RouterIdentityView, int),
                ParseError,
            >(e),
        },
{
    proof {
        reveal(spec_router_identity);
    }
    let ghost s = input@.skip(pos as int);
    let (public_key, p1) = match take(input, pos, 256) {
        Ok(r) => r,
        Err(e) => {
            return Err(e);
        },
    };
    assert(s.skip(256) =~= input@.skip(p1 as int));
    let (signing_data, p2) = match take(input, p1, 128) {
        Ok(r) => r,
        Err(e) => {
            return Err(e);
        },
    };
    assert(s.skip(384) =~= input@.skip(p2 as int));
    let (cert, p3) = match certificate(input, p2) {
        Ok(r) => r,
        Err(e) => {
            return Err(e);
        },
    };
    proof {
        lemma_parsed_identity_wf(s);
    }
    let key_array: [u8; 256] = crate::bytes::to_array(public_key.as_slice());
    assert(key_array@ =~= public_key@);
    let (sig_type, pad) = match &cert {
        Certificate::Key(kc) => (kc.sig_type(), kc.sig_type().pad_len(&kc.enc_type())),
        _ => (SigType::DsaSha1, 0),
    };
    let padding = if pad > 0 {
        Some(crate::bytes::copy_bytes(vstd::slice::slice_subrange(signing_data.as_slice(), 0, pad)))
    } else {
        None
    };
    let mut key_bytes = crate::bytes::copy_bytes(
        vstd::slice::slice_subrange(signing_data.as_slice(), pad, 128),
    );
    match &cert {
        Certificate::Key(kc) => {
            key_bytes.extend_from_slice(kc.sig_data());
        },
        _ => {},
    }
    let ghost want = spec_identity_of(public_key@, signing_data@, cert@);
    assert(key_bytes@ =~= want.signing_key.bytes);
    match SigningPublicKey::from_bytes(sig_type, key_bytes.as_slice()) {
        Ok(signing_key) => {
            let rid = RouterIdentity::from_parts(PublicKey(key_array), padding, signing_key, cert);
            assert(rid@ == want);
            Ok((rid, p3))
        },
        Err(_) => {
            assert(false);
            Err(ParseError::Invalid)
        },
    }
}

/// Appends the wire form of a well-formed identity.
pub fn gen_router_identity(buf: &mut Vec<u8>, rid: &RouterIdentity)
    requires
        rid@.wf(),
    ensures
        final(buf)@ == old(buf)@ + spec_gen_router_identity(rid@),
{
    buf.extend_from_slice(rid.public_key().0.as_slice());
    match rid.padding() {
        Some(p) => {
            buf.extend_from_slice(p.as_slice());
        },
        None => {},
    }
    let key = rid.signing_key().as_bytes();
    let pad = match rid.certificate() {
        Certificate::Key(kc) => kc.sig_type().pad_len(&kc.enc_type()),
        _ => 0,
    };
    buf.extend_from_slice(vstd::slice::slice_subrange(key, 0, 128 - pad));
    gen_certificate(buf, rid.certificate());
    assert(buf@ =~= old(buf)@ + spec_gen_router_identity(rid@));
}

//
// Router addresses
//
/// Reads a router address: cost, expiration, transport style, options.
#[verifier::opaque]
pub open spec fn spec_router_address(s: Seq<u8>) -> Result<(RouterAddressView, int), ParseError> {
    match spec_u8(s) {
        Err(e) => Err(e),
        Ok((cost, _)) => match spec_be_u64(s.skip(1)) {
            Err(e) => Err(e),
            Ok((expiration, _)) => match spec_i2p_string(s.skip(9)) {
                Err(e) => Err(e),
                Ok((transport_style, n1)) => match spec_mapping(s.skip(9 + n1)) {
                    Err(e) => Err(e),
                    Ok((options, n2)) => Ok(
                        (
                            RouterAddressView { cost, expiration, transport_style, options },
                            9 + n1 + n2,
                        ),
                    ),
                },
            },
        },
    }
}

/// The wire form of a router address.
pub open spec fn spec_gen_router_address(v: RouterAddressView) -> Seq<u8> {
    seq![v.cost] + spec_gen_be_u64(v.expiration) + spec_gen_i2p_string(v.transport_style)
        + spec_gen_mapping(v.options)
}

/// A well-formed address is read back from its wire form, whatever follows
/// it.
#[verifier::rlimit(40)]
pub proof fn lemma_router_address_roundtrip(v: RouterAddressView, rest: Seq<u8>)
    requires
        v.wf(),
    ensures
        spec_router_address(spec_gen_router_address(v) + rest) == Ok::<
            (RouterAddressView, int),
            ParseError,
        >((v, spec_gen_router_address(v).len() as int)),
        spec_gen_router_address(v).len() > 0,
{
    reveal(spec_router_address);
    let cost = seq![v.cost];
    let expiration = spec_gen_be_u64(v.expiration);
    let style = spec_gen_i2p_string(v.transport_style);
    let options = spec_gen_mapping(v.options);
    let s = spec_gen_router_address(v) + rest;
    let t3 = options + rest;
    let t2 = style + t3;
    let t1 = expiration + t2;
    assert(s == cost + t1) by {
        lemma_concat_assoc(cost + expiration + style, options, rest);
        lemma_concat_assoc(cost + expiration, style, t3);
        lemma_concat_assoc(cost, expiration, t2);
    }
    assert(s[0] == v.cost);
    lemma_concat_skip(cost, t1);
    lemma_be_u64_roundtrip(v.expiration, t2);
    assert(expiration.len() == 8);
    lemma_concat_skip(expiration, t2);
    lemma_skip_skip(s, 1, 8);
    lemma_i2p_string_roundtrip(v.transport_style, t3);
    lemma_concat_skip(style, t3);
    lemma_skip_skip(s, 9, style.len() as int);
    lemma_mapping_roundtrip(v.options, rest);
}

/// Reads a router address at `pos`.
pub fn router_address(input: &[u8], pos: usize) -> (r: Result<(RouterAddress, usize), ParseError>)
    requires
        pos <= input@.len(),
    ensures
        match r {
            Ok((v, end)) => spec_router_address(input@.skip(pos as int)) == Ok::<
                (RouterAddressView, int),
                ParseError,
            >((v@, end - pos)) && pos < end <= input@.len() && v@.wf(),
            Err(e) => spec_router_address(input@.skip(pos as int)) == Err::<
                (RouterAddressView, int),
                ParseError,
            >(e),
        },
{
    proof {
        reveal(spec_router_address);
    }
    let ghost s = input@.skip(pos as int);
    let (cost, p1) = match be_u8(input, pos) {
        Ok(r) => r,
        Err(e) => {
            return Err(e);
        },
    };
    assert(s.skip(1) =~= input@.skip(p1 as int));
    let (expiration, p2) = match be_u64(input, p1) {
        Ok(r) => r,
        Err(e) => {
            return Err(e);
        },
    };
    assert(s.skip(9) =~= input@.skip(p2 as int));
    let (transport_style, p3) = match i2p_string(input, p2) {
        Ok(r) => r,
        Err(e) => {
            return Err(e);
        },
    };
    assert(s.skip(9 + (p3 - p2)) =~= input@.skip(p3 as int));
    let (options, p4) = match mapping(input, p3) {
        Ok(r) => r,
        Err(e) => {
            return Err(e);
        },
    };
    proof {
        vstd::utf8::encode_utf8_valid_utf8(transport_style.0@);
    }
    Ok((RouterAddress::from_parts(cost, I2PDate(expiration), transport_style, options), p4))
}

/// Appends the wire form of a well-formed address.
pub fn gen_router_address(buf: &mut Vec<u8>, a: &RouterAddress)
    requires
        a@.wf(),
    ensures
        final(buf)@ == old(buf)@ + spec_gen_router_address(a@),
{
    buf.push(a.cost());
    gen_be_u64(buf, a.expiration().0);
    gen_i2p_string(buf, a.transport_style());
    gen_mapping(buf, a.options());
    assert(buf@ =~= old(buf)@ + spec_gen_router_address(a@));
}

//
// Router secret keys
//
/// The wire form of router secret keys.
pub open spec fn spec_gen_router_secret_keys(v: RouterSecretKeysView) -> Seq<u8> {
    spec_gen_router_identity(v.rid) + v.private_key + v.signing_private_key.bytes
}

/// Reads router secret keys: the identity, the private encryption key and
/// the private signing key, which has the length that the algorithm of the
/// identity asks for.
pub open spec fn spec_router_secret_keys(s: Seq<u8>) -> Result<
    (RouterSecretKeysView, int),
    ParseError,
> {
    match spec_router_identity(s) {
        Err(e) => Err(e),
        Ok((rid, n)) => match spec_take(s.skip(n), 256) {
            Err(e) => Err(e),
            Ok((private_key, _)) => match spec_take(
                s.skip(n + 256),
                rid.signing_key.sig_type.spec_privkey_len() as int,
            ) {
                Err(e) => Err(e),
                Ok((key, m)) => Ok(
                    (
                        RouterSecretKeysView {
                            rid,
                            private_key,
                            signing_private_key: TypedBytes {
                                sig_type: rid.signing_key.sig_type,
                                bytes: key,
                            },
                        },
                        n + 256 + m,
                    ),
                ),
            },
        },
    }
}

/// Well-formed secret keys are read back from their wire form, whatever
/// follows it.
pub proof fn lemma_router_secret_keys_roundtrip(v: RouterSecretKeysView, rest: Seq<u8>)
    requires
        v.wf(),
    ensures
        spec_router_secret_keys(spec_gen_router_secret_keys(v) + rest) == Ok::<
            (RouterSecretKeysView, int),
            ParseError,
        >((v, spec_gen_router_secret_keys(v).len() as int)),
{
    let rid = spec_gen_router_identity(v.rid);
    let s = spec_gen_router_secret_keys(v) + rest;
    assert(s =~= rid + (v.private_key + v.signing_private_key.bytes + rest));
    lemma_router_identity_roundtrip(v.rid, v.private_key + v.signing_private_key.bytes + rest);
    let n = rid.len() as int;
    assert(s.skip(n) =~= v.private_key + (v.signing_private_key.bytes + rest));
    lemma_take_roundtrip(v.private_key, v.signing_private_key.bytes + rest);
    assert(s.skip(n + 256) =~= v.signing_private_key.bytes + rest);
    lemma_take_roundtrip(v.signing_private_key.bytes, rest);
}

/// Reads router secret keys at `pos`.
pub fn router_secret_keys(input: &[u8], pos: usize) -> (r: Result<
    (RouterSecretKeys, usize),
    ParseError,
>)
    requires
        pos <= input@.len(),
    ensures
        match r {
            Ok((v, end)) => spec_router_secret_keys(input@.skip(pos as int)) == Ok::<
                (RouterSecretKeysView, int),
                ParseError,
            >((v@, end - pos)) && pos <= end <= input@.len() && v@.wf(),
            Err(e) => spec_router_secret_keys(input@.skip(pos as int)) == Err::<
                (RouterSecretKeysView, int),
                ParseError,
            >(e),
        },
{
    let ghost s = input@.skip(pos as int);
    let (rid, p1) = match router_identity(input, pos) {
        Ok(r) => r,
        Err(e) => {
            return Err(e);
        },
    };
    assert(s.skip(p1 - pos) =~= input@.skip(p1 as int));
    let (private_key, p2) = match take(input, p1, 256) {
        Ok(r) => r,
        Err(e) => {
            return Err(e);
        },
    };
    assert(s.skip(p1 - pos + 256) =~= input@.skip(p2 as int));
    let sig_type = rid.signing_key().sig_type();
    let (key, p3) = match take(input, p2, sig_type.privkey_len()) {
        Ok(r) => r,
        Err(e) => {
            return Err(e);
        },
    };
    let key_array: [u8; 256] = crate::bytes::to_array(private_key.as_slice());
    assert(key_array@ =~= private_key@);
    match SigningPrivateKey::from_bytes(sig_type, key.as_slice()) {
        Ok(signing_private_key) => Ok(
            (RouterSecretKeys::from_parts(rid, PrivateKey(key_array), signing_private_key), p3),
        ),
        Err(_) => {
            assert(false);
            Err(ParseError::Invalid)
        },
    }
}

/// Appends the wire form of well-formed secret keys.
pub fn gen_router_secret_keys(buf: &mut Vec<u8>, keys: &RouterSecretKeys)
    requires
        keys@.wf(),
    ensures
        final(buf)@ == old(buf)@ + spec_gen_router_secret_keys(keys@),
{
    gen_router_identity(buf, keys.rid());
    buf.extend_from_slice(keys.private_key().0.as_slice());
    buf.extend_from_slice(keys.signing_private_key().as_bytes());
    assert(buf@ =~= old(buf)@ + spec_gen_router_secret_keys(keys@));
}

//
// Router infos
//
/// Reads `count` router addresses.
pub open spec fn spec_addresses(s: Seq<u8>, count: nat) -> Result<
    (Seq<RouterAddressView>, int),
    ParseError,
>
    decreases count,
{
    if count == 0 {
        Ok((Seq::empty(), 0))
    } else {
        match spec_router_address(s) {
            Err(e) => Err(e),
            Ok((a, n)) => match spec_addresses(s.skip(n), (count - 1) as nat) {
                Err(e) => Err(e),
                Ok((rest, m)) => Ok((seq![a] + rest, n + m)),
            },
        }
    }
}

/// Reads `count` hashes.
pub open spec fn spec_hashes(s: Seq<u8>, count: nat) -> Result<(Seq<Seq<u8>>, int), ParseError>
    decreases count,
{
    if count == 0 {
        Ok((Seq::empty(), 0))
    } else {
        match spec_take(s, 32) {
            Err(e) => Err(e),
            Ok((h, n)) => match spec_hashes(s.skip(n), (count - 1) as nat) {
                Err(e) => Err(e),
                Ok((rest, m)) => Ok((seq![h] + rest, n + m)),
            },
        }
    }
}

/// The wire forms of the addresses one after the other.
pub open spec fn spec_gen_addresses(v: Seq<RouterAddressView>) -> Seq<u8>
    decreases v.len(),
{
    if v.len() == 0 {
        Seq::empty()
    } else {
        spec_gen_router_address(v[0]) + spec_gen_addresses(v.skip(1))
    }
}

/// The hashes one after the other.
pub open spec fn spec_gen_hashes(v: Seq<Seq<u8>>) -> Seq<u8>
    decreases v.len(),
{
    if v.len() == 0 {
        Seq::empty()
    } else {
        v[0] + spec_gen_hashes(v.skip(1))
    }
}

/// The wire form of all of a router info that precedes the signature:
/// identity, date of publication, the addresses and the peers, each with
/// their number in one byte before them, and the options.
pub open spec fn spec_gen_router_info_minus_sig(v: RouterInfoView) -> Seq<u8> {
    spec_gen_router_identity(v.router_id) + spec_gen_be_u64(v.published) + seq![
        v.addresses.len() as u8,
    ] + spec_gen_addresses(v.addresses) + seq![v.peers.len() as u8] + spec_gen_hashes(v.peers)
        + spec_gen_mapping(v.options)
}

/// The bytes of the signature of a router info.
pub open spec fn spec_signature_bytes(v: RouterInfoView) -> Seq<u8> {
    match v.signature {
        Some(sig) => sig.bytes,
        None => Seq::empty(),
    }
}

/// The wire form of a signed router info.
pub open spec fn spec_gen_router_info(v: RouterInfoView) -> Seq<u8> {
    spec_gen_router_info_minus_sig(v) + spec_signature_bytes(v)
}

/// Reads a router info. The signature has the length that the algorithm of
/// the identity asks for.
pub open spec fn spec_router_info(s: Seq<u8>) -> Result<(RouterInfoView, int), ParseError> {
    match spec_router_identity(s) {
        Err(e) => Err(e),
        Ok((router_id, n0)) => match spec_be_u64(s.skip(n0)) {
            Err(e) => Err(e),
            Ok((published, _)) => match spec_u8(s.skip(n0 + 8)) {
                Err(e) => Err(e),
                Ok((na, _)) => match spec_addresses(s.skip(n0 + 9), na as nat) {
                    Err(e) => Err(e),
                    Ok((addresses, n1)) => match spec_u8(s.skip(n0 + 9 + n1)) {
                        Err(e) => Err(e),
                        Ok((np, _)) => match spec_hashes(s.skip(n0 + 10 + n1), np as nat) {
                            Err(e) => Err(e),
                            Ok((peers, n2)) => match spec_mapping(s.skip(n0 + 10 + n1 + n2)) {
                                Err(e) => Err(e),
                                Ok((options, n3)) => match spec_take(
                                    s.skip(n0 + 10 + n1 + n2 + n3),
                                    router_id.signing_key.sig_type.spec_sig_len() as int,
                                ) {
                                    Err(e) => Err(e),
                                    Ok((sig, n4)) => Ok(
                                        (
                                            RouterInfoView {
                                                router_id,
                                                published,
                                                addresses,
                                                peers,
                                                options,
                                                signature: Some(
                                                    TypedBytes {
                                                        sig_type: router_id.signing_key.sig_type,
                                                        bytes: sig,
                                                    },
                                                ),
                                            },
                                            n0 + 10 + n1 + n2 + n3 + n4,
                                        ),
                                    ),
                                },
                            },
                        },
                    },
                },
            },
        },
    }
}

pub proof fn lemma_addresses_roundtrip(v: Seq<RouterAddressView>, rest: Seq<u8>)
    requires
        forall|i: int| 0 <= i < v.len() ==> (#[trigger] v[i]).wf(),
    ensures
        spec_addresses(spec_gen_addresses(v) + rest, v.len()) == Ok::<
            (Seq<RouterAddressView>, int),
            ParseError,
        >((v, spec_gen_addresses(v).len() as int)),
    decreases v.len(),
{
    if v.len() == 0 {
        assert(v =~= Seq::<RouterAddressView>::empty());
    } else {
        let tail = v.skip(1);
        let first = spec_gen_router_address(v[0]);
        let s = spec_gen_addresses(v) + rest;
        assert(v[0].wf());
        assert(s =~= first + (spec_gen_addresses(tail) + rest));
        lemma_router_address_roundtrip(v[0], spec_gen_addresses(tail) + rest);
        assert(s.skip(first.len() as int) =~= spec_gen_addresses(tail) + rest);
        assert forall|i: int| 0 <= i < tail.len() implies (#[trigger] tail[i]).wf() by {
            assert(tail[i] == v[i + 1]);
        }
        lemma_addresses_roundtrip(tail, rest);
        assert(seq![v[0]] + tail =~= v);
    }
}

pub proof fn lemma_hashes_roundtrip(v: Seq<Seq<u8>>, rest: Seq<u8>)
    requires
        forall|i: int| 0 <= i < v.len() ==> (#[trigger] v[i]).len() == 32,
    ensures
        spec_hashes(spec_gen_hashes(v) + rest, v.len()) == Ok::<(Seq<Seq<u8>>, int), ParseError>(
            (v, spec_gen_hashes(v).len() as int),
        ),
    decreases v.len(),
{
    if v.len() == 0 {
        assert(v =~= Seq::<Seq<u8>>::empty());
    } else {
        let tail = v.skip(1);
        let s = spec_gen_hashes(v) + rest;
        assert(v[0].len() == 32);
        assert(s =~= v[0] + (spec_gen_hashes(tail) + rest));
        lemma_take_roundtrip(v[0], spec_gen_hashes(tail) + rest);
        assert(s.skip(32) =~= spec_gen_hashes(tail) + rest);
        assert forall|i: int| 0 <= i < tail.len() implies (#[trigger] tail[i]).len() == 32 by {
            assert(tail[i] == v[i + 1]);
        }
        lemma_hashes_roundtrip(tail, rest);
        assert(seq![v[0]] + tail =~= v);
    }
}

/// A well-formed signed router info is read back from its wire form,
/// whatever follows it.
#[verifier::rlimit(40)]
pub proof fn lemma_router_info_roundtrip(v: RouterInfoView, rest: Seq<u8>)
    requires
        v.wf(),
        v.signature is Some,
    ensures
        spec_router_info(spec_gen_router_info(v) + rest) == Ok::<(RouterInfoView, int), ParseError>(
            (v, spec_gen_router_info(v).len() as int),
        ),
{
    let rid = spec_gen_router_identity(v.router_id);
    let published = spec_gen_be_u64(v.published);
    let na = seq![v.addresses.len() as u8];
    let addresses = spec_gen_addresses(v.addresses);
    let np = seq![v.peers.len() as u8];
    let peers = spec_gen_hashes(v.peers);
    let options = spec_gen_mapping(v.options);
    let sig = spec_signature_bytes(v);
    let s = spec_gen_router_info(v) + rest;
    let t7 = sig + rest;
    let t6 = options + t7;
    let t5 = peers + t6;
    let t4 = np + t5;
    let t3 = addresses + t4;
    let t2 = na + t3;
    let t1 = published + t2;
    assert(s == rid + t1) by {
        lemma_concat_assoc(rid + published + na + addresses + np + peers + options, sig, rest);
        lemma_concat_assoc(rid + published + na + addresses + np + peers, options, t7);
        lemma_concat_assoc(rid + published + na + addresses + np, peers, t6);
        lemma_concat_assoc(rid + published + na + addresses, np, t5);
        lemma_concat_assoc(rid + published + na, addresses, t4);
        lemma_concat_assoc(rid + published, na, t3);
        lemma_concat_assoc(rid, published, t2);
    }
    let n0 = rid.len() as int;
    let n1 = addresses.len() as int;
    let n2 = peers.len() as int;
    let n3 = options.len() as int;
    lemma_router_identity_roundtrip(v.router_id, t1);
    lemma_concat_skip(rid, t1);
    lemma_be_u64_roundtrip(v.published, t2);
    assert(published.len() == 8);
    lemma_concat_skip(published, t2);
    lemma_skip_skip(s, n0, 8);
    assert(s.skip(n0 + 8) == t2);
    assert(t2[0] == v.addresses.len() as u8);
    lemma_concat_skip(na, t3);
    lemma_skip_skip(s, n0 + 8, 1);
    assert(s.skip(n0 + 9) == t3);
    lemma_addresses_roundtrip(v.addresses, t4);
    lemma_concat_skip(addresses, t4);
    lemma_skip_skip(s, n0 + 9, n1);
    assert(s.skip(n0 + 9 + n1) == t4);
    assert(t4[0] == v.peers.len() as u8);
    lemma_concat_skip(np, t5);
    lemma_skip_skip(s, n0 + 9 + n1, 1);
    assert(s.skip(n0 + 10 + n1) == t5);
    lemma_hashes_roundtrip(v.peers, t6);
    lemma_concat_skip(peers, t6);
    lemma_skip_skip(s, n0 + 10 + n1, n2);
    assert(s.skip(n0 + 10 + n1 + n2) == t6);
    lemma_mapping_roundtrip(v.options, t7);
    lemma_concat_skip(options, t7);
    lemma_skip_skip(s, n0 + 10 + n1 + n2, n3);
    assert(s.skip(n0 + 10 + n1 + n2 + n3) == t7);
    lemma_take_roundtrip(sig, rest);
    assert(spec_gen_router_info(v).len() == n0 + 10 + n1 + n2 + n3 + sig.len());
}

/// What is read from the wire form of a well-formed signed router info
/// has the same wire form again.
pub proof fn lemma_router_info_reserialize(v: RouterInfoView)
    requires
        v.wf(),
        v.signature is Some,
    ensures
        spec_router_info(spec_gen_router_info(v)) matches Ok((w, n)) && spec_gen_router_info(w)
            == spec_gen_router_info(v) && n == spec_gen_router_info(v).len(),
{
    lemma_router_info_roundtrip(v, Seq::empty());
    assert(spec_gen_router_info(v) + Seq::<u8>::empty() =~= spec_gen_router_info(v));
}

/// What is read from the wire form of a well-formed signed router info
/// verifies as the info itself does: writing and reading neither make nor
/// break a signature.
pub proof fn lemma_router_info_verifies_alike(v: RouterInfoView)
    requires
        v.wf(),
        v.signature is Some,
    ensures
        spec_router_info(spec_gen_router_info(v)) matches Ok((w, _)) && w.verify() == v.verify(),
{
    lemma_router_info_roundtrip(v, Seq::empty());
    assert(spec_gen_router_info(v) + Seq::<u8>::empty() =~= spec_gen_router_info(v));
}

pub proof fn lemma_gen_addresses_push(v: Seq<RouterAddressView>, a: RouterAddressView)
    ensures
        spec_gen_addresses(v.push(a)) == spec_gen_addresses(v) + spec_gen_router_address(a),
    decreases v.len(),
{
    if v.len() == 0 {
        let one = v.push(a);
        assert(one.skip(1) =~= Seq::<RouterAddressView>::empty());
        assert(spec_gen_addresses(one.skip(1)) =~= Seq::<u8>::empty());
        assert(one[0] == a);
        assert(spec_gen_addresses(one) =~= spec_gen_router_address(a));
        assert(spec_gen_addresses(v) =~= Seq::<u8>::empty());
    } else {
        assert(v.push(a).skip(1) =~= v.skip(1).push(a));
        lemma_gen_addresses_push(v.skip(1), a);
        assert(spec_gen_router_address(v[0]) + (spec_gen_addresses(v.skip(1))
            + spec_gen_router_address(a)) =~= spec_gen_addresses(v) + spec_gen_router_address(a));
    }
}

pub proof fn lemma_gen_hashes_push(v: Seq<Seq<u8>>, h: Seq<u8>)
    ensures
        spec_gen_hashes(v.push(h)) == spec_gen_hashes(v) + h,
    decreases v.len(),
{
    if v.len() == 0 {
        let one = v.push(h);
        assert(one.skip(1) =~= Seq::<Seq<u8>>::empty());
        assert(spec_gen_hashes(one.skip(1)) =~= Seq::<u8>::empty());
        assert(one[0] == h);
        assert(spec_gen_hashes(one) =~= h);
        assert(spec_gen_hashes(v) =~= Seq::<u8>::empty());
    } else {
        assert(v.push(h).skip(1) =~= v.skip(1).push(h));
        lemma_gen_hashes_push(v.skip(1), h);
        assert(v[0] + (spec_gen_hashes(v.skip(1)) + h) =~= spec_gen_hashes(v) + h);
    }
}

/// Reads `count` addresses at `pos`.
fn addresses(input: &[u8], pos: usize, count: u8) -> (r: Result<
    (Vec<RouterAddress>, usize),
    ParseError,
>)
    requires
        pos <= input@.len(),
    ensures
        match r {
            Ok((v, end)) => spec_addresses(input@.skip(pos as int), count as nat) == Ok::<
                (Seq<RouterAddressView>, int),
                ParseError,
            >((spec_address_views(v@), end - pos)) && pos <= end <= input@.len() && v@.len()
                == count && forall|i: int| 0 <= i < v@.len() ==> (#[trigger] v@[i])@.wf(),
            Err(e) => spec_addresses(input@.skip(pos as int), count as nat) == Err::<
                (Seq<RouterAddressView>, int),
                ParseError,
            >(e),
        },
{
    let ghost s = input@.skip(pos as int);
    let mut out: Vec<RouterAddress> = Vec::new();
    let mut p: usize = pos;
    let mut i: u8 = 0;
    proof {
        assert(spec_address_views(out@) =~= Seq::<RouterAddressView>::empty());
        lemma_addresses_resume(s, count as nat, Seq::empty(), 0);
    }
    while i < count
        invariant
            i <= count,
            pos <= p <= input@.len(),
            s == input@.skip(pos as int),
            out@.len() == i,
            forall|k: int| 0 <= k < out@.len() ==> (#[trigger] out@[k])@.wf(),
            spec_addresses(s, count as nat) == spec_resume_addresses(
                spec_address_views(out@),
                p - pos,
                spec_addresses(input@.skip(p as int), (count - i) as nat),
            ),
        decreases count - i,
    {
        let ghost done = spec_address_views(out@);
        match router_address(input, p) {
            Err(e) => {
                return Err(e);
            },
            Ok((a, end)) => {
                proof {
                    assert(input@.skip(p as int).skip(end - p) =~= input@.skip(end as int));
                    assert(spec_address_views(out@.push(a)) =~= done.push(a@));
                    lemma_addresses_step(
                        done,
                        p - pos,
                        a@,
                        end - p,
                        spec_addresses(input@.skip(end as int), (count - i - 1) as nat),
                    );
                }
                out.push(a);
                p = end;
                i += 1;
            },
        }
    }
    proof {
        assert(spec_address_views(out@) + Seq::<RouterAddressView>::empty() =~= spec_address_views(
            out@,
        ));
    }
    Ok((out, p))
}

/// What reading the addresses gives when `done` were read in `used` bytes
/// and reading the others gives `tail`.
pub open spec fn spec_resume_addresses(
    done: Seq<RouterAddressView>,
    used: int,
    tail: Result<(Seq<RouterAddressView>, int), ParseError>,
) -> Result<(Seq<RouterAddressView>, int), ParseError> {
    match tail {
        Err(e) => Err(e),
        Ok((rest, m)) => Ok((done + rest, used + m)),
    }
}

proof fn lemma_addresses_resume(s: Seq<u8>, count: nat, done: Seq<RouterAddressView>, used: int)
    requires
        done.len() == 0,
        used == 0,
    ensures
        spec_addresses(s, count) == spec_resume_addresses(
            done,
            used,
            spec_addresses(s.skip(0), count),
        ),
{
    assert(s.skip(0) =~= s);
    match spec_addresses(s, count) {
        Ok((rest, m)) => {
            assert(done + rest =~= rest);
        },
        Err(_) => {},
    }
}

proof fn lemma_addresses_step(
    done: Seq<RouterAddressView>,
    used: int,
    a: RouterAddressView,
    n: int,
    tail: Result<(Seq<RouterAddressView>, int), ParseError>,
)
    ensures
        spec_resume_addresses(
            done,
            used,
            match tail {
                Err(e) => Err(e),
                Ok((rest, m)) => Ok((seq![a] + rest, n + m)),
            },
        ) == spec_resume_addresses(done.push(a), used + n, tail),
{
    match tail {
        Ok((rest, m)) => {
            assert(done + (seq![a] + rest) =~= done.push(a) + rest);
        },
        Err(_) => {},
    }
}

/// What reading the hashes gives when `done` were read in `used` bytes and
/// reading the others gives `tail`.
pub open spec fn spec_resume_hashes(
    done: Seq<Seq<u8>>,
    used: int,
    tail: Result<(Seq<Seq<u8>>, int), ParseError>,
) -> Result<(Seq<Seq<u8>>, int), ParseError> {
    match tail {
        Err(e) => Err(e),
        Ok((rest, m)) => Ok((done + rest, used + m)),
    }
}

proof fn lemma_hashes_resume(s: Seq<u8>, count: nat, done: Seq<Seq<u8>>, used: int)
    requires
        done.len() == 0,
        used == 0,
    ensures
        spec_hashes(s, count) == spec_resume_hashes(done, used, spec_hashes(s.skip(0), count)),
{
    assert(s.skip(0) =~= s);
    match spec_hashes(s, count) {
        Ok((rest, m)) => {
            assert(done + rest =~= rest);
        },
        Err(_) => {},
    }
}

proof fn lemma_hashes_step(
    done: Seq<Seq<u8>>,
    used: int,
    h: Seq<u8>,
    n: int,
    tail: Result<(Seq<Seq<u8>>, int), ParseError>,
)
    ensures
        spec_resume_hashes(
            done,
            used,
            match tail {
                Err(e) => Err(e),
                Ok((rest, m)) => Ok((seq![h] + rest, n + m)),
            },
        ) == spec_resume_hashes(done.push(h), used + n, tail),
{
    match tail {
        Ok((rest, m)) => {
            assert(done + (seq![h] + rest) =~= done.push(h) + rest);
        },
        Err(_) => {},
    }
}

/// Reads `count` hashes at `pos`.
fn hashes(input: &[u8], pos: usize, count: u8) -> (r: Result<
    (Vec<crate::data::Hash>, usize),
    ParseError,
>)
    requires
        pos <= input@.len(),
    ensures
        match r {
            Ok((v, end)) => spec_hashes(input@.skip(pos as int), count as nat) == Ok::<
                (Seq<Seq<u8>>, int),
                ParseError,
            >((spec_hash_views(v@), end - pos)) && pos <= end <= input@.len() && v@.len()
                == count,
            Err(e) => spec_hashes(input@.skip(pos as int), count as nat) == Err::<
                (Seq<Seq<u8>>, int),
                ParseError,
            >(e),
        },
{
    let ghost s = input@.skip(pos as int);
    let mut out: Vec<crate::data::Hash> = Vec::new();
    let mut p: usize = pos;
    let mut i: u8 = 0;
    proof {
        assert(spec_hash_views(out@) =~= Seq::<Seq<u8>>::empty());
        lemma_hashes_resume(s, count as nat, Seq::empty(), 0);
    }
    while i < count
        invariant
            i <= count,
            pos <= p <= input@.len(),
            s == input@.skip(pos as int),
            out@.len() == i,
            spec_hashes(s, count as nat) == spec_resume_hashes(
                spec_hash_views(out@),
                p - pos,
                spec_hashes(input@.skip(p as int), (count - i) as nat),
            ),
        decreases count - i,
    {
        let ghost done = spec_hash_views(out@);
        match take(input, p, 32) {
            Err(e) => {
                return Err(e);
            },
            Ok((bytes, end)) => {
                let array: [u8; 32] = crate::bytes::to_array(bytes.as_slice());
                let h = crate::data::Hash(array);
                proof {
                    assert(h@ =~= bytes@);
                    assert(input@.skip(p as int).skip(end - p) =~= input@.skip(end as int));
                    assert(spec_hash_views(out@.push(h)) =~= done.push(h@));
                    lemma_hashes_step(
                        done,
                        p - pos,
                        h@,
                        end - p,
                        spec_hashes(input@.skip(end as int), (count - i - 1) as nat),
                    );
                }
                out.push(h);
                p = end;
                i += 1;
            },
        }
    }
    proof {
        assert(spec_hash_views(out@) + Seq::<Seq<u8>>::empty() =~= spec_hash_views(out@));
    }
    Ok((out, p))
}

/// Reads a router info at `pos`.
#[verifier::rlimit(40)]
pub fn router_info(input: &[u8], pos: usize) -> (r: Result<(RouterInfo, usize), ParseError>)
    requires
        pos <= input@.len(),
    ensures
        match r {
            Ok((v, end)) => spec_router_info(input@.skip(pos as int)) == Ok::<
                (RouterInfoView, int),
                ParseError,
            >((v@, end - pos)) && pos <= end <= input@.len() && v@.wf(),
            Err(e) => spec_router_info(input@.skip(pos as int)) == Err::<
                (RouterInfoView, int),
                ParseError,
            >(e),
        },
{
    let ghost s = input@.skip(pos as int);
    let (router_id, p0) = match router_identity(input, pos) {
        Ok(r) => r,
        Err(e) => {
            return Err(e);
        },
    };
    proof {
        lemma_skip_skip(input@, pos as int, p0 - pos);
    }
    let (published, p1) = match be_u64(input, p0) {
        Ok(r) => r,
        Err(e) => {
            return Err(e);
        },
    };
    proof {
        lemma_skip_skip(input@, pos as int, p1 - pos);
    }
    let (na, p2) = match be_u8(input, p1) {
        Ok(r) => r,
        Err(e) => {
            return Err(e);
        },
    };
    proof {
        lemma_skip_skip(input@, pos as int, p2 - pos);
    }
    let (addrs, p3) = match addresses(input, p2, na) {
        Ok(r) => r,
        Err(e) => {
            return Err(e);
        },
    };
    proof {
        lemma_skip_skip(input@, pos as int, p3 - pos);
    }
    let (np, p4) = match be_u8(input, p3) {
        Ok(r) => r,
        Err(e) => {
            return Err(e);
        },
    };
    proof {
        lemma_skip_skip(input@, pos as int, p4 - pos);
    }
    let (peers, p5) = match hashes(input, p4, np) {
        Ok(r) => r,
        Err(e) => {
            return Err(e);
        },
    };
    proof {
        lemma_skip_skip(input@, pos as int, p5 - pos);
    }
    let (options, p6) = match mapping(input, p5) {
        Ok(r) => r,
        Err(e) => {
            return Err(e);
        },
    };
    proof {
        lemma_skip_skip(input@, pos as int, p6 - pos);
    }
    let sig_type = router_id.signing_key().sig_type();
    let (sig, p7) = match take(input, p6, sig_type.sig_len()) {
        Ok(r) => r,
        Err(e) => {
            return Err(e);
        },
    };
    match Signature::from_bytes(sig_type, sig.as_slice()) {
        Ok(signature) => {
            let ri = RouterInfo::from_parts(
                router_id,
                I2PDate(published),
                addrs,
                peers,
                options,
                Some(signature),
            );
            proof {
                assert forall|i: int| 0 <= i < ri@.addresses.len() implies (
                #[trigger] ri@.addresses[i]).wf() by {
                    assert(ri@.addresses[i] == addrs@[i]@);
                }
                assert forall|i: int| 0 <= i < ri@.peers.len() implies (
                #[trigger] ri@.peers[i]).len() == 32 by {
                    assert(ri@.peers[i] == peers@[i]@);
                }
            }
            Ok((ri, p7))
        },
        Err(_) => {
            assert(false);
            Err(ParseError::Invalid)
        },
    }
}

/// Appends the wire form of all of a router info that precedes the
/// signature.
#[verifier::rlimit(40)]
pub fn gen_router_info_minus_sig(buf: &mut Vec<u8>, ri: &RouterInfo)
    requires
        ri@.wf_unsigned(),
    ensures
        final(buf)@ == old(buf)@ + spec_gen_router_info_minus_sig(ri@),
{
    gen_router_identity(buf, ri.router_id());
    gen_be_u64(buf, ri.published().0);
    let addrs = ri.addresses();
    buf.push(addrs.len() as u8);
    let ghost start = buf@;
    let mut i: usize = 0;
    proof {
        assert(ri@.addresses.subrange(0, 0) =~= Seq::<RouterAddressView>::empty());
        assert(start + spec_gen_addresses(Seq::empty()) =~= start);
    }
    while i < addrs.len()
        invariant
            i <= addrs@.len(),
            spec_address_views(addrs@) == ri@.addresses,
            ri@.wf_unsigned(),
            buf@ == start + spec_gen_addresses(ri@.addresses.subrange(0, i as int)),
        decreases addrs@.len() - i,
    {
        proof {
            assert(ri@.addresses[i as int] == addrs@[i as int]@);
            assert(ri@.addresses[i as int].wf());
            assert(ri@.addresses.subrange(0, i + 1) =~= ri@.addresses.subrange(0, i as int).push(
                ri@.addresses[i as int],
            ));
            lemma_gen_addresses_push(ri@.addresses.subrange(0, i as int), ri@.addresses[i as int]);
        }
        gen_router_address(buf, &addrs[i]);
        assert(buf@ =~= start + spec_gen_addresses(ri@.addresses.subrange(0, i + 1)));
        i += 1;
    }
    assert(ri@.addresses.subrange(0, i as int) =~= ri@.addresses);
    let peers = ri.peers();
    buf.push(peers.len() as u8);
    let ghost start2 = buf@;
    let mut j: usize = 0;
    proof {
        assert(ri@.peers.subrange(0, 0) =~= Seq::<Seq<u8>>::empty());
        assert(start2 + spec_gen_hashes(Seq::empty()) =~= start2);
    }
    while j < peers.len()
        invariant
            j <= peers@.len(),
            spec_hash_views(peers@) == ri@.peers,
            buf@ == start2 + spec_gen_hashes(ri@.peers.subrange(0, j as int)),
        decreases peers@.len() - j,
    {
        proof {
            assert(ri@.peers[j as int] == peers@[j as int]@);
            assert(ri@.peers.subrange(0, j + 1) =~= ri@.peers.subrange(0, j as int).push(
                ri@.peers[j as int],
            ));
            lemma_gen_hashes_push(ri@.peers.subrange(0, j as int), ri@.peers[j as int]);
        }
        buf.extend_from_slice(peers[j].0.as_slice());
        assert(buf@ =~= start2 + spec_gen_hashes(ri@.peers.subrange(0, j + 1)));
        j += 1;
    }
    assert(ri@.peers.subrange(0, j as int) =~= ri@.peers);
    gen_mapping(buf, ri.options());
    assert(buf@ =~= old(buf)@ + spec_gen_router_info_minus_sig(ri@));
}

/// Appends the wire form of a signed router info.
pub fn gen_router_info(buf: &mut Vec<u8>, ri: &RouterInfo)
    requires
        ri@.wf(),
        ri@.signature is Some,
    ensures
        final(buf)@ == old(buf)@ + spec_gen_router_info(ri@),
{
    gen_router_info_minus_sig(buf, ri);
    match ri.signature() {
        Some(sig) => {
            buf.extend_from_slice(sig.as_bytes());
        },
        None => {},
    }
    assert(buf@ =~= old(buf)@ + spec_gen_router_info(ri@));
}

} // verus!

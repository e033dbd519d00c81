//! The cryptographic primitives that the router takes from other crates.
//!
//! Nothing in this file is proved: each function states what the crate it
//! calls is relied upon to do.

use vstd::prelude::*;

use rand::Rng;
use sha2::Digest;
use signatory::signature::Signer;
use signatory::signature::Verifier;

verus! {

/// The SHA-256 digest of `data`.
pub uninterp spec fn spec_sha256(data: Seq<u8>) -> Seq<u8>;

/// `sha2::Sha256`: feeds `data` to a fresh hasher and returns its 32-byte
/// result, which is a function of `data` alone.
#[verifier::external_body]
pub(crate) fn sha256(data: &[u8]) -> (digest: [u8; 32])
    ensures
        digest@ == spec_sha256(data@),
{
    let mut hasher = sha2::Sha256::default();
    hasher.input(data);
    let mut digest = [0u8; 32];
    digest.copy_from_slice(hasher.result().as_slice());
    digest
}

/// The Ed25519 public key that belongs to the private key `seed`.
pub uninterp spec fn spec_ed25519_public_key(seed: Seq<u8>) -> Seq<u8>;

/// `signatory::ed25519::SigningKey::from_bytes` followed by
/// `verifying_key`: the public key is a function of the seed alone. The
/// constructor refuses nothing but a seed of the wrong length, so a 32-byte
/// seed always gives a key.
#[verifier::external_body]
pub(crate) fn ed25519_public_key(seed: &[u8; 32]) -> (key: Option<[u8; 32]>)
    ensures
        key is Some,
        key.unwrap()@ == spec_ed25519_public_key(seed@),
{
    match signatory::ed25519::SigningKey::from_bytes(seed) {
        Ok(signer) => Some(signer.verifying_key().to_bytes()),
        Err(_) => None,
    }
}

/// The Ed25519 signature of `msg` under the private key `seed`.
pub uninterp spec fn spec_ed25519_sign(seed: Seq<u8>, msg: Seq<u8>) -> Option<Seq<u8>>;

/// `signatory::ed25519::SigningKey::try_sign`: Ed25519 signatures are
/// deterministic, so the outcome is a function of the seed and the message.
#[verifier::external_body]
pub(crate) fn ed25519_sign(seed: &[u8; 32], msg: &[u8]) -> (sig: Option<[u8; 64]>)
    ensures
        match sig {
            Some(s) => spec_ed25519_sign(seed@, msg@) == Some(s@),
            None => spec_ed25519_sign(seed@, msg@) is None,
        },
{
    match signatory::ed25519::SigningKey::from_bytes(seed) {
        Ok(signer) => match signer.try_sign(msg) {
            Ok(sig) => Some(sig.to_bytes()),
            Err(_) => None,
        },
        Err(_) => None,
    }
}

/// Whether `sig` is a valid Ed25519 signature of `msg` under the public key
/// `key`. An encoding that is not a public key verifies nothing.
pub uninterp spec fn spec_ed25519_verify(key: Seq<u8>, msg: Seq<u8>, sig: Seq<u8>) -> bool;

/// `signatory::ed25519::VerifyingKey::from_bytes` followed by `verify`.
#[verifier::external_body]
pub(crate) fn ed25519_verify(key: &[u8; 32], msg: &[u8], sig: &[u8; 64]) -> (ok: bool)
    ensures
        ok == spec_ed25519_verify(key@, msg@, sig@),
{
    match signatory::ed25519::VerifyingKey::from_bytes(key) {
        Ok(verifier) => verifier.verify(
            msg,
            &signatory::ed25519::Signature::from_bytes(sig),
        ).is_ok(),
        Err(_) => false,
    }
}

/// Whether `sig`, the big-endian `r` and `s` one after the other, is a valid
/// ECDSA signature with SHA-256 of `msg` under the SEC1-encoded P-256 public
/// key `key`. Malformed keys and signatures verify nothing.
pub uninterp spec fn spec_ecdsa_p256_verify(key: Seq<u8>, msg: Seq<u8>, sig: Seq<u8>) -> bool;

/// `signatory::ecdsa::nistp256::VerifyingKey::from_sec1_bytes`,
/// `Signature::from_slice` and `verify`.
#[verifier::external_body]
pub(crate) fn ecdsa_p256_verify(key: &[u8], msg: &[u8], sig: &[u8]) -> (ok: bool)
    ensures
        ok == spec_ecdsa_p256_verify(key@, msg@, sig@),
{
    match (
        signatory::ecdsa::nistp256::VerifyingKey::from_sec1_bytes(key),
        signatory::ecdsa::nistp256::Signature::from_slice(sig),
    ) {
        (Ok(verifier), Ok(signature)) => verifier.verify(msg, &signature).is_ok(),
        _ => false,
    }
}

/// The same for P-384 with SHA-384.
pub uninterp spec fn spec_ecdsa_p384_verify(key: Seq<u8>, msg: Seq<u8>, sig: Seq<u8>) -> bool;

/// `signatory::ecdsa::nistp384::VerifyingKey::from_sec1_bytes`,
/// `Signature::from_slice` and `verify`.
#[verifier::external_body]
pub(crate) fn ecdsa_p384_verify(key: &[u8], msg: &[u8], sig: &[u8]) -> (ok: bool)
    ensures
        ok == spec_ecdsa_p384_verify(key@, msg@, sig@),
{
    match (
        signatory::ecdsa::nistp384::VerifyingKey::from_sec1_bytes(key),
        signatory::ecdsa::nistp384::Signature::from_slice(sig),
    ) {
        (Ok(verifier), Ok(signature)) => verifier.verify(msg, &signature).is_ok(),
        _ => false,
    }
}

/// `rand::OsRng`: `len` bytes from the operating system's generator, or
/// nothing where the generator cannot be opened or read. Which bytes come is
/// not stated.
#[verifier::external_body]
pub(crate) fn os_random_bytes(len: usize) -> (bytes: Option<Vec<u8>>)
    ensures
        bytes matches Some(b) ==> b@.len() == len,
{
    let mut buf = vec![0u8; len];
    match rand::OsRng::new() {
        Ok(mut rng) => match rng.try_fill(&mut buf[..]) {
            Ok(()) => Some(buf),
            Err(_) => None,
        },
        Err(_) => None,
    }
}

/// `rand::thread_rng` and `Rng::fill`: `len` bytes from the thread's
/// generator. Which bytes come is not stated.
#[verifier::external_body]
pub(crate) fn thread_random_bytes(len: usize) -> (bytes: Vec<u8>)
    ensures
        bytes@.len() == len,
{
    let mut buf = vec![0u8; len];
    rand::thread_rng().fill(&mut buf[..]);
    buf
}

/// `rand::thread_rng` and `Rng::gen_range`: some number from `low` up to
/// but not including `high`.
#[verifier::external_body]
pub(crate) fn thread_random_range(low: u8, high: u8) -> (n: u8)
    requires
        low < high,
    ensures
        low <= n < high,
{
    rand::thread_rng().gen_range(low, high)
}

} // verus!

//! Algorithm identifiers and key material.

use vstd::prelude::*;

use crate::bytes::{copy_bytes, to_array};
use crate::constants;

pub mod dsa;
pub mod elgamal;
pub mod primitives;

use primitives::{
    ecdsa_p256_verify, ecdsa_p384_verify, ed25519_public_key, ed25519_sign, ed25519_verify,
    os_random_bytes, spec_ecdsa_p256_verify, spec_ecdsa_p384_verify, spec_ed25519_public_key,
    spec_ed25519_sign, spec_ed25519_verify,
};

verus! {

/// The signature algorithms that an identity can name.
#[derive(Clone, Copy, Debug, PartialEq, Eq, Structural)]
pub enum SigType {
    DsaSha1,
    EcdsaSha256P256,
    EcdsaSha384P384,
    EcdsaSha512P521,
    Rsa2048Sha256,
    Rsa3072Sha384,
    Rsa4096Sha512,
    Ed25519,
    Ed25519ph,
}

/// The encryption algorithms that an identity can name.
#[derive(Clone, Copy, Debug, PartialEq, Eq, Structural)]
pub enum EncType {
    ElGamal2048,
}

impl SigType {
    /// The algorithm with the given wire tag, if there is one.
    pub open spec fn spec_from_bytes(tag: u16) -> Option<SigType> {
        if tag == 0 {
            Some(SigType::DsaSha1)
        } else if tag == 1 {
            Some(SigType::EcdsaSha256P256)
        } else if tag == 2 {
            Some(SigType::EcdsaSha384P384)
        } else if tag == 3 {
            Some(SigType::EcdsaSha512P521)
        } else if tag == 4 {
            Some(SigType::Rsa2048Sha256)
        } else if tag == 5 {
            Some(SigType::Rsa3072Sha384)
        } else if tag == 6 {
            Some(SigType::Rsa4096Sha512)
        } else if tag == 7 {
            Some(SigType::Ed25519)
        } else if tag == 8 {
            Some(SigType::Ed25519ph)
        } else {
            None
        }
    }

    /// The wire tag of the algorithm.
    pub open spec fn spec_code(self) -> u16 {
        match self {
            SigType::DsaSha1 => 0,
            SigType::EcdsaSha256P256 => 1,
            SigType::EcdsaSha384P384 => 2,
            SigType::EcdsaSha512P521 => 3,
            SigType::Rsa2048Sha256 => 4,
            SigType::Rsa3072Sha384 => 5,
            SigType::Rsa4096Sha512 => 6,
            SigType::Ed25519 => 7,
            SigType::Ed25519ph => 8,
        }
    }

    /// Length in bytes of a public key of the algorithm.
    pub open spec fn spec_pubkey_len(self) -> nat {
        match self {
            SigType::DsaSha1 => 128,
            SigType::EcdsaSha256P256 => 64,
            SigType::EcdsaSha384P384 => 96,
            SigType::EcdsaSha512P521 => 132,
            SigType::Rsa2048Sha256 => 256,
            SigType::Rsa3072Sha384 => 384,
            SigType::Rsa4096Sha512 => 512,
            SigType::Ed25519 => 32,
            SigType::Ed25519ph => 32,
        }
    }

    /// Length in bytes of a private key of the algorithm.
    pub open spec fn spec_privkey_len(self) -> nat {
        match self {
            SigType::DsaSha1 => 20,
            SigType::EcdsaSha256P256 => 32,
            SigType::EcdsaSha384P384 => 48,
            SigType::EcdsaSha512P521 => 66,
            SigType::Rsa2048Sha256 => 512,
            SigType::Rsa3072Sha384 => 768,
            SigType::Rsa4096Sha512 => 1024,
            SigType::Ed25519 => 32,
            SigType::Ed25519ph => 32,
        }
    }

    /// Length in bytes of a signature of the algorithm.
    pub open spec fn spec_sig_len(self) -> nat {
        match self {
            SigType::DsaSha1 => 40,
            SigType::EcdsaSha256P256 => 64,
            SigType::EcdsaSha384P384 => 96,
            SigType::EcdsaSha512P521 => 132,
            SigType::Rsa2048Sha256 => 256,
            SigType::Rsa3072Sha384 => 384,
            SigType::Rsa4096Sha512 => 512,
            SigType::Ed25519 => 64,
            SigType::Ed25519ph => 64,
        }
    }

    /// Number of padding bytes that fill the key block of an identity when
    /// the signing key is shorter than the area reserved for it.
    pub open spec fn spec_pad_len(self, enc_type: EncType) -> nat {
        if self.spec_pubkey_len() <= 128 {
            (128 - self.spec_pubkey_len()) as nat
        } else {
            0
        }
    }

    /// Number of signing key bytes that do not fit into the key block and are
    /// carried by the key certificate.
    pub open spec fn spec_extra_data_len(self, enc_type: EncType) -> nat {
        if self.spec_pubkey_len() <= 128 {
            0
        } else {
            (self.spec_pubkey_len() - 128) as nat
        }
    }

    pub fn from_bytes(tag: u16) -> (r: Option<SigType>)
        ensures
            r == Self::spec_from_bytes(tag),
            r matches Some(t) ==> t.spec_code() == tag,
    {
        if tag == constants::DSA_SHA1 {
            Some(SigType::DsaSha1)
        } else if tag == constants::ECDSA_SHA256_P256 {
            Some(SigType::EcdsaSha256P256)
        } else if tag == constants::ECDSA_SHA384_P384 {
            Some(SigType::EcdsaSha384P384)
        } else if tag == constants::ECDSA_SHA512_P521 {
            Some(SigType::EcdsaSha512P521)
        } else if tag == constants::RSA_SHA256_2048 {
            Some(SigType::Rsa2048Sha256)
        } else if tag == constants::RSA_SHA384_3072 {
            Some(SigType::Rsa3072Sha384)
        } else if tag == constants::RSA_SHA512_4096 {
            Some(SigType::Rsa4096Sha512)
        } else if tag == constants::ED25519 {
            Some(SigType::Ed25519)
        } else if tag == constants::ED25519PH {
            Some(SigType::Ed25519ph)
        } else {
            None
        }
    }

    pub fn code(&self) -> (c: u16)
        ensures
            c == self.spec_code(),
            Self::spec_from_bytes(c) == Some(*self),
    {
        match self {
            SigType::DsaSha1 => constants::DSA_SHA1,
            SigType::EcdsaSha256P256 => constants::ECDSA_SHA256_P256,
            SigType::EcdsaSha384P384 => constants::ECDSA_SHA384_P384,
            SigType::EcdsaSha512P521 => constants::ECDSA_SHA512_P521,
            SigType::Rsa2048Sha256 => constants::RSA_SHA256_2048,
            SigType::Rsa3072Sha384 => constants::RSA_SHA384_3072,
            SigType::Rsa4096Sha512 => constants::RSA_SHA512_4096,
            SigType::Ed25519 => constants::ED25519,
            SigType::Ed25519ph => constants::ED25519PH,
        }
    }

    pub fn pubkey_len(&self) -> (n: usize)
        ensures
            n == self.spec_pubkey_len(),
    {
        match self {
            SigType::DsaSha1 => 128,
            SigType::EcdsaSha256P256 => 64,
            SigType::EcdsaSha384P384 => 96,
            SigType::EcdsaSha512P521 => 132,
            SigType::Rsa2048Sha256 => 256,
            SigType::Rsa3072Sha384 => 384,
            SigType::Rsa4096Sha512 => 512,
            SigType::Ed25519 => 32,
            SigType::Ed25519ph => 32,
        }
    }

    pub fn privkey_len(&self) -> (n: usize)
        ensures
            n == self.spec_privkey_len(),
    {
        match self {
            SigType::DsaSha1 => 20,
            SigType::EcdsaSha256P256 => 32,
            SigType::EcdsaSha384P384 => 48,
            SigType::EcdsaSha512P521 => 66,
            SigType::Rsa2048Sha256 => 512,
            SigType::Rsa3072Sha384 => 768,
            SigType::Rsa4096Sha512 => 1024,
            SigType::Ed25519 => 32,
            SigType::Ed25519ph => 32,
        }
    }

    pub fn sig_len(&self) -> (n: usize)
        ensures
            n == self.spec_sig_len(),
    {
        match self {
            SigType::DsaSha1 => 40,
            SigType::EcdsaSha256P256 => 64,
            SigType::EcdsaSha384P384 => 96,
            SigType::EcdsaSha512P521 => 132,
            SigType::Rsa2048Sha256 => 256,
            SigType::Rsa3072Sha384 => 384,
            SigType::Rsa4096Sha512 => 512,
            SigType::Ed25519 => 64,
            SigType::Ed25519ph => 64,
        }
    }

    pub fn pad_len(&self, enc_type: &EncType) -> (n: usize)
        ensures
            n == self.spec_pad_len(*enc_type),
            enc_type.spec_pubkey_len() + n + self.spec_pubkey_len() - self.spec_extra_data_len(
                *enc_type,
            ) == 384,
    {
        let len = self.pubkey_len();
        if len <= constants::SIGNING_KEY_AREA_LEN {
            constants::SIGNING_KEY_AREA_LEN - len
        } else {
            0
        }
    }

    pub fn extra_data_len(&self, enc_type: &EncType) -> (n: usize)
        ensures
            n == self.spec_extra_data_len(*enc_type),
    {
        let len = self.pubkey_len();
        if len <= constants::SIGNING_KEY_AREA_LEN {
            0
        } else {
            len - constants::SIGNING_KEY_AREA_LEN
        }
    }
}

impl EncType {
    pub open spec fn spec_from_bytes(tag: u16) -> Option<EncType> {
        if tag == 0 {
            Some(EncType::ElGamal2048)
        } else {
            None
        }
    }

    pub open spec fn spec_code(self) -> u16 {
        0
    }

    pub open spec fn spec_pubkey_len(self) -> nat {
        256
    }

    pub open spec fn spec_privkey_len(self) -> nat {
        256
    }

    /// Number of encryption key bytes that the key certificate carries.
    pub open spec fn spec_extra_data_len(self, sig_type: SigType) -> nat {
        0
    }

    pub fn from_bytes(tag: u16) -> (r: Option<EncType>)
        ensures
            r == Self::spec_from_bytes(tag),
    {
        if tag == constants::ELGAMAL2048 {
            Some(EncType::ElGamal2048)
        } else {
            None
        }
    }

    pub fn code(&self) -> (c: u16)
        ensures
            c == self.spec_code(),
            Self::spec_from_bytes(c) == Some(*self),
    {
        constants::ELGAMAL2048
    }

    pub fn pubkey_len(&self) -> (n: usize)
        ensures
            n == self.spec_pubkey_len(),
    {
        256
    }

    pub fn privkey_len(&self) -> (n: usize)
        ensures
            n == self.spec_privkey_len(),
    {
        256
    }

    pub fn extra_data_len(&self, sig_type: &SigType) -> (n: usize)
        ensures
            n == self.spec_extra_data_len(*sig_type),
    {
        0
    }
}


/// What can go wrong with keys and signatures.
#[derive(Clone, Copy, Debug, PartialEq, Eq, Structural)]
pub enum Error {
    /// Key material of the wrong length, or that could not be produced.
    InvalidKey,
    /// The signature does not verify.
    InvalidSignature,
    /// There is no signature to verify.
    NoSignature,
    /// Key and signature belong to different algorithms.
    TypeMismatch,
    /// The algorithm is known but cannot be computed here.
    UnsupportedAlgorithm,
    /// The operating system gave no random bytes.
    RandomnessUnavailable,
}

/// An algorithm together with the bytes of a key or signature made for it.
pub ghost struct TypedBytes {
    pub sig_type: SigType,
    pub bytes: Seq<u8>,
}

/// The public key of an encryption key pair.
#[derive(Clone, Debug, PartialEq, Eq)]
pub struct PublicKey(pub [u8; 256]);

/// The private key of an encryption key pair.
#[derive(Clone)]
pub struct PrivateKey(pub [u8; 256]);

impl View for PublicKey {
    type V = Seq<u8>;

    open spec fn view(&self) -> Seq<u8> {
        self.0@
    }
}

impl View for PrivateKey {
    type V = Seq<u8>;

    open spec fn view(&self) -> Seq<u8> {
        self.0@
    }
}

impl PublicKey {
    pub fn from_bytes(buf: &[u8; 256]) -> (k: PublicKey)
        ensures
            k@ == buf@,
    {
        PublicKey(*buf)
    }
}

impl PrivateKey {
    pub fn from_bytes(buf: &[u8; 256]) -> (k: PrivateKey)
        ensures
            k@ == buf@,
    {
        PrivateKey(*buf)
    }
}

/// The public key that signatures are verified with.
#[derive(Clone, Debug, PartialEq, Eq)]
pub struct SigningPublicKey {
    sig_type: SigType,
    bytes: Vec<u8>,
}

/// The private key that signatures are made with.
#[derive(Clone)]
pub struct SigningPrivateKey {
    sig_type: SigType,
    bytes: Vec<u8>,
}

/// A signature.
#[derive(Clone, Debug, PartialEq, Eq)]
pub struct Signature {
    sig_type: SigType,
    bytes: Vec<u8>,
}

impl View for SigningPublicKey {
    type V = TypedBytes;

    closed spec fn view(&self) -> TypedBytes {
        TypedBytes { sig_type: self.sig_type, bytes: self.bytes@ }
    }
}

impl View for SigningPrivateKey {
    type V = TypedBytes;

    closed spec fn view(&self) -> TypedBytes {
        TypedBytes { sig_type: self.sig_type, bytes: self.bytes@ }
    }
}

impl View for Signature {
    type V = TypedBytes;

    closed spec fn view(&self) -> TypedBytes {
        TypedBytes { sig_type: self.sig_type, bytes: self.bytes@ }
    }
}

impl TypedBytes {
    /// A public key of the length that its algorithm asks for.
    pub open spec fn is_public_key(self) -> bool {
        self.bytes.len() == self.sig_type.spec_pubkey_len()
    }

    /// A private key of the length that its algorithm asks for.
    pub open spec fn is_private_key(self) -> bool {
        self.bytes.len() == self.sig_type.spec_privkey_len()
    }

    /// A signature of the length that its algorithm asks for.
    pub open spec fn is_signature(self) -> bool {
        self.bytes.len() == self.sig_type.spec_sig_len()
    }
}

/// The public key that belongs to a private key. Keys are derived for
/// Ed25519 and for DSA; the other algorithms are not supported.
pub open spec fn spec_public_from_secret(secret: TypedBytes) -> Result<TypedBytes, Error> {
    if secret.sig_type == SigType::DsaSha1 {
        if secret.bytes.len() == 20 {
            Ok(
                TypedBytes {
                    sig_type: SigType::DsaSha1,
                    bytes: crate::crypto::dsa::spec_dsa_public(secret.bytes),
                },
            )
        } else {
            Err(Error::InvalidKey)
        }
    } else if secret.sig_type == SigType::Ed25519 {
        if secret.bytes.len() == 32 {
            Ok(
                TypedBytes {
                    sig_type: SigType::Ed25519,
                    bytes: spec_ed25519_public_key(secret.bytes),
                },
            )
        } else {
            Err(Error::InvalidKey)
        }
    } else {
        Err(Error::UnsupportedAlgorithm)
    }
}

/// The signature that a private key makes of a message.
pub open spec fn spec_sign(secret: TypedBytes, msg: Seq<u8>) -> Result<TypedBytes, Error> {
    if secret.sig_type == SigType::Ed25519 {
        if secret.bytes.len() == 32 {
            match spec_ed25519_sign(secret.bytes, msg) {
                Some(sig) => Ok(TypedBytes { sig_type: SigType::Ed25519, bytes: sig }),
                None => Err(Error::InvalidKey),
            }
        } else {
            Err(Error::InvalidKey)
        }
    } else {
        Err(Error::UnsupportedAlgorithm)
    }
}

/// The SEC1 encoding of an uncompressed curve point whose coordinates are
/// `xy`.
pub open spec fn spec_sec1_uncompressed(xy: Seq<u8>) -> Seq<u8> {
    seq![4u8] + xy
}

/// The verdict on a signature of a message under a public key.
pub open spec fn spec_verify(key: TypedBytes, msg: Seq<u8>, sig: TypedBytes) -> Result<(), Error> {
    if key.sig_type != sig.sig_type {
        Err(Error::TypeMismatch)
    } else if !key.is_public_key() {
        Err(Error::InvalidKey)
    } else if !sig.is_signature() {
        Err(Error::InvalidSignature)
    } else if key.sig_type == SigType::Ed25519 {
        if spec_ed25519_verify(key.bytes, msg, sig.bytes) {
            Ok(())
        } else {
            Err(Error::InvalidSignature)
        }
    } else if key.sig_type == SigType::EcdsaSha256P256 {
        if spec_ecdsa_p256_verify(spec_sec1_uncompressed(key.bytes), msg, sig.bytes) {
            Ok(())
        } else {
            Err(Error::InvalidSignature)
        }
    } else if key.sig_type == SigType::EcdsaSha384P384 {
        if spec_ecdsa_p384_verify(spec_sec1_uncompressed(key.bytes), msg, sig.bytes) {
            Ok(())
        } else {
            Err(Error::InvalidSignature)
        }
    } else {
        Err(Error::UnsupportedAlgorithm)
    }
}

/// The SEC1 encoding of the uncompressed point with the coordinates `xy`.
fn sec1_uncompressed(xy: &[u8]) -> (r: Vec<u8>)
    ensures
        r@ == spec_sec1_uncompressed(xy@),
{
    let mut out: Vec<u8> = Vec::new();
    out.push(4u8);
    out.extend_from_slice(xy);
    assert(out@ =~= spec_sec1_uncompressed(xy@));
    out
}

impl SigningPublicKey {
    /// A key of the given algorithm; the data has to have the length of its
    /// public keys.
    pub fn from_bytes(sig_type: SigType, data: &[u8]) -> (r: Result<SigningPublicKey, Error>)
        ensures
            data@.len() == sig_type.spec_pubkey_len() ==> r is Ok,
            r matches Ok(k) ==> k@ == (TypedBytes { sig_type, bytes: data@ }) && k@.is_public_key(),
            data@.len() != sig_type.spec_pubkey_len() ==> r == Err::<SigningPublicKey, Error>(
                Error::InvalidKey,
            ),
    {
        if data.len() == sig_type.pubkey_len() {
            Ok(SigningPublicKey { sig_type, bytes: copy_bytes(data) })
        } else {
            Err(Error::InvalidKey)
        }
    }

    /// Derives the public key from the private one, for Ed25519 and for
    /// DSA.
    pub fn from_secret(secret: &SigningPrivateKey) -> (r: Result<SigningPublicKey, Error>)
        ensures
            match r {
                Ok(k) => spec_public_from_secret(secret@) == Ok::<TypedBytes, Error>(k@)
                    && k@.is_public_key(),
                Err(e) => spec_public_from_secret(secret@) == Err::<TypedBytes, Error>(e),
            },
    {
        match secret.sig_type {
            SigType::DsaSha1 => {
                if secret.bytes.len() != 20 {
                    return Err(Error::InvalidKey);
                }
                let bytes = crate::crypto::dsa::dsa_public(secret.bytes.as_slice());
                Ok(SigningPublicKey { sig_type: SigType::DsaSha1, bytes })
            },
            SigType::Ed25519 => {
                if secret.bytes.len() != 32 {
                    return Err(Error::InvalidKey);
                }
                let seed: [u8; 32] = to_array(secret.bytes.as_slice());
                assert(seed@ =~= secret.bytes@);
                match ed25519_public_key(&seed) {
                    Some(key) => {
                        let bytes = copy_bytes(key.as_slice());
                        Ok(SigningPublicKey { sig_type: SigType::Ed25519, bytes })
                    },
                    None => Err(Error::InvalidKey),
                }
            },
            _ => Err(Error::UnsupportedAlgorithm),
        }
    }

    pub fn sig_type(&self) -> (t: SigType)
        ensures
            t == self@.sig_type,
    {
        self.sig_type
    }

    pub fn as_bytes(&self) -> (b: &[u8])
        ensures
            b@ == self@.bytes,
    {
        self.bytes.as_slice()
    }

    /// Checks `sig` as a signature of `msg` under this key.
    pub fn verify(&self, msg: &[u8], sig: &Signature) -> (r: Result<(), Error>)
        ensures
            r == spec_verify(self@, msg@, sig@),
    {
        if self.sig_type != sig.sig_type {
            return Err(Error::TypeMismatch);
        }
        if self.bytes.len() != self.sig_type.pubkey_len() {
            return Err(Error::InvalidKey);
        }
        if sig.bytes.len() != sig.sig_type.sig_len() {
            return Err(Error::InvalidSignature);
        }
        let ok = match self.sig_type {
            SigType::Ed25519 => {
                let key: [u8; 32] = to_array(self.bytes.as_slice());
                let raw: [u8; 64] = to_array(sig.bytes.as_slice());
                assert(key@ =~= self.bytes@);
                assert(raw@ =~= sig.bytes@);
                ed25519_verify(&key, msg, &raw)
            },
            SigType::EcdsaSha256P256 => {
                let point = sec1_uncompressed(self.bytes.as_slice());
                ecdsa_p256_verify(point.as_slice(), msg, sig.bytes.as_slice())
            },
            SigType::EcdsaSha384P384 => {
                let point = sec1_uncompressed(self.bytes.as_slice());
                ecdsa_p384_verify(point.as_slice(), msg, sig.bytes.as_slice())
            },
            _ => {
                return Err(Error::UnsupportedAlgorithm);
            },
        };
        if ok {
            Ok(())
        } else {
            Err(Error::InvalidSignature)
        }
    }

    /// A copy of the key.
    pub fn duplicate(&self) -> (r: SigningPublicKey)
        ensures
            r@ == self@,
    {
        SigningPublicKey { sig_type: self.sig_type, bytes: copy_bytes(self.bytes.as_slice()) }
    }
}

impl SigningPrivateKey {
    /// A fresh Ed25519 private key, or nothing where the operating system
    /// gives no random bytes.
    pub fn generate() -> (r: Option<SigningPrivateKey>)
        ensures
            r matches Some(k) ==> k@.sig_type == SigType::Ed25519 && k@.is_private_key(),
    {
        match os_random_bytes(32) {
            Some(bytes) => Some(SigningPrivateKey { sig_type: SigType::Ed25519, bytes }),
            None => None,
        }
    }

    /// A key of the given algorithm; the data has to have the length of its
    /// private keys.
    pub fn from_bytes(sig_type: SigType, data: &[u8]) -> (r: Result<SigningPrivateKey, Error>)
        ensures
            data@.len() == sig_type.spec_privkey_len() ==> r is Ok,
            r matches Ok(k) ==> k@ == (TypedBytes { sig_type, bytes: data@ })
                && k@.is_private_key(),
            data@.len() != sig_type.spec_privkey_len() ==> r == Err::<SigningPrivateKey, Error>(
                Error::InvalidKey,
            ),
    {
        if data.len() == sig_type.privkey_len() {
            Ok(SigningPrivateKey { sig_type, bytes: copy_bytes(data) })
        } else {
            Err(Error::InvalidKey)
        }
    }

    pub fn sig_type(&self) -> (t: SigType)
        ensures
            t == self@.sig_type,
    {
        self.sig_type
    }

    pub fn as_bytes(&self) -> (b: &[u8])
        ensures
            b@ == self@.bytes,
    {
        self.bytes.as_slice()
    }

    /// Signs `msg`.
    pub fn sign(&self, msg: &[u8]) -> (r: Result<Signature, Error>)
        ensures
            match r {
                Ok(sig) => spec_sign(self@, msg@) == Ok::<TypedBytes, Error>(sig@)
                    && sig@.is_signature(),
                Err(e) => spec_sign(self@, msg@) == Err::<TypedBytes, Error>(e),
            },
    {
        match self.sig_type {
            SigType::Ed25519 => {
                if self.bytes.len() != 32 {
                    return Err(Error::InvalidKey);
                }
                let seed: [u8; 32] = to_array(self.bytes.as_slice());
                assert(seed@ =~= self.bytes@);
                match ed25519_sign(&seed, msg) {
                    Some(raw) => {
                        let bytes = copy_bytes(raw.as_slice());
                        Ok(Signature { sig_type: SigType::Ed25519, bytes })
                    },
                    None => Err(Error::InvalidKey),
                }
            },
            _ => Err(Error::UnsupportedAlgorithm),
        }
    }

    /// A copy of the key.
    pub fn duplicate(&self) -> (r: SigningPrivateKey)
        ensures
            r@ == self@,
    {
        SigningPrivateKey { sig_type: self.sig_type, bytes: copy_bytes(self.bytes.as_slice()) }
    }
}

impl Signature {
    /// A signature of the given algorithm; the data has to have the length
    /// of its signatures.
    pub fn from_bytes(sig_type: SigType, data: &[u8]) -> (r: Result<Signature, Error>)
        ensures
            data@.len() == sig_type.spec_sig_len() ==> r is Ok,
            r matches Ok(s) ==> s@ == (TypedBytes { sig_type, bytes: data@ }) && s@.is_signature(),
            data@.len() != sig_type.spec_sig_len() ==> r == Err::<Signature, Error>(
                Error::InvalidSignature,
            ),
    {
        if data.len() == sig_type.sig_len() {
            Ok(Signature { sig_type, bytes: copy_bytes(data) })
        } else {
            Err(Error::InvalidSignature)
        }
    }

    pub fn sig_type(&self) -> (t: SigType)
        ensures
            t == self@.sig_type,
    {
        self.sig_type
    }

    pub fn as_bytes(&self) -> (b: &[u8])
        ensures
            b@ == self@.bytes,
    {
        self.bytes.as_slice()
    }

    /// A copy of the signature.
    pub fn duplicate(&self) -> (r: Signature)
        ensures
            r@ == self@,
    {
        Signature { sig_type: self.sig_type, bytes: copy_bytes(self.bytes.as_slice()) }
    }
}

} // verus!

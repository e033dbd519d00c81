//! Data types common to all I2P protocols.

use vstd::prelude::*;
use vstd::string::StringExecFns;
use vstd::utf8::{decode_utf8, encode_utf8, valid_utf8};

use std::time::SystemTime;

use crate::bytes::copy_bytes;
use crate::constants;
use crate::crypto::primitives::{os_random_bytes, sha256, spec_sha256};
use crate::crypto::{
    spec_sign, spec_verify, EncType, Error, PrivateKey, PublicKey, SigType, Signature,
    SigningPrivateKey, SigningPublicKey, TypedBytes,
};
use crate::data::frame::{
    gen_router_identity, gen_router_info, gen_router_info_minus_sig, gen_router_secret_keys,
    spec_gen_router_identity, spec_gen_router_info, spec_gen_router_info_minus_sig,
    spec_gen_router_secret_keys, spec_mapping_fits,
};
use crate::data::mapping::{spec_insert, spec_lookup, spec_sorted, Pair};
use crate::net::{
    decimal, ip_text, parse_ip, parse_port, spec_decimal, spec_ip_text, spec_parse_ip,
    spec_parse_port, SocketAddr,
};
use crate::text::{spec_split, split};
use crate::time::{
    duration_since_epoch, spec_duration_nanos, spec_duration_secs, spec_since_epoch,
    system_time_now,
};

pub mod frame;
pub mod mapping;

pub use self::mapping::Mapping;

verus! {

//
// Simple data types
//
/// The SHA-256 hash of some data.
#[derive(Clone, Debug, PartialEq, Eq, Hash)]
pub struct Hash(pub [u8; 32]);

/// Byte-wise exclusive or of two sequences; the result is as long as `a`.
pub open spec fn spec_xor(a: Seq<u8>, b: Seq<u8>) -> Seq<u8> {
    Seq::new(a.len(), |i: int| a[i] ^ b[i])
}

impl View for Hash {
    type V = Seq<u8>;

    open spec fn view(&self) -> Seq<u8> {
        self.0@
    }
}

impl Hash {
    /// Copies the 32 bytes of `buf` into a new hash.
    pub fn from_bytes(buf: &[u8; 32]) -> (h: Hash)
        ensures
            h@ == buf@,
    {
        Hash(*buf)
    }

    /// The hash as text, in the base64 of I2P.
    pub fn to_base64(&self) -> (r: Option<String>)
        ensures
            match r {
                Some(text) => constants::spec_i2p_base64_encode(self@) == Some(text@),
                None => constants::spec_i2p_base64_encode(self@) is None,
            },
    {
        constants::i2p_base64_encode(self.0.as_slice())
    }

    /// The SHA-256 digest of `buf`.
    pub fn digest(buf: &[u8]) -> (h: Hash)
        ensures
            h@ == spec_sha256(buf@),
    {
        Hash(sha256(buf))
    }

    /// Replaces every byte of `self` by its exclusive or with the byte of
    /// `other` at the same position.
    pub fn xor(&mut self, other: &Hash)
        ensures
            final(self)@ == spec_xor(old(self)@, other@),
    {
        let mut i: usize = 0;
        while i < 32
            invariant
                i <= 32,
                self.0@.len() == 32,
                forall|j: int| 0 <= j < i ==> self.0@[j] == old(self).0@[j] ^ other.0@[j],
                forall|j: int| i <= j < 32 ==> self.0@[j] == old(self).0@[j],
            decreases 32 - i,
        {
            let b: u8 = self.0[i] ^ other.0[i];
            self.0[i] = b;
            i += 1;
        }
        assert(self.0@ =~= spec_xor(old(self).0@, other.0@));
    }
}

/// Exclusive or with the same value twice gives the first value back, and
/// the exclusive or of a value with itself is all zeros.
pub proof fn lemma_xor_laws(a: Seq<u8>, b: Seq<u8>)
    requires
        a.len() == b.len(),
    ensures
        spec_xor(spec_xor(a, b), b) == a,
        spec_xor(a, a) == Seq::new(a.len(), |i: int| 0u8),
{
    assert forall|i: int| 0 <= i < a.len() implies #[trigger] spec_xor(spec_xor(a, b), b)[i]
        == a[i] by {
        let x = a[i];
        let y = b[i];
        assert((x ^ y) ^ y == x) by (bit_vector);
    }
    assert(spec_xor(spec_xor(a, b), b) =~= a);
    assert forall|i: int| 0 <= i < a.len() implies #[trigger] spec_xor(a, a)[i] == 0u8 by {
        let x = a[i];
        assert(x ^ x == 0u8) by (bit_vector);
    }
    assert(spec_xor(a, a) =~= Seq::new(a.len(), |i: int| 0u8));
}

/// The number of milliseconds since midnight on January 1, 1970 in the GMT
/// timezone. If the number is 0, the date is undefined or null.
#[derive(Clone, Copy, Debug, PartialEq, Eq, Structural)]
pub struct I2PDate(pub u64);

/// The milliseconds in a time of `secs` seconds and `nanos` nanoseconds,
/// or the largest date where they are too many for one.
pub open spec fn spec_millis(secs: u64, nanos: u32) -> u64 {
    if secs as int * 1000 + nanos as int / 1_000_000 <= u64::MAX {
        (secs as int * 1000 + nanos as int / 1_000_000) as u64
    } else {
        u64::MAX
    }
}

/// The milliseconds from the epoch to the time `t`; zero, the null date,
/// where `t` lies before the epoch.
pub open spec fn spec_date_of(t: SystemTime) -> u64 {
    match spec_since_epoch(t) {
        Some(x) => spec_millis(spec_duration_secs(x), spec_duration_nanos(x)),
        None => 0,
    }
}

impl I2PDate {
    /// The date of the given time: the milliseconds from the epoch to it.
    /// A time before the epoch gives the null date.
    pub fn from_system_time(t: SystemTime) -> (d: I2PDate)
        ensures
            d.0 == spec_date_of(t),
    {
        match duration_since_epoch(&t) {
            Some(d) => I2PDate::from_duration_parts(d.as_secs(), d.subsec_nanos()),
            None => I2PDate(0),
        }
    }

    /// The date that lies `secs` seconds and `nanos` nanoseconds after the
    /// epoch.
    pub fn from_duration_parts(secs: u64, nanos: u32) -> (d: I2PDate)
        ensures
            d.0 == spec_millis(secs, nanos),
    {
        let sub: u64 = (nanos / 1_000_000) as u64;
        match secs.checked_mul(1_000) {
            Some(ms) => match ms.checked_add(sub) {
                Some(total) => I2PDate(total),
                None => I2PDate(u64::MAX),
            },
            None => I2PDate(u64::MAX),
        }
    }
}

/// A UTF-8-encoded string.
#[derive(Clone, Debug, PartialEq, Eq, PartialOrd, Ord, Hash)]
pub struct I2PString(pub String);

impl View for I2PString {
    type V = Seq<u8>;

    /// The bytes that the string has on the wire, without the length prefix.
    open spec fn view(&self) -> Seq<u8> {
        encode_utf8(self.0@)
    }
}

/// The pieces between the commas of `s`.
pub open spec fn spec_split_commas(s: Seq<char>) -> Seq<Seq<char>> {
    spec_split(s, ',')
}

impl I2PString {
    pub fn new(string: &str) -> (s: I2PString)
        ensures
            s.0@ == string@,
            s@ == encode_utf8(string@),
    {
        I2PString(String::from_str(string))
    }

    /// Splits the string at its commas.
    pub fn to_csv(&self) -> (r: Vec<I2PString>)
        ensures
            r@.len() == spec_split_commas(self.0@).len(),
            forall|k: int|
                0 <= k < r@.len() ==> (#[trigger] r@[k]).0@ == spec_split_commas(self.0@)[k],
    {
        let mut pieces = split(self.0.as_str(), ',');
        let ghost all = pieces@;
        let n = pieces.len();
        let mut out: Vec<I2PString> = Vec::new();
        let mut i: usize = 0;
        while i < n
            invariant
                i <= n,
                n == all.len(),
                pieces@.len() == n,
                out@.len() == i,
                forall|k: int| i <= k < n ==> (#[trigger] pieces@[k])@ == all[k]@,
                forall|k: int| 0 <= k < i ==> (#[trigger] out@[k]).0@ == all[k]@,
            decreases n - i,
        {
            let mut piece = String::new();
            std::mem::swap(&mut piece, &mut pieces[i]);
            out.push(I2PString(piece));
            i += 1;
        }
        out
    }

    /// A copy of the string.
    pub fn duplicate(&self) -> (r: I2PString)
        ensures
            r.0@ == self.0@,
            r@ == self@,
    {
        I2PString(self.0.clone())
    }
}

/// A random number.
pub struct SessionTag(pub [u8; 32]);

impl SessionTag {
    pub fn from_bytes(buf: &[u8; 32]) -> (t: SessionTag)
        ensures
            t.0@ == buf@,
    {
        SessionTag(*buf)
    }
}

/// Defines an identifier that is unique to each router in a tunnel. A TunnelId
/// is generally greater than zero; do not use a value of zero except in
/// special cases.
#[derive(Debug)]
pub struct TunnelId(pub u32);

//
// Certificates
//
/// A key certificate provides a mechanism to indicate the type of the PublicKey
/// and SigningPublicKey in the Destination or RouterIdentity, and to package
/// any key data in excess of the standard lengths.
///
/// By maintaining exactly 384 bytes before the certificate, and putting any
/// excess key data inside the certificate, we maintain compatibility for any
/// software that parses Destinations and RouterIdentities.
#[derive(Clone, Debug, PartialEq)]
pub struct KeyCertificate {
    pub sig_type: SigType,
    enc_type: EncType,
    sig_data: Vec<u8>,
    enc_data: Vec<u8>,
}

pub ghost struct KeyCertificateView {
    pub sig_type: SigType,
    pub enc_type: EncType,
    pub sig_data: Seq<u8>,
    pub enc_data: Seq<u8>,
}

impl KeyCertificateView {
    /// The certificate carries as much key data as its algorithms have in
    /// excess of the key block.
    pub open spec fn wf(self) -> bool {
        &&& self.sig_data.len() == self.sig_type.spec_extra_data_len(self.enc_type)
        &&& self.enc_data.len() == self.enc_type.spec_extra_data_len(self.sig_type)
    }
}

impl View for KeyCertificate {
    type V = KeyCertificateView;

    closed spec fn view(&self) -> KeyCertificateView {
        KeyCertificateView {
            sig_type: self.sig_type,
            enc_type: self.enc_type,
            sig_data: self.sig_data@,
            enc_data: self.enc_data@,
        }
    }
}

impl KeyCertificate {
    pub fn new(sig_type: SigType, enc_type: EncType, sig_data: Vec<u8>, enc_data: Vec<u8>) -> (r:
        KeyCertificate)
        ensures
            r@ == (KeyCertificateView {
                sig_type,
                enc_type,
                sig_data: sig_data@,
                enc_data: enc_data@,
            }),
    {
        KeyCertificate { sig_type, enc_type, sig_data, enc_data }
    }

    pub fn sig_type(&self) -> (t: SigType)
        ensures
            t == self@.sig_type,
    {
        self.sig_type
    }

    pub fn enc_type(&self) -> (t: EncType)
        ensures
            t == self@.enc_type,
    {
        self.enc_type
    }

    pub fn sig_data(&self) -> (d: &[u8])
        ensures
            d@ == self@.sig_data,
    {
        self.sig_data.as_slice()
    }

    pub fn enc_data(&self) -> (d: &[u8])
        ensures
            d@ == self@.enc_data,
    {
        self.enc_data.as_slice()
    }

    /// Whether the certificate carries as much key data as its algorithms
    /// ask for.
    pub fn is_wf(&self) -> (r: bool)
        ensures
            r == self@.wf(),
    {
        self.sig_data.len() == self.sig_type.extra_data_len(&self.enc_type) && self.enc_data.len()
            == self.enc_type.extra_data_len(&self.sig_type)
    }

    /// A copy of the certificate.
    pub fn duplicate(&self) -> (r: KeyCertificate)
        ensures
            r@ == self@,
    {
        KeyCertificate {
            sig_type: self.sig_type,
            enc_type: self.enc_type,
            sig_data: crate::bytes::copy_bytes(self.sig_data.as_slice()),
            enc_data: crate::bytes::copy_bytes(self.enc_data.as_slice()),
        }
    }
}

/// A container for various receipts or proof of works used throughout the I2P
/// network.
#[derive(Clone, Debug, PartialEq)]
pub enum Certificate {
    Null,
    HashCash(Vec<u8>),
    Hidden,
    Signed(Vec<u8>),
    Multiple(Vec<u8>),
    Key(KeyCertificate),
}

pub ghost enum CertificateView {
    Null,
    HashCash(Seq<u8>),
    Hidden,
    Signed(Seq<u8>),
    Multiple(Seq<u8>),
    Key(KeyCertificateView),
}

impl CertificateView {
    /// The type code that stands for the kind of certificate on the wire.
    pub open spec fn code(self) -> u8 {
        match self {
            CertificateView::Null => 0,
            CertificateView::HashCash(_) => 1,
            CertificateView::Hidden => 2,
            CertificateView::Signed(_) => 3,
            CertificateView::Multiple(_) => 4,
            CertificateView::Key(_) => 5,
        }
    }

    /// The payload fits the 16-bit length that precedes it on the wire.
    pub open spec fn wf(self) -> bool {
        match self {
            CertificateView::Null => true,
            CertificateView::HashCash(p) => p.len() <= 0xffff,
            CertificateView::Hidden => true,
            CertificateView::Signed(p) => p.len() <= 0xffff,
            CertificateView::Multiple(p) => p.len() <= 0xffff,
            CertificateView::Key(kc) => kc.wf(),
        }
    }
}

impl View for Certificate {
    type V = CertificateView;

    open spec fn view(&self) -> CertificateView {
        match self {
            Certificate::Null => CertificateView::Null,
            Certificate::HashCash(p) => CertificateView::HashCash(p@),
            Certificate::Hidden => CertificateView::Hidden,
            Certificate::Signed(p) => CertificateView::Signed(p@),
            Certificate::Multiple(p) => CertificateView::Multiple(p@),
            Certificate::Key(kc) => CertificateView::Key(kc@),
        }
    }
}

impl Certificate {
    /// The certificate at the start of `buf`, or nothing where `buf` ends
    /// before the certificate does. What is no certificate at all must not
    /// be handed in.
    pub fn from(buf: &[u8]) -> (r: Option<Certificate>)
        requires
            !(crate::data::frame::spec_certificate(buf@) matches Err(
                crate::data::frame::ParseError::Invalid,
            )),
        ensures
            match r {
                Some(c) => crate::data::frame::spec_certificate(buf@) matches Ok((v, _)) && v
                    == c@,
                None => crate::data::frame::spec_certificate(buf@) matches Err(
                    crate::data::frame::ParseError::Incomplete,
                ),
            },
    {
        assert(buf@.skip(0) =~= buf@);
        match crate::data::frame::certificate(buf, 0) {
            Ok((c, _)) => Some(c),
            Err(_) => None,
        }
    }

    /// The type code of the certificate.
    pub fn code(&self) -> (c: u8)
        ensures
            c == self@.code(),
    {
        match *self {
            Certificate::Null => constants::NULL_CERT,
            Certificate::HashCash(_) => constants::HASH_CERT,
            Certificate::Hidden => constants::HIDDEN_CERT,
            Certificate::Signed(_) => constants::SIGNED_CERT,
            Certificate::Multiple(_) => constants::MULTI_CERT,
            Certificate::Key(_) => constants::KEY_CERT,
        }
    }

    /// Whether the certificate can be written.
    pub fn is_wf(&self) -> (r: bool)
        ensures
            r == self@.wf(),
    {
        match self {
            Certificate::Null => true,
            Certificate::HashCash(p) => p.len() <= 0xffff,
            Certificate::Hidden => true,
            Certificate::Signed(p) => p.len() <= 0xffff,
            Certificate::Multiple(p) => p.len() <= 0xffff,
            Certificate::Key(kc) => kc.is_wf(),
        }
    }

    /// A copy of the certificate.
    pub fn duplicate(&self) -> (r: Certificate)
        ensures
            r@ == self@,
    {
        match self {
            Certificate::Null => Certificate::Null,
            Certificate::HashCash(p) => Certificate::HashCash(
                crate::bytes::copy_bytes(p.as_slice()),
            ),
            Certificate::Hidden => Certificate::Hidden,
            Certificate::Signed(p) => Certificate::Signed(crate::bytes::copy_bytes(p.as_slice())),
            Certificate::Multiple(p) => Certificate::Multiple(
                crate::bytes::copy_bytes(p.as_slice()),
            ),
            Certificate::Key(kc) => Certificate::Key(kc.duplicate()),
        }
    }
}

//
// Router identities
//
/// Defines the way to uniquely identify a particular router.
#[derive(Clone, Debug, PartialEq)]
pub struct RouterIdentity {
    public_key: PublicKey,
    padding: Option<Vec<u8>>,
    pub signing_key: SigningPublicKey,
    pub certificate: Certificate,
}

pub ghost struct RouterIdentityView {
    pub public_key: Seq<u8>,
    pub padding: Option<Seq<u8>>,
    pub signing_key: TypedBytes,
    pub certificate: CertificateView,
}

impl RouterIdentityView {
    /// The number of padding bytes in the key block.
    pub open spec fn pad_len(self) -> nat {
        match self.certificate {
            CertificateView::Key(kc) => kc.sig_type.spec_pad_len(kc.enc_type),
            _ => 0,
        }
    }

    /// The padding bytes in the key block.
    pub open spec fn padding_bytes(self) -> Seq<u8> {
        match self.padding {
            Some(p) => p,
            None => Seq::empty(),
        }
    }

    /// The keys, the padding and the certificate agree: a key certificate
    /// names the algorithm of the signing key and carries what of the key
    /// does not fit into the key block, the padding fills the block, and
    /// without a key certificate the signing key is a DSA key.
    pub open spec fn wf(self) -> bool {
        &&& self.public_key.len() == 256
        &&& self.signing_key.is_public_key()
        &&& self.certificate.wf()
        &&& self.padding_bytes().len() == self.pad_len()
        &&& (self.padding is Some <==> self.pad_len() > 0)
        &&& match self.certificate {
            CertificateView::Key(kc) => {
                &&& kc.sig_type == self.signing_key.sig_type
                &&& kc.sig_data == self.signing_key.bytes.skip(
                    self.signing_key.bytes.len() - kc.sig_data.len(),
                )
            },
            _ => self.signing_key.sig_type == SigType::DsaSha1,
        }
    }
}

impl View for RouterIdentity {
    type V = RouterIdentityView;

    closed spec fn view(&self) -> RouterIdentityView {
        RouterIdentityView {
            public_key: self.public_key@,
            padding: match self.padding {
                Some(p) => Some(p@),
                None => None,
            },
            signing_key: self.signing_key@,
            certificate: self.certificate@,
        }
    }
}

/// The identity that belongs to the given keys, with the given padding.
pub open spec fn spec_identity_from_keys(
    public_key: Seq<u8>,
    signing_key: TypedBytes,
    padding: Seq<u8>,
) -> Result<RouterIdentityView, Error> {
    if signing_key.sig_type != SigType::DsaSha1 && signing_key.sig_type != SigType::Ed25519 {
        Err(Error::UnsupportedAlgorithm)
    } else if !signing_key.is_public_key() || padding.len() != signing_key.sig_type.spec_pad_len(
        EncType::ElGamal2048,
    ) {
        Err(Error::InvalidKey)
    } else if signing_key.sig_type == SigType::DsaSha1 {
        Ok(
            RouterIdentityView {
                public_key,
                padding: None,
                signing_key,
                certificate: CertificateView::Null,
            },
        )
    } else {
        Ok(
            RouterIdentityView {
                public_key,
                padding: Some(padding),
                signing_key,
                certificate: CertificateView::Key(
                    KeyCertificateView {
                        sig_type: SigType::Ed25519,
                        enc_type: EncType::ElGamal2048,
                        sig_data: Seq::empty(),
                        enc_data: Seq::empty(),
                    },
                ),
            },
        )
    }
}

impl RouterIdentity {
    /// An identity made of the given parts.
    pub fn from_parts(
        public_key: PublicKey,
        padding: Option<Vec<u8>>,
        signing_key: SigningPublicKey,
        certificate: Certificate,
    ) -> (r: RouterIdentity)
        ensures
            r@ == (RouterIdentityView {
                public_key: public_key@,
                padding: match padding {
                    Some(p) => Some(p@),
                    None => None,
                },
                signing_key: signing_key@,
                certificate: certificate@,
            }),
    {
        RouterIdentity { public_key, padding, signing_key, certificate }
    }

    /// The identity that belongs to the given public keys. `padding` fills
    /// the key block and has to have the length that the signing algorithm
    /// leaves free.
    pub fn from_keys(public_key: PublicKey, signing_key: SigningPublicKey, padding: Vec<u8>) -> (r:
        Result<RouterIdentity, Error>)
        ensures
            match r {
                Ok(rid) => spec_identity_from_keys(public_key@, signing_key@, padding@) == Ok::<
                    RouterIdentityView,
                    Error,
                >(rid@) && rid@.wf(),
                Err(e) => spec_identity_from_keys(public_key@, signing_key@, padding@) == Err::<
                    RouterIdentityView,
                    Error,
                >(e),
            },
    {
        let sig_type = signing_key.sig_type();
        let certificate = match sig_type {
            SigType::DsaSha1 => Certificate::Null,
            SigType::Ed25519 => Certificate::Key(
                KeyCertificate {
                    sig_type: SigType::Ed25519,
                    enc_type: EncType::ElGamal2048,
                    sig_data: Vec::new(),
                    enc_data: Vec::new(),
                },
            ),
            _ => {
                return Err(Error::UnsupportedAlgorithm);
            },
        };
        if signing_key.as_bytes().len() != sig_type.pubkey_len() || padding.len()
            != sig_type.pad_len(&EncType::ElGamal2048) {
            return Err(Error::InvalidKey);
        }
        let padding = if padding.len() == 0 {
            None
        } else {
            Some(padding)
        };
        let rid = RouterIdentity { public_key, padding, signing_key, certificate };
        proof {
            assert(rid@.public_key.len() == 256);
            if sig_type == SigType::Ed25519 {
                let kc = rid@.certificate->Key_0;
                assert(kc.sig_data =~= rid@.signing_key.bytes.skip(
                    rid@.signing_key.bytes.len() - kc.sig_data.len(),
                ));
                assert(rid@.padding == Some(padding.unwrap()@));
            } else {
                assert(padding is None);
            }
        }
        Ok(rid)
    }

    /// The identity that belongs to the given private keys, with fresh
    /// random padding: for a DSA signing key one with the null
    /// certificate, for an Ed25519 signing key one with a key certificate.
    /// Signing keys of other algorithms are not supported.
    pub fn from_secrets(private_key: &PrivateKey, signing_private_key: &SigningPrivateKey) -> (r:
        Result<RouterIdentity, Error>)
        ensures
            r matches Ok(rid) ==> {
                &&& rid@.wf()
                &&& crate::crypto::spec_public_from_secret(signing_private_key@) == Ok::<
                    TypedBytes,
                    Error,
                >(rid@.signing_key)
                &&& crate::crypto::elgamal::spec_be_value(rid@.public_key)
                    == crate::crypto::elgamal::spec_elgamal_public(
                    private_key@,
                    crate::crypto::elgamal::ELGAMAL_P@,
                )
                &&& spec_identity_from_keys(
                    rid@.public_key,
                    rid@.signing_key,
                    rid@.padding_bytes(),
                ) == Ok::<RouterIdentityView, Error>(rid@)
            },
            crate::crypto::spec_public_from_secret(signing_private_key@) matches Err(e) ==> r
                == Err::<RouterIdentity, Error>(e),
            r matches Err(e) ==> e == Error::RandomnessUnavailable
                || crate::crypto::spec_public_from_secret(signing_private_key@) == Err::<
                TypedBytes,
                Error,
            >(e),
    {
        let signing_key = match SigningPublicKey::from_secret(signing_private_key) {
            Ok(k) => k,
            Err(e) => {
                return Err(e);
            },
        };
        let public_key = PublicKey::from_secret(private_key);
        let pad_len = signing_key.sig_type().pad_len(&EncType::ElGamal2048);
        let padding = match os_random_bytes(pad_len) {
            Some(p) => p,
            None => {
                return Err(Error::RandomnessUnavailable);
            },
        };
        RouterIdentity::from_keys(public_key, signing_key, padding)
    }

    pub fn public_key(&self) -> (k: &PublicKey)
        ensures
            k@ == self@.public_key,
    {
        &self.public_key
    }

    pub fn padding(&self) -> (p: &Option<Vec<u8>>)
        ensures
            match *p {
                Some(bytes) => self@.padding == Some(bytes@),
                None => self@.padding is None,
            },
    {
        &self.padding
    }

    pub fn signing_key(&self) -> (k: &SigningPublicKey)
        ensures
            k@ == self@.signing_key,
    {
        &self.signing_key
    }

    pub fn certificate(&self) -> (c: &Certificate)
        ensures
            c@ == self@.certificate,
    {
        &self.certificate
    }

    /// Whether keys, padding and certificate agree.
    pub fn is_wf(&self) -> (r: bool)
        ensures
            r == self@.wf(),
    {
        let key = self.signing_key.as_bytes();
        let sig_type = self.signing_key.sig_type();
        if key.len() != sig_type.pubkey_len() || !self.certificate.is_wf() {
            return false;
        }
        let padding_len = match &self.padding {
            Some(p) => p.len(),
            None => 0,
        };
        match &self.certificate {
            Certificate::Key(kc) => {
                let pad_len = kc.sig_type.pad_len(&kc.enc_type);
                if padding_len != pad_len || self.padding.is_some() != (pad_len > 0) {
                    return false;
                }
                if !(kc.sig_type == sig_type) {
                    return false;
                }
                let extra = kc.sig_data.len();
                crate::bytes::bytes_eq(
                    kc.sig_data.as_slice(),
                    vstd::slice::slice_subrange(key, key.len() - extra, key.len()),
                )
            },
            _ => self.padding.is_none() && sig_type == SigType::DsaSha1,
        }
    }

    /// The canonical wire form of the identity.
    pub fn to_bytes(&self) -> (bytes: Vec<u8>)
        requires
            self@.wf(),
        ensures
            bytes@ == spec_gen_router_identity(self@),
    {
        let mut buf: Vec<u8> = Vec::with_capacity(387);
        gen_router_identity(&mut buf, self);
        assert(buf@ =~= spec_gen_router_identity(self@));
        buf
    }

    /// The hash under which the network database keeps the router: the
    /// SHA-256 digest of the canonical wire form of the identity.
    pub fn hash(&self) -> (h: Hash)
        requires
            self@.wf(),
        ensures
            h@ == spec_sha256(spec_gen_router_identity(self@)),
    {
        let bytes = self.to_bytes();
        Hash::digest(bytes.as_slice())
    }

    /// A copy of the identity.
    pub fn duplicate(&self) -> (r: RouterIdentity)
        ensures
            r@ == self@,
    {
        RouterIdentity {
            public_key: PublicKey(self.public_key.0),
            padding: match &self.padding {
                Some(p) => Some(copy_bytes(p.as_slice())),
                None => None,
            },
            signing_key: self.signing_key.duplicate(),
            certificate: self.certificate.duplicate(),
        }
    }
}

//
// Router addresses
//
/// Defines the means to contact a router through a transport protocol.
#[derive(Clone, Debug, PartialEq)]
pub struct RouterAddress {
    cost: u8,
    expiration: I2PDate,
    transport_style: I2PString,
    options: Mapping,
}

pub ghost struct RouterAddressView {
    pub cost: u8,
    pub expiration: u64,
    pub transport_style: Seq<u8>,
    pub options: Seq<Pair>,
}

/// The key of the option that holds the host of an address.
pub open spec fn spec_host_key() -> Seq<u8> {
    encode_utf8("host"@)
}

/// The key of the option that holds the port of an address.
pub open spec fn spec_port_key() -> Seq<u8> {
    encode_utf8("port"@)
}

impl RouterAddressView {
    /// The address can be written, and its options are in canonical order.
    pub open spec fn wf(self) -> bool {
        &&& self.transport_style.len() <= 255
        &&& valid_utf8(self.transport_style)
        &&& spec_sorted(self.options)
        &&& spec_mapping_fits(self.options)
    }

    /// The endpoint that the options `host` and `port` name, where both
    /// are there and can be read.
    pub open spec fn addr(self) -> Option<SocketAddr> {
        match (
            spec_lookup(self.options, spec_host_key()),
            spec_lookup(self.options, spec_port_key()),
        ) {
            (Some(host), Some(port)) => match (
                spec_parse_ip(decode_utf8(host)),
                spec_parse_port(decode_utf8(port)),
            ) {
                (Some(ip), Some(port)) => Some(SocketAddr { ip, port }),
                _ => None,
            },
            _ => None,
        }
    }
}

impl View for RouterAddress {
    type V = RouterAddressView;

    closed spec fn view(&self) -> RouterAddressView {
        RouterAddressView {
            cost: self.cost,
            expiration: self.expiration.0,
            transport_style: self.transport_style@,
            options: self.options@,
        }
    }
}

/// The address that announces the endpoint `addr` for a transport.
pub open spec fn spec_new_address(transport_style: Seq<u8>, addr: SocketAddr) -> RouterAddressView {
    RouterAddressView {
        cost: 0,
        expiration: 0,
        transport_style,
        options: spec_insert(
            spec_insert(Seq::empty(), spec_host_key(), encode_utf8(spec_ip_text(addr.ip))),
            spec_port_key(),
            encode_utf8(spec_decimal(addr.port as nat)),
        ),
    }
}

/// An address that was made for an endpoint names that endpoint.
pub proof fn lemma_new_address_names_endpoint(transport_style: Seq<u8>, addr: SocketAddr)
    ensures
        spec_new_address(transport_style, addr).addr() == Some(addr),
{
    let host = encode_utf8(spec_ip_text(addr.ip));
    let port = encode_utf8(spec_decimal(addr.port as nat));
    let first = spec_insert(Seq::empty(), spec_host_key(), host);
    assert(spec_host_key() != spec_port_key()) by {
        reveal_strlit("host");
        reveal_strlit("port");
        vstd::utf8::encode_utf8_decode_utf8("host"@);
        vstd::utf8::encode_utf8_decode_utf8("port"@);
        assert("host"@[0] != "port"@[0]);
    }
    crate::data::mapping::lemma_lookup_insert(Seq::empty(), spec_host_key(), host, spec_port_key());
    crate::data::mapping::lemma_lookup_insert(first, spec_port_key(), port, spec_host_key());
    vstd::utf8::encode_utf8_decode_utf8(spec_ip_text(addr.ip));
    vstd::utf8::encode_utf8_decode_utf8(spec_decimal(addr.port as nat));
    crate::net::lemma_parse_ip_text(addr.ip);
    crate::net::lemma_parse_port_decimal(addr.port);
}

impl RouterAddress {
    /// An address for the given transport at the given endpoint.
    pub fn new(transport_style: &I2PString, addr: SocketAddr) -> (r: RouterAddress)
        ensures
            r@ == spec_new_address(transport_style@, addr),
    {
        let mut options = Mapping::new();
        options.insert(I2PString::new("host"), I2PString(ip_text(&addr.ip)));
        options.insert(I2PString::new("port"), I2PString(decimal(addr.port)));
        RouterAddress {
            cost: 0,
            expiration: I2PDate(0),
            transport_style: transport_style.duplicate(),
            options,
        }
    }

    /// An address made of the given parts.
    pub fn from_parts(
        cost: u8,
        expiration: I2PDate,
        transport_style: I2PString,
        options: Mapping,
    ) -> (r: RouterAddress)
        ensures
            r@ == (RouterAddressView {
                cost,
                expiration: expiration.0,
                transport_style: transport_style@,
                options: options@,
            }),
    {
        RouterAddress { cost, expiration, transport_style, options }
    }

    pub fn cost(&self) -> (c: u8)
        ensures
            c == self@.cost,
    {
        self.cost
    }

    pub fn expiration(&self) -> (d: I2PDate)
        ensures
            d.0 == self@.expiration,
    {
        self.expiration
    }

    pub fn transport_style(&self) -> (s: &I2PString)
        ensures
            s@ == self@.transport_style,
    {
        &self.transport_style
    }

    pub fn options(&self) -> (m: &Mapping)
        ensures
            m@ == self@.options,
    {
        &self.options
    }

    /// The value of the option `key`.
    pub fn option(&self, key: &I2PString) -> (r: Option<&I2PString>)
        ensures
            match r {
                Some(value) => spec_lookup(self@.options, key@) == Some(value@),
                None => spec_lookup(self@.options, key@) is None,
            },
    {
        self.options.get(key)
    }

    /// Sets the option `key` to `value`.
    pub fn set_option(&mut self, key: I2PString, value: I2PString)
        ensures
            final(self)@ == (RouterAddressView {
                options: spec_insert(old(self)@.options, key@, value@),
                ..old(self)@
            }),
    {
        self.options.insert(key, value);
    }

    /// The endpoint that the address names.
    pub fn addr(&self) -> (r: Option<SocketAddr>)
        ensures
            r == self@.addr(),
    {
        let host = self.options.get(&I2PString::new("host"));
        let port = self.options.get(&I2PString::new("port"));
        match (host, port) {
            (Some(host), Some(port)) => {
                proof {
                    vstd::utf8::encode_utf8_decode_utf8(host.0@);
                    vstd::utf8::encode_utf8_decode_utf8(port.0@);
                }
                match (parse_ip(host.0.as_str()), parse_port(port.0.as_str())) {
                    (Some(ip), Some(port)) => Some(SocketAddr { ip, port }),
                    _ => None,
                }
            },
            _ => None,
        }
    }

    /// Whether the address can be written and its options are in
    /// canonical order.
    pub fn is_wf(&self) -> (r: bool)
        ensures
            r == self@.wf(),
    {
        proof {
            vstd::utf8::encode_utf8_valid_utf8(self.transport_style.0@);
        }
        self.transport_style.0.as_str().as_bytes().len() <= 255 && self.options.is_wf()
            && crate::data::frame::mapping_fits(&self.options)
    }

    /// A copy of the address.
    pub fn duplicate(&self) -> (r: RouterAddress)
        ensures
            r@ == self@,
    {
        let mut pairs: Vec<(I2PString, I2PString)> = Vec::new();
        let mut i: usize = 0;
        while i < self.options.0.len()
            invariant
                i <= self.options.0@.len(),
                pairs@.len() == i,
                forall|k: int|
                    0 <= k < i ==> (#[trigger] pairs@[k]).0@ == self.options.0@[k].0@
                        && pairs@[k].1@ == self.options.0@[k].1@,
            decreases self.options.0@.len() - i,
        {
            pairs.push((self.options.0[i].0.duplicate(), self.options.0[i].1.duplicate()));
            i += 1;
        }
        let options = Mapping(pairs);
        assert(options@ =~= self.options@);
        RouterAddress {
            cost: self.cost,
            expiration: self.expiration,
            transport_style: self.transport_style.duplicate(),
            options,
        }
    }
}

//
// Router secret keys
//
/// Key material for a RouterIdentity.
#[derive(Clone)]
pub struct RouterSecretKeys {
    pub rid: RouterIdentity,
    private_key: PrivateKey,
    pub signing_private_key: SigningPrivateKey,
}

pub ghost struct RouterSecretKeysView {
    pub rid: RouterIdentityView,
    pub private_key: Seq<u8>,
    pub signing_private_key: TypedBytes,
}

impl RouterSecretKeysView {
    /// The identity is well-formed and the signing key is of its algorithm.
    pub open spec fn wf(self) -> bool {
        &&& self.rid.wf()
        &&& self.private_key.len() == 256
        &&& self.signing_private_key.is_private_key()
        &&& self.signing_private_key.sig_type == self.rid.signing_key.sig_type
    }
}

impl View for RouterSecretKeys {
    type V = RouterSecretKeysView;

    closed spec fn view(&self) -> RouterSecretKeysView {
        RouterSecretKeysView {
            rid: self.rid@,
            private_key: self.private_key@,
            signing_private_key: self.signing_private_key@,
        }
    }
}

impl RouterSecretKeys {
    /// Fresh keys and the identity that belongs to them. Fails where the
    /// operating system gives no random bytes.
    pub fn new() -> (r: Result<RouterSecretKeys, Error>)
        ensures
            r matches Ok(keys) ==> {
                &&& keys@.wf()
                &&& keys@.signing_private_key.sig_type == SigType::Ed25519
                &&& crate::crypto::spec_public_from_secret(keys@.signing_private_key) == Ok::<
                    TypedBytes,
                    Error,
                >(keys@.rid.signing_key)
                &&& crate::crypto::elgamal::spec_be_value(keys@.rid.public_key)
                    == crate::crypto::elgamal::spec_elgamal_public(
                    keys@.private_key,
                    crate::crypto::elgamal::ELGAMAL_P@,
                )
            },
            r matches Err(e) ==> e == Error::RandomnessUnavailable,
    {
        let private_key = match PrivateKey::generate() {
            Some(k) => k,
            None => {
                return Err(Error::RandomnessUnavailable);
            },
        };
        let signing_private_key = match SigningPrivateKey::generate() {
            Some(k) => k,
            None => {
                return Err(Error::RandomnessUnavailable);
            },
        };
        match RouterIdentity::from_secrets(&private_key, &signing_private_key) {
            Ok(rid) => Ok(RouterSecretKeys { rid, private_key, signing_private_key }),
            Err(e) => Err(e),
        }
    }

    /// Keys made of the given parts.
    pub fn from_parts(
        rid: RouterIdentity,
        private_key: PrivateKey,
        signing_private_key: SigningPrivateKey,
    ) -> (r: RouterSecretKeys)
        ensures
            r@ == (RouterSecretKeysView {
                rid: rid@,
                private_key: private_key@,
                signing_private_key: signing_private_key@,
            }),
    {
        RouterSecretKeys { rid, private_key, signing_private_key }
    }

    pub fn rid(&self) -> (rid: &RouterIdentity)
        ensures
            rid@ == self@.rid,
    {
        &self.rid
    }

    pub fn private_key(&self) -> (k: &PrivateKey)
        ensures
            k@ == self@.private_key,
    {
        &self.private_key
    }

    pub fn signing_private_key(&self) -> (k: &SigningPrivateKey)
        ensures
            k@ == self@.signing_private_key,
    {
        &self.signing_private_key
    }

    /// Whether the identity is well-formed and the signing key is of its
    /// algorithm.
    pub fn is_wf(&self) -> (r: bool)
        ensures
            r == self@.wf(),
    {
        self.rid.is_wf() && self.signing_private_key.as_bytes().len()
            == self.signing_private_key.sig_type().privkey_len()
            && self.signing_private_key.sig_type() == self.rid.signing_key.sig_type()
    }

    /// The wire form of the keys: the identity, then the two private keys.
    pub fn to_bytes(&self) -> (bytes: Vec<u8>)
        requires
            self@.wf(),
        ensures
            bytes@ == spec_gen_router_secret_keys(self@),
    {
        let mut buf: Vec<u8> = Vec::with_capacity(387);
        gen_router_secret_keys(&mut buf, self);
        assert(buf@ =~= spec_gen_router_secret_keys(self@));
        buf
    }
}

//
// Destinations and lease sets
//
/// A Destination defines a particular endpoint to which messages can be
/// directed for secure delivery.
pub struct Destination {
    pub public_key: PublicKey,
    pub padding: Option<Vec<u8>>,
    pub signing_key: SigningPublicKey,
    pub certificate: Certificate,
}

/// Defines the authorization for a particular tunnel to receive messages
/// targeting a Destination.
pub struct Lease {
    pub tunnel_gw: Hash,
    pub tid: TunnelId,
    pub end_date: I2PDate,
}

/// Contains all of the currently authorized Leases for a particular Destination,
/// the PublicKey to which garlic messages can be encrypted, and then the
/// SigningPublicKey that can be used to revoke this particular version of the
/// structure.
///
/// The LeaseSet is one of the two structures stored in the network database
/// (the other being RouterInfo), and is keyed under the SHA-256 of the contained
/// Destination.
pub struct LeaseSet {
    pub dest: Destination,
    pub enc_key: PublicKey,
    pub sig_key: SigningPublicKey,
    pub leases: Vec<Lease>,
    pub sig: Signature,
}

//
// Router infos
//
/// Defines all of the data that a router wants to publish for the network to
/// see.
///
/// The RouterInfo is one of two structures stored in the network database (the
/// other being LeaseSet), and is keyed under the SHA-256 of the contained
/// RouterIdentity.
#[derive(Clone, Debug, PartialEq)]
pub struct RouterInfo {
    pub router_id: RouterIdentity,
    published: I2PDate,
    addresses: Vec<RouterAddress>,
    peers: Vec<Hash>,
    options: Mapping,
    signature: Option<Signature>,
}

pub ghost struct RouterInfoView {
    pub router_id: RouterIdentityView,
    pub published: u64,
    pub addresses: Seq<RouterAddressView>,
    pub peers: Seq<Seq<u8>>,
    pub options: Seq<Pair>,
    pub signature: Option<TypedBytes>,
}

/// The addresses as the contracts see them.
pub open spec fn spec_address_views(v: Seq<RouterAddress>) -> Seq<RouterAddressView> {
    v.map_values(|a: RouterAddress| a@)
}

/// The hashes as the contracts see them.
pub open spec fn spec_hash_views(v: Seq<Hash>) -> Seq<Seq<u8>> {
    v.map_values(|h: Hash| h@)
}

impl RouterInfoView {
    /// All but the signature can be written.
    pub open spec fn wf_unsigned(self) -> bool {
        &&& self.router_id.wf()
        &&& self.addresses.len() <= 255
        &&& forall|i: int| 0 <= i < self.addresses.len() ==> (#[trigger] self.addresses[i]).wf()
        &&& self.peers.len() <= 255
        &&& forall|i: int| 0 <= i < self.peers.len() ==> (#[trigger] self.peers[i]).len() == 32
        &&& spec_sorted(self.options)
        &&& spec_mapping_fits(self.options)
    }

    /// The info can be written, and a signature that it carries is of the
    /// algorithm of the signing key of its identity.
    pub open spec fn wf(self) -> bool {
        &&& self.wf_unsigned()
        &&& match self.signature {
            Some(sig) => sig.sig_type == self.router_id.signing_key.sig_type && sig.is_signature(),
            None => true,
        }
    }

    /// The verdict on the signature of the info: it has to be there, and
    /// to be a signature of the wire form of all that precedes it under
    /// the signing key of the identity.
    pub open spec fn verify(self) -> Result<(), Error> {
        match self.signature {
            None => Err(Error::NoSignature),
            Some(sig) => spec_verify(
                self.router_id.signing_key,
                spec_gen_router_info_minus_sig(self),
                sig,
            ),
        }
    }

    /// The info with another date of publication, and unsigned.
    pub open spec fn set_published(self, published: u64) -> RouterInfoView {
        RouterInfoView { published, signature: None, ..self }
    }

    /// The info with other addresses, and unsigned.
    pub open spec fn set_addresses(self, addresses: Seq<RouterAddressView>) -> RouterInfoView {
        RouterInfoView { addresses, signature: None, ..self }
    }

    /// The info with other peers, and unsigned.
    pub open spec fn set_peers(self, peers: Seq<Seq<u8>>) -> RouterInfoView {
        RouterInfoView { peers, signature: None, ..self }
    }

    /// The info with other options, and unsigned.
    pub open spec fn set_options(self, options: Seq<Pair>) -> RouterInfoView {
        RouterInfoView { options, signature: None, ..self }
    }
}

/// Whatever is changed in a router info, be it the date of publication, the
/// addresses, the peers or the options, the signature goes with the old
/// value, and verification then reports that there is none.
pub proof fn lemma_change_invalidates_signature(
    v: RouterInfoView,
    published: u64,
    addresses: Seq<RouterAddressView>,
    peers: Seq<Seq<u8>>,
    options: Seq<Pair>,
)
    ensures
        v.set_published(published).verify() == Err::<(), Error>(Error::NoSignature),
        v.set_addresses(addresses).verify() == Err::<(), Error>(Error::NoSignature),
        v.set_peers(peers).verify() == Err::<(), Error>(Error::NoSignature),
        v.set_options(options).verify() == Err::<(), Error>(Error::NoSignature),
{
}

/// A signature is no part of what is signed: an info that was signed has
/// the bytes under its signature that it had before. So what verification
/// says of a freshly signed info is what is said of the signature just
/// made, over the very bytes that were signed, under the signing key of
/// the identity.
pub proof fn lemma_sign_then_verify(v: RouterInfoView, secret: TypedBytes, sig: TypedBytes)
    requires
        spec_sign(secret, spec_gen_router_info_minus_sig(v)) == Ok::<TypedBytes, Error>(sig),
    ensures
        spec_gen_router_info_minus_sig(RouterInfoView { signature: Some(sig), ..v })
            == spec_gen_router_info_minus_sig(v),
        (RouterInfoView { signature: Some(sig), ..v }).verify() == spec_verify(
            v.router_id.signing_key,
            spec_gen_router_info_minus_sig(v),
            sig,
        ),
{
}

impl View for RouterInfo {
    type V = RouterInfoView;

    closed spec fn view(&self) -> RouterInfoView {
        RouterInfoView {
            router_id: self.router_id@,
            published: self.published.0,
            addresses: spec_address_views(self.addresses@),
            peers: spec_hash_views(self.peers@),
            options: self.options@,
            signature: match self.signature {
                Some(sig) => Some(sig@),
                None => None,
            },
        }
    }
}

impl RouterInfo {
    /// The addresses themselves.
    pub closed spec fn spec_addresses(&self) -> Seq<RouterAddress> {
        self.addresses@
    }

    /// The address at `i` is a candidate for `style`: it is of that
    /// transport and names an IPv4 endpoint.
    pub open spec fn spec_candidate(&self, style: Seq<u8>, i: int) -> bool {
        let a = self.spec_addresses()[i]@;
        &&& a.transport_style == style
        &&& a.addr() is Some
        &&& a.addr()->Some_0.ip is V4
    }

    /// An unsigned info for `rid`, published now, without addresses, peers
    /// or options.
    pub fn new(rid: RouterIdentity) -> (r: RouterInfo)
        ensures
            r@.router_id == rid@,
            r@.addresses.len() == 0,
            r@.peers.len() == 0,
            r@.options.len() == 0,
            r@.signature is None,
            r.spec_addresses().len() == 0,
            rid@.wf() ==> r@.wf(),
    {
        RouterInfo::new_at(rid, I2PDate::from_system_time(system_time_now()))
    }

    /// An unsigned info for `rid`, published at the given date, without
    /// addresses, peers or options.
    pub fn new_at(rid: RouterIdentity, published: I2PDate) -> (r: RouterInfo)
        ensures
            r@ == (RouterInfoView {
                router_id: rid@,
                published: published.0,
                addresses: Seq::empty(),
                peers: Seq::empty(),
                options: Seq::empty(),
                signature: None,
            }),
            r.spec_addresses().len() == 0,
            rid@.wf() ==> r@.wf(),
    {
        let r = RouterInfo {
            router_id: rid,
            published,
            addresses: Vec::new(),
            peers: Vec::new(),
            options: Mapping::new(),
            signature: None,
        };
        proof {
            assert(r@.addresses =~= Seq::empty());
            assert(r@.peers =~= Seq::empty());
            assert(crate::data::frame::spec_gen_pairs(r@.options).len() == 0);
        }
        r
    }

    /// An info made of the given parts.
    pub fn from_parts(
        router_id: RouterIdentity,
        published: I2PDate,
        addresses: Vec<RouterAddress>,
        peers: Vec<Hash>,
        options: Mapping,
        signature: Option<Signature>,
    ) -> (r: RouterInfo)
        ensures
            r@ == (RouterInfoView {
                router_id: router_id@,
                published: published.0,
                addresses: spec_address_views(addresses@),
                peers: spec_hash_views(peers@),
                options: options@,
                signature: match signature {
                    Some(sig) => Some(sig@),
                    None => None,
                },
            }),
            r.spec_addresses() == addresses@,
    {
        RouterInfo { router_id, published, addresses, peers, options, signature }
    }

    pub fn router_id(&self) -> (rid: &RouterIdentity)
        ensures
            rid@ == self@.router_id,
    {
        &self.router_id
    }

    pub fn published(&self) -> (d: I2PDate)
        ensures
            d.0 == self@.published,
    {
        self.published
    }

    pub fn addresses(&self) -> (a: &Vec<RouterAddress>)
        ensures
            a@ == self.spec_addresses(),
            spec_address_views(a@) == self@.addresses,
    {
        &self.addresses
    }

    pub fn peers(&self) -> (p: &Vec<Hash>)
        ensures
            spec_hash_views(p@) == self@.peers,
    {
        &self.peers
    }

    pub fn options(&self) -> (m: &Mapping)
        ensures
            m@ == self@.options,
    {
        &self.options
    }

    pub fn signature(&self) -> (s: &Option<Signature>)
        ensures
            match *s {
                Some(sig) => self@.signature == Some(sig@),
                None => self@.signature is None,
            },
    {
        &self.signature
    }

    /// Set the date of publication of this RouterInfo.
    ///
    /// Caller must re-sign the RouterInfo afterwards.
    pub fn set_published(&mut self, published: I2PDate)
        ensures
            final(self)@ == old(self)@.set_published(published.0),
    {
        self.published = published;
        self.signature = None;
    }

    /// Set the addresses in this RouterInfo.
    ///
    /// Caller must re-sign the RouterInfo afterwards.
    pub fn set_addresses(&mut self, addrs: Vec<RouterAddress>)
        ensures
            final(self)@ == old(self)@.set_addresses(spec_address_views(addrs@)),
            final(self).spec_addresses() == addrs@,
    {
        self.addresses = addrs;
        self.signature = None;
    }

    /// Set the peers in this RouterInfo.
    ///
    /// Caller must re-sign the RouterInfo afterwards.
    pub fn set_peers(&mut self, peers: Vec<Hash>)
        ensures
            final(self)@ == old(self)@.set_peers(spec_hash_views(peers@)),
    {
        self.peers = peers;
        self.signature = None;
    }

    /// Set the options in this RouterInfo.
    ///
    /// Caller must re-sign the RouterInfo afterwards.
    pub fn set_options(&mut self, options: Mapping)
        ensures
            final(self)@ == old(self)@.set_options(options@),
    {
        self.options = options;
        self.signature = None;
    }

    /// The first address, in the order of the info, that is a candidate
    /// for `style` and that `filter` accepts.
    #[verifier::rlimit(40)]
    pub fn address<F>(&self, style: &I2PString, filter: F) -> (r: Option<RouterAddress>) where
        F: Fn(&RouterAddress) -> bool,

        requires
            forall|a: &RouterAddress| #[trigger] filter.requires((a,)),
        ensures
            match r {
                Some(ra) => exists|i: int|
                    0 <= i < self.spec_addresses().len() && ra@ == (
                    #[trigger] self.spec_addresses()[i])@ && self.spec_candidate(style@, i)
                        && filter.ensures((&self.spec_addresses()[i],), true) && forall|j: int|
                        0 <= j < i && self.spec_candidate(style@, j) ==> filter.ensures(
                            (&#[trigger] self.spec_addresses()[j],),
                            false,
                        ),
                None => forall|j: int|
                    0 <= j < self.spec_addresses().len() && self.spec_candidate(style@, j)
                        ==> filter.ensures((&#[trigger] self.spec_addresses()[j],), false),
            },
    {
        let mut i: usize = 0;
        while i < self.addresses.len()
            invariant
                i <= self.addresses@.len(),
                forall|a: &RouterAddress| #[trigger] filter.requires((a,)),
                forall|j: int|
                    0 <= j < i && self.spec_candidate(style@, j) ==> filter.ensures(
                        (&#[trigger] self.spec_addresses()[j],),
                        false,
                    ),
            decreases self.addresses@.len() - i,
        {
            let a = &self.addresses[i];
            let same_style = crate::bytes::bytes_eq(
                a.transport_style.0.as_str().as_bytes(),
                style.0.as_str().as_bytes(),
            );
            if same_style {
                let is_v4 = match a.addr() {
                    Some(addr) => addr.is_ipv4(),
                    None => false,
                };
                if is_v4 {
                    if filter(a) {
                        return Some(a.duplicate());
                    }
                }
            }
            i += 1;
        }
        None
    }

    /// Whether all but the signature can be written.
    pub fn is_wf_unsigned(&self) -> (r: bool)
        ensures
            r == self@.wf_unsigned(),
    {
        if !self.router_id.is_wf() || self.addresses.len() > 255 || self.peers.len() > 255
            || !self.options.is_wf() || !crate::data::frame::mapping_fits(&self.options) {
            return false;
        }
        let mut i: usize = 0;
        while i < self.addresses.len()
            invariant
                i <= self.addresses@.len(),
                forall|k: int| 0 <= k < i ==> (#[trigger] self@.addresses[k]).wf(),
            decreases self.addresses@.len() - i,
        {
            assert(self@.addresses[i as int] == self.addresses@[i as int]@);
            if !self.addresses[i].is_wf() {
                return false;
            }
            i += 1;
        }
        assert forall|k: int| 0 <= k < self@.peers.len() implies (
        #[trigger] self@.peers[k]).len() == 32 by {
            assert(self@.peers[k] == self.peers@[k]@);
        }
        true
    }

    /// Whether the info can be written and its signature, if it has one,
    /// is of the algorithm of its signing key.
    pub fn is_wf(&self) -> (r: bool)
        ensures
            r == self@.wf(),
    {
        if !self.is_wf_unsigned() {
            return false;
        }
        match &self.signature {
            Some(sig) => sig.sig_type() == self.router_id.signing_key.sig_type()
                && sig.as_bytes().len() == sig.sig_type().sig_len(),
            None => true,
        }
    }

    /// The canonical wire form of the info with its signature.
    pub fn to_bytes(&self) -> (bytes: Vec<u8>)
        requires
            self@.wf(),
            self@.signature is Some,
        ensures
            bytes@ == spec_gen_router_info(self@),
    {
        let mut buf: Vec<u8> = Vec::with_capacity(435);
        gen_router_info(&mut buf, self);
        assert(buf@ =~= spec_gen_router_info(self@));
        buf
    }

    /// The bytes that the signature is made of: the wire form of all that
    /// precedes the signature.
    pub fn signature_bytes(&self) -> (bytes: Vec<u8>)
        requires
            self@.wf_unsigned(),
        ensures
            bytes@ == spec_gen_router_info_minus_sig(self@),
    {
        let mut buf: Vec<u8> = Vec::with_capacity(395);
        gen_router_info_minus_sig(&mut buf, self);
        assert(buf@ =~= spec_gen_router_info_minus_sig(self@));
        buf
    }

    /// Signs the info with `spk`. Where the key cannot sign, the info stays
    /// as it was.
    pub fn sign(&mut self, spk: &SigningPrivateKey) -> (r: Result<(), Error>)
        requires
            old(self)@.wf_unsigned(),
        ensures
            match r {
                Ok(()) => spec_sign(spk@, spec_gen_router_info_minus_sig(old(self)@)) matches Ok(
                    sig,
                ) && final(self)@ == (RouterInfoView { signature: Some(sig), ..old(self)@ }),
                Err(e) => spec_sign(spk@, spec_gen_router_info_minus_sig(old(self)@)) == Err::<
                    TypedBytes,
                    Error,
                >(e) && final(self)@ == old(self)@,
            },
            final(self).spec_addresses() == old(self).spec_addresses(),
            r is Ok ==> final(self)@.signature->Some_0.is_signature(),
            r is Ok ==> final(self)@.signature->Some_0.sig_type == spk@.sig_type,
            r is Ok && spk@.sig_type == old(self)@.router_id.signing_key.sig_type
                ==> final(self)@.wf(),
    {
        let sig_msg = self.signature_bytes();
        match spk.sign(sig_msg.as_slice()) {
            Ok(sig) => {
                self.signature = Some(sig);
                Ok(())
            },
            Err(e) => Err(e),
        }
    }

    /// Checks the signature of the info. An info without a signature is
    /// answered without a look at the rest of it.
    pub fn verify(&self) -> (r: Result<(), Error>)
        requires
            self@.signature is Some ==> self@.wf_unsigned(),
        ensures
            r == self@.verify(),
    {
        match &self.signature {
            Some(s) => {
                let sig_msg = self.signature_bytes();
                self.router_id.signing_key.verify(sig_msg.as_slice(), s)
            },
            None => Err(Error::NoSignature),
        }
    }
}

} // verus!

use ire::crypto::{
    EncType, Error, PublicKey, SigType, Signature, SigningPrivateKey, SigningPublicKey,
};
use ire::data::frame;
use ire::crypto::PrivateKey;
use ire::data::{Certificate, I2PDate, KeyCertificate, Mapping, RouterIdentity, RouterInfo};
use num_bigint::BigUint;
use signatory::signature::Signer;

fn identity_with(sig_type: SigType, signing_key: &[u8]) -> RouterIdentity {
    let pad_len = sig_type.pad_len(&EncType::ElGamal2048);
    let padding = if pad_len > 0 {
        Some(vec![0x5au8; pad_len])
    } else {
        None
    };
    let extra = sig_type.extra_data_len(&EncType::ElGamal2048);
    let sig_data = signing_key[signing_key.len() - extra..].to_vec();
    RouterIdentity::from_parts(
        PublicKey([3u8; 256]),
        padding,
        SigningPublicKey::from_bytes(sig_type, signing_key).unwrap(),
        Certificate::Key(KeyCertificate::new(
            sig_type,
            EncType::ElGamal2048,
            sig_data,
            vec![],
        )),
    )
}

fn signed(rid: RouterIdentity, sig_type: SigType, sign: impl Fn(&[u8]) -> Vec<u8>) -> RouterInfo {
    let unsigned = RouterInfo::new_at(rid.clone(), I2PDate(1_540_000_000_000));
    assert!(unsigned.is_wf());
    let sig = sign(&unsigned.signature_bytes());
    RouterInfo::from_parts(
        rid,
        I2PDate(1_540_000_000_000),
        vec![],
        vec![],
        Mapping::new(),
        Some(Signature::from_bytes(sig_type, &sig).unwrap()),
    )
}

fn parses_and_verifies(ri: &RouterInfo) {
    assert!(ri.is_wf());
    let bytes = ri.to_bytes();
    let (parsed, used) = frame::router_info(&bytes, 0).unwrap();
    assert_eq!(used, bytes.len());
    assert_eq!(&parsed, ri);
    assert!(parsed.verify().is_ok());
    assert_eq!(parsed.to_bytes(), bytes);
}

fn tampered_fails(ri: &RouterInfo) {
    let mut bytes = ri.to_bytes();
    let last = bytes.len() - 1;
    bytes[last] ^= 0x01;
    let (parsed, _) = frame::router_info(&bytes, 0).unwrap();
    assert_eq!(parsed.verify(), Err(Error::InvalidSignature));
}

#[test]
fn router_info_verify_sigtype_1() {
    let key = signatory::ecdsa::nistp256::SigningKey::from_bytes(&[0x11u8; 32]).unwrap();
    let point = key.verifying_key().to_encoded_point(false);
    let xy = &point.as_bytes()[1..];
    assert_eq!(xy.len(), 64);
    let rid = identity_with(SigType::EcdsaSha256P256, xy);
    assert_eq!(rid.to_bytes().len(), 391);
    let ri = signed(rid, SigType::EcdsaSha256P256, |msg| {
        let sig: signatory::ecdsa::nistp256::Signature = key.sign(msg);
        sig.to_bytes().to_vec()
    });
    parses_and_verifies(&ri);
    tampered_fails(&ri);
}

#[test]
fn router_info_verify_sigtype_2() {
    let key = signatory::ecdsa::nistp384::SigningKey::from_bytes(&[0x22u8; 48]).unwrap();
    let point = key.verifying_key().to_encoded_point(false);
    let xy = &point.as_bytes()[1..];
    assert_eq!(xy.len(), 96);
    let rid = identity_with(SigType::EcdsaSha384P384, xy);
    let ri = signed(rid, SigType::EcdsaSha384P384, |msg| {
        let sig: signatory::ecdsa::nistp384::Signature = key.sign(msg);
        sig.to_bytes().to_vec()
    });
    parses_and_verifies(&ri);
    tampered_fails(&ri);
}

#[test]
fn router_info_verify_sigtype_7() {
    let secret = SigningPrivateKey::from_bytes(SigType::Ed25519, &[0x33u8; 32]).unwrap();
    let public = SigningPublicKey::from_secret(&secret).unwrap();
    let rid = identity_with(SigType::Ed25519, public.as_bytes());
    let ri = signed(rid, SigType::Ed25519, |msg| {
        secret.sign(msg).unwrap().as_bytes().to_vec()
    });
    parses_and_verifies(&ri);
    tampered_fails(&ri);
}

#[test]
fn ed25519_known_answer() {
    // The first test vector of RFC 8032, section 7.1.
    let seed = [
        0x9d, 0x61, 0xb1, 0x9d, 0xef, 0xfd, 0x5a, 0x60, 0xba, 0x84, 0x4a, 0xf4, 0x92, 0xec, 0x2c,
        0xc4, 0x44, 0x49, 0xc5, 0x69, 0x7b, 0x32, 0x69, 0x19, 0x70, 0x3b, 0xac, 0x03, 0x1c, 0xae,
        0x7f, 0x60,
    ];
    let public = [
        0xd7, 0x5a, 0x98, 0x01, 0x82, 0xb1, 0x0a, 0xb7, 0xd5, 0x4b, 0xfe, 0xd3, 0xc9, 0x64, 0x07,
        0x3a, 0x0e, 0xe1, 0x72, 0xf3, 0xda, 0xa6, 0x23, 0x25, 0xaf, 0x02, 0x1a, 0x68, 0xf7, 0x07,
        0x51, 0x1a,
    ];
    let signature = [
        0xe5, 0x56, 0x43, 0x00, 0xc3, 0x60, 0xac, 0x72, 0x90, 0x86, 0xe2, 0xcc, 0x80, 0x6e, 0x82,
        0x8a, 0x84, 0x87, 0x7f, 0x1e, 0xb8, 0xe5, 0xd9, 0x74, 0xd8, 0x73, 0xe0, 0x65, 0x22, 0x49,
        0x01, 0x55, 0x5f, 0xb8, 0x82, 0x15, 0x90, 0xa3, 0x3b, 0xac, 0xc6, 0x1e, 0x39, 0x70, 0x1c,
        0xf9, 0xb4, 0x6b, 0xd2, 0x5b, 0xf5, 0xf0, 0x59, 0x5b, 0xbe, 0x24, 0x65, 0x51, 0x41, 0x43,
        0x8e, 0x7a, 0x10, 0x0b,
    ];
    let secret = SigningPrivateKey::from_bytes(SigType::Ed25519, &seed).unwrap();
    let key = SigningPublicKey::from_secret(&secret).unwrap();
    assert_eq!(key.as_bytes(), &public);
    let sig = secret.sign(b"").unwrap();
    assert_eq!(sig.as_bytes(), &signature[..]);
    assert_eq!(key.verify(b"", &sig), Ok(()));
    assert_eq!(key.verify(b"x", &sig), Err(Error::InvalidSignature));
}

#[test]
fn verify_reports_each_error() {
    let secret = SigningPrivateKey::from_bytes(SigType::Ed25519, &[1u8; 32]).unwrap();
    let key = SigningPublicKey::from_secret(&secret).unwrap();
    let sig = secret.sign(b"message").unwrap();
    let other = Signature::from_bytes(SigType::DsaSha1, &[0u8; 40]).unwrap();
    assert_eq!(key.verify(b"message", &other), Err(Error::TypeMismatch));
    let dsa = SigningPublicKey::from_bytes(SigType::DsaSha1, &[0u8; 128]).unwrap();
    assert_eq!(dsa.verify(b"message", &other), Err(Error::UnsupportedAlgorithm));
    assert_eq!(key.verify(b"message", &sig), Ok(()));
    assert_eq!(
        SigningPublicKey::from_bytes(SigType::Ed25519, &[0u8; 31]).err(),
        Some(Error::InvalidKey)
    );
    assert_eq!(
        Signature::from_bytes(SigType::Ed25519, &[0u8; 63]).err(),
        Some(Error::InvalidSignature)
    );
    let rsa = SigningPrivateKey::from_bytes(SigType::Rsa2048Sha256, &[0u8; 512]).unwrap();
    assert_eq!(rsa.sign(b"message").err(), Some(Error::UnsupportedAlgorithm));
    assert_eq!(
        SigningPublicKey::from_secret(&rsa).err(),
        Some(Error::UnsupportedAlgorithm)
    );
}

#[test]
fn unsigned_info_has_no_signature() {
    let rid = identity_with(SigType::Ed25519, &[9u8; 32]);
    let ri = RouterInfo::new_at(rid, I2PDate(1));
    assert_eq!(ri.verify(), Err(Error::NoSignature));
}

#[test]
fn elgamal_prime_is_prime_and_key_is_power_of_two() {
    let p = BigUint::from_bytes_be(&ire::crypto::elgamal::ELGAMAL_P);
    let two = BigUint::from(2u32);
    let one = BigUint::from(1u32);
    // Fermat's test for a few bases.
    for base in [2u32, 3, 5, 7] {
        assert_eq!(BigUint::from(base).modpow(&(&p - &one), &p), one);
    }
    let mut secret = [0u8; 256];
    secret[255] = 10;
    let public = PublicKey::from_secret(&ire::crypto::PrivateKey(secret));
    assert_eq!(BigUint::from_bytes_be(&public.0), BigUint::from(1024u32));
    secret[255] = 0;
    secret[254] = 1;
    let public = PublicKey::from_secret(&ire::crypto::PrivateKey(secret));
    assert_eq!(BigUint::from_bytes_be(&public.0), two.modpow(&BigUint::from(256u32), &p));
}

#[test]
fn dsa_public_key_is_the_generator_to_the_private_number() {
    let p = BigUint::from_bytes_be(&ire::crypto::dsa::DSA_P);
    let g = BigUint::from_bytes_be(&ire::crypto::dsa::DSA_G);
    let q = BigUint::parse_bytes(b"A5DFC28FEF4CA1E286744CD8EED9D29D684046B7", 16).unwrap();
    let one = BigUint::from(1u32);
    // The group: a prime of 1024 bits, and a generator of the subgroup whose
    // order is the prime of 160 bits.
    assert_eq!(p.bits(), 1024);
    assert_eq!(BigUint::from(2u32).modpow(&(&p - &one), &p), one);
    assert_eq!((&p - &one) % &q, BigUint::from(0u32));
    assert_eq!(g.modpow(&q, &p), one);
    assert_ne!(g, one);

    let mut x = [0u8; 20];
    x[19] = 1;
    let secret = SigningPrivateKey::from_bytes(SigType::DsaSha1, &x).unwrap();
    let public = SigningPublicKey::from_secret(&secret).unwrap();
    assert_eq!(public.sig_type(), SigType::DsaSha1);
    assert_eq!(public.as_bytes(), &ire::crypto::dsa::DSA_G[..]);

    let x = [0x5au8; 20];
    let secret = SigningPrivateKey::from_bytes(SigType::DsaSha1, &x).unwrap();
    let public = SigningPublicKey::from_secret(&secret).unwrap();
    assert_eq!(public.as_bytes().len(), 128);
    assert_eq!(
        BigUint::from_bytes_be(public.as_bytes()),
        g.modpow(&BigUint::from_bytes_be(&x), &p)
    );

    // The private number zero gives the key one, in all its 128 bytes.
    let secret = SigningPrivateKey::from_bytes(SigType::DsaSha1, &[0u8; 20]).unwrap();
    let public = SigningPublicKey::from_secret(&secret).unwrap();
    let mut want = [0u8; 128];
    want[127] = 1;
    assert_eq!(public.as_bytes(), &want[..]);
}

#[test]
fn identity_from_dsa_secrets_has_the_null_certificate() {
    let secret = SigningPrivateKey::from_bytes(SigType::DsaSha1, &[7u8; 20]).unwrap();
    let rid = RouterIdentity::from_secrets(&PrivateKey([1u8; 256]), &secret).unwrap();
    assert_eq!(rid.certificate, Certificate::Null);
    assert!(rid.padding().is_none());
    assert!(rid.is_wf());
    assert_eq!(rid.to_bytes().len(), 387);
    assert_eq!(
        rid.signing_key,
        SigningPublicKey::from_secret(&secret).unwrap()
    );
    // Signatures of this algorithm are not made.
    assert_eq!(secret.sign(b"message").err(), Some(Error::UnsupportedAlgorithm));
}

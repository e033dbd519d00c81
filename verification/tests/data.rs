use ire::crypto::{Error, PublicKey, SigType, SigningPublicKey};
use ire::data::frame;
use ire::data::frame::ParseError;
use ire::data::{
    Certificate, I2PDate, I2PString, Mapping, RouterAddress, RouterIdentity, RouterInfo,
    RouterSecretKeys,
};
use ire::net::{IpAddr, SocketAddr};

fn local(port: u16) -> SocketAddr {
    SocketAddr::new(IpAddr::V4([127, 0, 0, 1]), port)
}

#[test]
fn hash_xor() {
    let mut h = ire::data::Hash::from_bytes(&[0u8; 32]);
    let h0 = ire::data::Hash::from_bytes(&[0u8; 32]);
    let h1 = ire::data::Hash::from_bytes(&[1u8; 32]);
    let h2 = ire::data::Hash::from_bytes(&[2u8; 32]);
    let h3 = ire::data::Hash::from_bytes(&[3u8; 32]);
    assert_eq!(h, h0);
    h.xor(&h1);
    assert_eq!(h, h1);
    h.xor(&h2);
    assert_eq!(h, h3);
    h.xor(&h1);
    assert_eq!(h, h2);
    h.xor(&h2);
    assert_eq!(h, h0);
}

#[test]
fn i2pstring_to_csv() {
    let s1 = I2PString(String::from("a-b,c/d,1,2"));
    assert_eq!(
        s1.to_csv(),
        vec![
            I2PString(String::from("a-b")),
            I2PString(String::from("c/d")),
            I2PString(String::from("1")),
            I2PString(String::from("2")),
        ]
    );

    let s2 = I2PString(String::from("asdf"));
    assert_eq!(s2.to_csv(), vec![s2]);
}

#[test]
fn router_address_options() {
    let style = I2PString::new("test");
    let mut ra = RouterAddress::new(&style, local(0));

    let key = I2PString::new("key");
    let value = I2PString::new("value");
    assert!(ra.option(&key).is_none());

    ra.set_option(key.clone(), value.clone());
    assert_eq!(ra.option(&key).unwrap(), &value);
}

#[test]
fn router_info_address() {
    let rsk = RouterSecretKeys::new().unwrap();
    let mut ri = RouterInfo::new(rsk.rid);
    let style = I2PString::new("test");
    assert!(ri.address(&style, |_| true).is_none());

    ri.set_addresses(vec![
        RouterAddress::new(&I2PString::new("other"), local(12345)),
        RouterAddress::new(&style, local(23456)),
        RouterAddress::new(&style, local(34567)),
    ]);

    let ra = ri.address(&style, |_| true).unwrap();
    assert_eq!(ra.transport_style(), &style);
    assert_eq!(ra.addr().unwrap(), local(23456));

    let ra = ri
        .address(&style, |ra| ra.addr().unwrap().port() == 34567)
        .unwrap();
    assert_eq!(ra.transport_style(), &style);
    assert_eq!(ra.addr().unwrap(), local(34567));
}

#[test]
fn router_info_sign() {
    let rsk = RouterSecretKeys::new().unwrap();
    let mut ri = RouterInfo::new(rsk.rid);
    assert!(ri.signature().is_none());
    ri.sign(&rsk.signing_private_key).unwrap();
    assert!(ri.signature().is_some());
    assert!(ri.verify().is_ok());
}

#[test]
fn router_info_address_skips_what_is_no_ipv4_endpoint() {
    let rsk = RouterSecretKeys::new().unwrap();
    let mut ri = RouterInfo::new(rsk.rid);
    let style = I2PString::new("test");
    let mut unreadable = RouterAddress::new(&style, local(1));
    unreadable.set_option(I2PString::new("host"), I2PString::new("example.org"));
    let v6 = RouterAddress::new(
        &style,
        SocketAddr::new(IpAddr::V6([0, 0, 0, 0, 0, 0, 0, 1]), 2),
    );
    ri.set_addresses(vec![unreadable, v6, RouterAddress::new(&style, local(3))]);
    let ra = ri.address(&style, |_| true).unwrap();
    assert_eq!(ra.addr().unwrap(), local(3));
}

#[test]
fn router_info_address_absent_style() {
    let rsk = RouterSecretKeys::new().unwrap();
    let mut ri = RouterInfo::new(rsk.rid);
    ri.set_addresses(vec![RouterAddress::new(&I2PString::new("test"), local(1))]);
    assert!(ri.address(&I2PString::new("absent"), |_| true).is_none());
}

#[test]
fn router_info_roundtrip_is_byte_identical() {
    let rsk = RouterSecretKeys::new().unwrap();
    let mut ri = RouterInfo::new_at(rsk.rid.clone(), I2PDate(1_540_000_000_123));
    let mut ra = RouterAddress::new(&I2PString::new("NTCP2"), local(12345));
    ra.set_option(I2PString::new("v"), I2PString::new("2"));
    ri.set_addresses(vec![ra]);
    ri.set_peers(vec![ire::data::Hash([7u8; 32])]);
    let mut options = Mapping::new();
    options.insert(I2PString::new("router.version"), I2PString::new("0.9.37"));
    options.insert(I2PString::new("caps"), I2PString::new("L"));
    ri.set_options(options);
    ri.sign(&rsk.signing_private_key).unwrap();
    let bytes = ri.to_bytes();
    let (parsed, used) = frame::router_info(&bytes, 0).unwrap();
    assert_eq!(used, bytes.len());
    assert_eq!(parsed, ri);
    assert!(parsed.verify().is_ok());
    assert_eq!(parsed.to_bytes(), bytes);
}

#[test]
fn router_info_change_clears_signature() {
    let rsk = RouterSecretKeys::new().unwrap();
    let mut ri = RouterInfo::new(rsk.rid);
    ri.sign(&rsk.signing_private_key).unwrap();
    assert!(ri.verify().is_ok());
    ri.set_addresses(vec![]);
    assert_eq!(ri.verify(), Err(Error::NoSignature));
    ri.sign(&rsk.signing_private_key).unwrap();
    ri.set_published(I2PDate(5));
    assert_eq!(ri.verify(), Err(Error::NoSignature));
    ri.sign(&rsk.signing_private_key).unwrap();
    ri.set_peers(vec![]);
    assert_eq!(ri.verify(), Err(Error::NoSignature));
    ri.sign(&rsk.signing_private_key).unwrap();
    ri.set_options(Mapping::new());
    assert_eq!(ri.verify(), Err(Error::NoSignature));
}

#[test]
fn router_info_tampered_signature_is_invalid() {
    let rsk = RouterSecretKeys::new().unwrap();
    let mut ri = RouterInfo::new(rsk.rid);
    ri.sign(&rsk.signing_private_key).unwrap();
    let mut bytes = ri.to_bytes();
    // The date of publication follows the 391 bytes of the identity.
    bytes[391] ^= 0x01;
    let (parsed, _) = frame::router_info(&bytes, 0).unwrap();
    assert_eq!(parsed.verify(), Err(Error::InvalidSignature));
}

#[test]
fn router_identity_roundtrip_and_hash() {
    let rsk = RouterSecretKeys::new().unwrap();
    let bytes = rsk.rid.to_bytes();
    assert_eq!(bytes.len(), 391);
    let (parsed, used) = frame::router_identity(&bytes, 0).unwrap();
    assert_eq!(used, 391);
    assert_eq!(parsed, rsk.rid);
    assert_eq!(parsed.hash(), ire::data::Hash::digest(&bytes));
}

#[test]
fn router_identity_truncated_is_incomplete() {
    let rsk = RouterSecretKeys::new().unwrap();
    let bytes = rsk.rid.to_bytes();
    match frame::router_identity(&bytes[..bytes.len() - 1], 0) {
        Err(e) => assert_eq!(e, ParseError::Incomplete),
        Ok(_) => panic!("a truncated identity was read"),
    }
}

#[test]
fn router_identity_unknown_certificate_is_invalid() {
    let rsk = RouterSecretKeys::new().unwrap();
    let mut bytes = rsk.rid.to_bytes();
    bytes[384] = 6;
    match frame::router_identity(&bytes, 0) {
        Err(e) => assert_eq!(e, ParseError::Invalid),
        Ok(_) => panic!("an unknown certificate was read"),
    }
}

#[test]
fn router_secret_keys_roundtrip() {
    let rsk = RouterSecretKeys::new().unwrap();
    let bytes = rsk.to_bytes();
    assert_eq!(bytes.len(), 391 + 256 + 32);
    let (parsed, used) = frame::router_secret_keys(&bytes, 0).unwrap();
    assert_eq!(used, bytes.len());
    assert_eq!(parsed.to_bytes(), bytes);
}

#[test]
fn sha256_of_abc() {
    let h = ire::data::Hash::digest(b"abc");
    assert_eq!(
        h.0,
        [
            0xba, 0x78, 0x16, 0xbf, 0x8f, 0x01, 0xcf, 0xea, 0x41, 0x41, 0x40, 0xde, 0x5d, 0xae,
            0x22, 0x23, 0xb0, 0x03, 0x61, 0xa3, 0x96, 0x17, 0x7a, 0x9c, 0xb4, 0x10, 0xff, 0x61,
            0xf2, 0x00, 0x15, 0xad,
        ]
    );
}

#[test]
fn identity_from_keys_rejects_wrong_padding() {
    let rsk = RouterSecretKeys::new().unwrap();
    let r = RouterIdentity::from_keys(
        rsk.rid.public_key().clone(),
        rsk.rid.signing_key.clone(),
        vec![0u8; 3],
    );
    assert_eq!(r.err(), Some(Error::InvalidKey));
}

#[test]
fn xor_with_itself_is_zero() {
    let mut bytes = [0u8; 32];
    for i in 0..32 {
        bytes[i] = (i * 7 + 3) as u8;
    }
    let mut h = ire::data::Hash(bytes);
    let same = ire::data::Hash(bytes);
    h.xor(&same);
    assert_eq!(h, ire::data::Hash([0u8; 32]));
    let other = ire::data::Hash([0xa5u8; 32]);
    let mut twice = ire::data::Hash(bytes);
    twice.xor(&other);
    assert_ne!(twice, same);
    twice.xor(&other);
    assert_eq!(twice, same);
}

#[test]
fn identity_for_each_kind_of_signing_key() {
    let dsa = SigningPublicKey::from_bytes(SigType::DsaSha1, &[1u8; 128]).unwrap();
    let rid = RouterIdentity::from_keys(PublicKey([2u8; 256]), dsa, vec![]).unwrap();
    assert_eq!(rid.certificate, Certificate::Null);
    assert!(rid.padding().is_none());
    assert!(rid.is_wf());
    let bytes = rid.to_bytes();
    assert_eq!(bytes.len(), 387);
    assert_eq!(&bytes[..256], &[2u8; 256][..]);
    assert_eq!(&bytes[256..384], &[1u8; 128][..]);
    assert_eq!(&bytes[384..], &[0, 0, 0]);
    assert_eq!(frame::router_identity(&bytes, 0), Ok((rid, 387)));

    let ed = SigningPublicKey::from_bytes(SigType::Ed25519, &[4u8; 32]).unwrap();
    let rid = RouterIdentity::from_keys(PublicKey([2u8; 256]), ed, vec![9u8; 96]).unwrap();
    let bytes = rid.to_bytes();
    assert_eq!(&bytes[256..352], &[9u8; 96][..]);
    assert_eq!(&bytes[352..384], &[4u8; 32][..]);
    assert_eq!(&bytes[384..], &[5, 0, 4, 0, 7, 0, 0]);

    let ecdsa = SigningPublicKey::from_bytes(SigType::EcdsaSha256P256, &[4u8; 64]).unwrap();
    assert_eq!(
        RouterIdentity::from_keys(PublicKey([2u8; 256]), ecdsa, vec![9u8; 64]).err(),
        Some(Error::UnsupportedAlgorithm)
    );
}

#[test]
fn info_that_cannot_be_written() {
    let rsk = RouterSecretKeys::new().unwrap();
    let mut ri = RouterInfo::new(rsk.rid.clone());
    assert!(ri.is_wf());
    let many: Vec<RouterAddress> = (0..256)
        .map(|_| RouterAddress::new(&I2PString::new("t"), local(1)))
        .collect();
    ri.set_addresses(many);
    assert!(!ri.is_wf());
    ri.set_addresses(vec![]);
    assert!(ri.is_wf());
    let long = I2PString(String::from_utf8(vec![b'x'; 256]).unwrap());
    ri.set_addresses(vec![RouterAddress::new(&long, local(1))]);
    assert!(!ri.is_wf());
    ri.set_addresses(vec![]);
    ri.set_peers(vec![ire::data::Hash([0u8; 32]); 256]);
    assert!(!ri.is_wf());

    let mut broken = rsk.rid.clone();
    broken.certificate = Certificate::Null;
    assert!(!broken.is_wf());
}

#[test]
fn identity_with_key_in_the_certificate() {
    // A key of 132 bytes: 128 in the key block, 4 in the certificate.
    let mut wire = vec![7u8; 256];
    wire.extend_from_slice(&[8u8; 128]);
    wire.extend_from_slice(&[5, 0, 8, 0, 3, 0, 0, 1, 2, 3, 4]);
    let (rid, used) = frame::router_identity(&wire, 0).unwrap();
    assert_eq!(used, wire.len());
    assert!(rid.is_wf());
    assert_eq!(rid.signing_key.sig_type(), SigType::EcdsaSha512P521);
    let mut key = vec![8u8; 128];
    key.extend_from_slice(&[1, 2, 3, 4]);
    assert_eq!(rid.signing_key.as_bytes(), &key[..]);
    assert!(rid.padding().is_none());
    assert_eq!(rid.to_bytes(), wire);
}

#[test]
fn unsigned_info_is_answered_whatever_it_holds() {
    let rsk = RouterSecretKeys::new().unwrap();
    let mut ri = RouterInfo::new(rsk.rid);
    let many: Vec<RouterAddress> = (0..300)
        .map(|_| RouterAddress::new(&I2PString::new("t"), local(1)))
        .collect();
    ri.set_addresses(many);
    assert!(!ri.is_wf_unsigned());
    assert_eq!(ri.verify(), Err(Error::NoSignature));
}

use ire::constants::i2p_base64_encode;
use ire::data::{I2PDate, I2PString, RouterAddress, RouterInfo, RouterSecretKeys};
use ire::net::{IpAddr, SocketAddr};
use ire::transport::ntcp2::frame::{
    gen_session_created, gen_session_request, session_created, session_request, SessionCreated,
    SessionRequest,
};
use ire::transport::ntcp2::handshake::{
    address_keys, decode_key, ntcp2_usable, session_created_plaintext,
    session_request_plaintext, select_address, session_confirmed_payload, session_keys,
    session_request_outcome, timestamp, Action, Established, Event, HandshakeError, IBHandshake,
    IBHandshakeState, OBHandshake, OBHandshakeState, SessionKeys,
};
use ire::transport::ntcp2::NTCP2_NOISE_PROTOCOL_NAME;

struct Router {
    keys: RouterSecretKeys,
    info: RouterInfo,
    static_private: Vec<u8>,
    static_public: Vec<u8>,
    iv: [u8; 16],
}

fn endpoint() -> SocketAddr {
    SocketAddr::new(IpAddr::V4([127, 0, 0, 1]), 12345)
}

fn router(style: &str) -> Router {
    let keypair = i2p_snow::Builder::new(NTCP2_NOISE_PROTOCOL_NAME.parse().unwrap())
        .generate_keypair()
        .unwrap();
    let iv = [0x42u8; 16];
    let keys = RouterSecretKeys::new().unwrap();
    let mut info = RouterInfo::new(keys.rid.clone());
    let mut ra = RouterAddress::new(&I2PString::new(style), endpoint());
    ra.set_option(
        I2PString::new("s"),
        I2PString(i2p_base64_encode(&keypair.public).unwrap()),
    );
    ra.set_option(I2PString::new("i"), I2PString(i2p_base64_encode(&iv).unwrap()));
    ra.set_option(I2PString::new("v"), I2PString::new("1,2"));
    info.set_addresses(vec![ra]);
    info.sign(&keys.signing_private_key).unwrap();
    Router {
        keys,
        info,
        static_private: keypair.private,
        static_public: keypair.public,
        iv,
    }
}

fn responder_for(bob: &Router) -> IBHandshake {
    IBHandshake::new(&bob.static_private, &bob.info.router_id.hash().0, &bob.iv).unwrap()
}

fn written(a: Result<Action, HandshakeError>) -> Vec<u8> {
    match a {
        Ok(Action::Write(m)) => m,
        Ok(_) => panic!("expected bytes to write"),
        Err(e) => panic!("handshake failed: {:?}", e),
    }
}

fn wanted(a: Result<Action, HandshakeError>) -> usize {
    match a {
        Ok(Action::Read(n)) => n,
        Ok(_) => panic!("expected a number of bytes to read"),
        Err(e) => panic!("handshake failed: {:?}", e),
    }
}

fn done(a: Result<Action, HandshakeError>) -> Established {
    match a {
        Ok(Action::Done(est)) => est,
        Ok(_) => panic!("expected the session"),
        Err(e) => panic!("handshake failed: {:?}", e),
    }
}

fn failure(a: Result<Action, HandshakeError>) -> HandshakeError {
    match a {
        Ok(_) => panic!("expected the handshake to fail"),
        Err(e) => e,
    }
}

fn run(alice: &Router, bob: &Router) -> (Established, Established) {
    let (mut ob, addr) = OBHandshake::new(&alice.static_private, &alice.info, &bob.info).unwrap();
    assert_eq!(addr, endpoint());
    let mut ib = responder_for(bob);
    assert_eq!(wanted(Ok(ib.start())), 64);

    let m1 = written(ob.step(Event::Connected));
    assert!(m1.len() >= 64 && m1.len() < 80);
    assert_eq!(ob.state(), OBHandshakeState::SessionRequest);
    let padlen = wanted(ib.step(Event::Read(m1[..64].to_vec())));
    assert_eq!(padlen, m1.len() - 64);
    assert_eq!(ib.state(), IBHandshakeState::SessionRequestPadding);
    let m2 = written(ib.step(Event::Read(m1[64..].to_vec())));
    assert!(m2.len() >= 64 && m2.len() < 80);

    assert_eq!(wanted(ob.step(Event::Written)), 64);
    let padlen = wanted(ob.step(Event::Read(m2[..64].to_vec())));
    assert_eq!(padlen, m2.len() - 64);
    let n3 = wanted(ib.step(Event::Written));
    let m3 = written(ob.step(Event::Read(m2[64..].to_vec())));
    assert_eq!(m3.len(), n3);

    let at_bob = done(ib.step(Event::Read(m3)));
    let at_alice = done(ob.step(Event::Written));
    assert_eq!(ib.state(), IBHandshakeState::Done);
    assert_eq!(ob.state(), OBHandshakeState::Done);
    (at_alice, at_bob)
}

#[test]
fn handshake_composition() {
    let alice = router("NTCP2");
    let bob = router("NTCP2");
    let (mut at_alice, mut at_bob) = run(&alice, &bob);

    assert_eq!(at_alice.ask0, at_bob.ask0);
    assert_eq!(at_alice.ask1, at_bob.ask1);
    assert_eq!(at_alice.keys, session_keys(&at_alice.ask0, &at_alice.ask1, true));
    assert_eq!(at_bob.keys, session_keys(&at_bob.ask0, &at_bob.ask1, false));
    assert_eq!(at_alice.keys.ek0, at_bob.keys.dk0);
    assert_eq!(at_alice.keys.ek1, at_bob.keys.dk1);
    assert_eq!(at_alice.keys.eiv, at_bob.keys.div);
    assert_eq!(at_alice.keys.dk0, at_bob.keys.ek0);
    assert_eq!(at_alice.keys.dk1, at_bob.keys.ek1);
    assert_eq!(at_alice.keys.div, at_bob.keys.eiv);
    assert_ne!(at_alice.keys.ek0, at_alice.keys.dk0);
    assert_eq!(at_bob.peer, Some(alice.info.clone()));
    assert!(at_alice.peer.is_none());

    let mut frame = vec![0u8; 64];
    let n = at_alice.noise.write_message(b"hello bob", &mut frame).unwrap();
    let mut plain = vec![0u8; 64];
    let m = at_bob.noise.read_message(&frame[..n], &mut plain).unwrap();
    assert_eq!(&plain[..m], b"hello bob");

    let n = at_bob.noise.write_message(b"hello alice", &mut frame).unwrap();
    let m = at_alice.noise.read_message(&frame[..n], &mut plain).unwrap();
    assert_eq!(&plain[..m], b"hello alice");
}

#[test]
fn handshake_falls_back_to_ntcp_style() {
    let alice = router("NTCP2");
    let bob = router("NTCP");
    let (at_alice, at_bob) = run(&alice, &bob);
    assert_eq!(at_alice.keys.ek0, at_bob.keys.dk0);
}

fn first_message(bob: &Router, plaintext: &[u8]) -> Vec<u8> {
    let mut noise = i2p_snow::Builder::new(NTCP2_NOISE_PROTOCOL_NAME.parse().unwrap())
        .local_private_key(&[7u8; 32])
        .remote_public_key(&bob.static_public)
        .aesobfse(&bob.info.router_id.hash().0, &bob.iv)
        .enable_ask()
        .build_initiator()
        .unwrap();
    let mut out = vec![0u8; 64];
    let n = noise.write_message(plaintext, &mut out).unwrap();
    assert_eq!(n, 64);
    out
}

#[test]
fn handshake_rejects_version_mismatch() {
    let bob = router("NTCP2");
    let mut ib = responder_for(&bob);
    let plaintext = gen_session_request(&SessionRequest {
        version: 3,
        padlen: 0,
        sclen: 500,
        ts_a: 1,
    });
    let m1 = first_message(&bob, &plaintext);
    assert_eq!(failure(ib.step(Event::Read(m1))), HandshakeError::UnsupportedVersion);
    assert_eq!(ib.state(), IBHandshakeState::Done);
    assert_eq!(failure(ib.step(Event::Read(vec![]))), HandshakeError::UnexpectedEvent);
}

#[test]
fn handshake_truncated_session_request_is_incomplete() {
    let bob = router("NTCP2");
    let plaintext = gen_session_request(&SessionRequest {
        version: 2,
        padlen: 0,
        sclen: 500,
        ts_a: 1,
    });
    let m1 = first_message(&bob, &plaintext);

    let mut ib = responder_for(&bob);
    assert_eq!(
        failure(ib.step(Event::Read(m1[..63].to_vec()))),
        HandshakeError::IncompleteHandshake
    );
    assert_eq!(ib.state(), IBHandshakeState::Done);

    let mut ib = responder_for(&bob);
    assert_eq!(failure(ib.step(Event::Eof)), HandshakeError::IncompleteHandshake);
}

#[test]
fn handshake_rejects_oversized_session_confirmed() {
    let bob = router("NTCP2");
    let mut ib = responder_for(&bob);
    let plaintext = gen_session_request(&SessionRequest {
        version: 2,
        padlen: 0,
        sclen: 65520,
        ts_a: 1,
    });
    let m1 = first_message(&bob, &plaintext);
    assert_eq!(failure(ib.step(Event::Read(m1))), HandshakeError::MessageTooLarge);
    assert_eq!(ib.state(), IBHandshakeState::Done);
}

#[test]
fn handshake_rejects_tampered_session_request() {
    let bob = router("NTCP2");
    let mut ib = responder_for(&bob);
    let plaintext = gen_session_request(&SessionRequest {
        version: 2,
        padlen: 0,
        sclen: 500,
        ts_a: 1,
    });
    let mut m1 = first_message(&bob, &plaintext);
    m1[40] ^= 1;
    assert_eq!(failure(ib.step(Event::Read(m1))), HandshakeError::NoiseFailure);
}

#[test]
fn handshake_rejects_unexpected_events() {
    let bob = router("NTCP2");
    let mut ib = responder_for(&bob);
    assert_eq!(failure(ib.step(Event::Written)), HandshakeError::UnexpectedEvent);

    let alice = router("NTCP2");
    let (mut ob, _) = OBHandshake::new(&alice.static_private, &alice.info, &bob.info).unwrap();
    assert_eq!(ob.state(), OBHandshakeState::Connecting);
    assert_eq!(failure(ob.step(Event::Written)), HandshakeError::UnexpectedEvent);
    assert_eq!(ob.state(), OBHandshakeState::Done);
}

#[test]
fn outbound_needs_an_ntcp2_address() {
    let alice = router("NTCP2");
    let bob = router("SSU");
    match OBHandshake::new(&alice.static_private, &alice.info, &bob.info) {
        Err(e) => assert_eq!(e, HandshakeError::NoNtcp2Address),
        Ok(_) => panic!("an address of another transport was used"),
    }
    assert!(select_address(&bob.info).is_none());
}

#[test]
fn outbound_needs_version_two() {
    let alice = router("NTCP2");
    let mut bob = router("NTCP2");
    let mut ra = bob.info.addresses()[0].clone();
    assert!(ntcp2_usable(&ra));
    ra.set_option(I2PString::new("v"), I2PString::new("1,3,22"));
    assert!(!ntcp2_usable(&ra));
    bob.info.set_addresses(vec![ra]);
    bob.info.sign(&bob.keys.signing_private_key).unwrap();
    match OBHandshake::new(&alice.static_private, &alice.info, &bob.info) {
        Err(e) => assert_eq!(e, HandshakeError::NoNtcp2Address),
        Ok(_) => panic!("an address without the version was used"),
    }
}

#[test]
fn outbound_rejects_bad_static_key() {
    let alice = router("NTCP2");
    let mut bob = router("NTCP2");
    let mut ra = bob.info.addresses()[0].clone();
    ra.set_option(I2PString::new("s"), I2PString::new("not base64!"));
    bob.info.set_addresses(vec![ra]);
    match OBHandshake::new(&alice.static_private, &alice.info, &bob.info) {
        Err(e) => assert_eq!(e, HandshakeError::InvalidKey),
        Ok(_) => panic!("a malformed key was used"),
    }
}

#[test]
fn session_confirmed_payload_limits() {
    let alice = router("NTCP2");
    let len = alice.info.to_bytes().len();
    let payload = session_confirmed_payload(&alice.info, &[9u8; 5]).unwrap();
    assert_eq!(payload.len(), len + 5);
    assert_eq!(&payload[len..], &[9u8; 5]);
    let room = 65535 - 16 - len;
    assert!(session_confirmed_payload(&alice.info, &vec![0u8; room]).is_ok());
    assert_eq!(
        session_confirmed_payload(&alice.info, &vec![0u8; room + 1]).err(),
        Some(HandshakeError::MessageTooLarge)
    );
}

#[test]
fn session_request_frame() {
    let m = SessionRequest {
        version: 2,
        padlen: 7,
        sclen: 0x0102,
        ts_a: 0x0a0b0c0d,
    };
    let bytes = gen_session_request(&m);
    assert_eq!(
        bytes,
        vec![2, 7, 1, 2, 0x0a, 0x0b, 0x0c, 0x0d, 0, 0, 0, 0, 0, 0, 0, 0]
    );
    assert_eq!(session_request(&bytes).unwrap(), (m, 16));
    assert!(session_request(&bytes[..15]).is_err());
    assert_eq!(session_request_outcome(&bytes), Ok(m));
    assert_eq!(
        session_request_outcome(&bytes[..15]),
        Err(HandshakeError::ParseError)
    );
}

#[test]
fn session_created_frame() {
    let m = SessionCreated {
        padlen: 0x0102,
        ts_b: 0x0a0b0c0d,
    };
    let bytes = gen_session_created(&m);
    assert_eq!(
        bytes,
        vec![0, 0, 0, 0, 1, 2, 0x0a, 0x0b, 0x0c, 0x0d, 0, 0, 0, 0, 0, 0]
    );
    assert_eq!(session_created(&bytes).unwrap(), (m, 16));
}

#[test]
fn timestamp_rounds_to_nearest_second() {
    assert_eq!(timestamp(10, 499_999_999), 10);
    assert_eq!(timestamp(10, 500_000_000), 11);
    assert_eq!(timestamp(0xffff_ffff, 500_000_000), 0);
    assert_eq!(timestamp(0x1_0000_0005, 0), 5);
}

#[test]
fn session_keys_are_little_endian_and_mirrored() {
    let mut ask0 = [0u8; 32];
    let mut ask1 = [0u8; 32];
    for i in 0..32 {
        ask0[i] = i as u8;
        ask1[i] = 0x80 + i as u8;
    }
    let a = session_keys(&ask0, &ask1, true);
    let b = session_keys(&ask0, &ask1, false);
    assert_eq!(
        a,
        SessionKeys {
            ek0: 0x0706050403020100,
            ek1: 0x0f0e0d0c0b0a0908,
            eiv: 0x1716151413121110,
            dk0: 0x8786858483828180,
            dk1: 0x8f8e8d8c8b8a8988,
            div: 0x9796959493929190,
        }
    );
    assert_eq!((a.ek0, a.ek1, a.eiv), (b.dk0, b.dk1, b.div));
    assert_eq!((a.dk0, a.dk1, a.div), (b.ek0, b.ek1, b.eiv));
}

#[test]
fn new_info_is_published_now() {
    let keys = RouterSecretKeys::new().unwrap();
    let info = RouterInfo::new(keys.rid);
    // Later than 2018-01-01, in milliseconds.
    assert!(info.published().0 > 1_514_764_800_000);
    assert_ne!(info.published(), I2PDate(0));
}

#[test]
fn keys_of_an_address() {
    let bob = router("NTCP2");
    let ra = select_address(&bob.info).unwrap();
    let keys = address_keys(&ra).unwrap();
    assert_eq!(keys.addr, endpoint());
    assert_eq!(keys.static_key, bob.static_public);
    assert_eq!(keys.iv, bob.iv);

    let mut short_iv = ra.clone();
    short_iv.set_option(
        I2PString::new("i"),
        I2PString(i2p_base64_encode(&[1u8; 15]).unwrap()),
    );
    assert!(address_keys(&short_iv).is_none());

    let mut no_port = ra.clone();
    no_port.set_option(I2PString::new("port"), I2PString::new(""));
    assert!(address_keys(&no_port).is_none());

    assert_eq!(decode_key(&I2PString::new("AAEC"), 3), Some(vec![0, 1, 2]));
    assert_eq!(decode_key(&I2PString::new("AAEC"), 4), None);
    assert_eq!(decode_key(&I2PString::new("AAE"), 3), None);
}

#[test]
fn outbound_looks_for_the_address_first() {
    // Neither info is signed, and the other router has no address: what is
    // missed first is the address.
    let own = RouterInfo::new(RouterSecretKeys::new().unwrap().rid);
    let peer = RouterInfo::new(RouterSecretKeys::new().unwrap().rid);
    match OBHandshake::new(&[1u8; 32], &own, &peer) {
        Err(e) => assert_eq!(e, HandshakeError::NoNtcp2Address),
        Ok(_) => panic!("a router without addresses was dialed"),
    }
}

#[test]
fn outbound_needs_a_signed_own_info() {
    let alice = router("NTCP2");
    let bob = router("NTCP2");
    let unsigned = RouterInfo::new(alice.keys.rid.clone());
    match OBHandshake::new(&alice.static_private, &unsigned, &bob.info) {
        Err(e) => assert_eq!(e, HandshakeError::InvalidRouterInfo),
        Ok(_) => panic!("an unsigned router info was taken"),
    }
    // The keys of the address come before the own info.
    match OBHandshake::new(&[1u8; 33], &unsigned, &bob.info) {
        Err(e) => assert_eq!(e, HandshakeError::InvalidKey),
        Ok(_) => panic!("a static key of 33 bytes was taken"),
    }
}

#[test]
fn outbound_rejects_an_own_info_beyond_the_limit() {
    let mut alice = router("NTCP2");
    let bob = router("NTCP2");
    // 255 addresses with long options make a router info of more than
    // 65519 bytes.
    let mut ra = RouterAddress::new(&I2PString::new("NTCP2"), endpoint());
    ra.set_option(
        I2PString::new("filler"),
        I2PString(String::from_utf8(vec![b'x'; 250]).unwrap()),
    );
    alice.info.set_addresses(vec![ra; 255]);
    alice.info.sign(&alice.keys.signing_private_key).unwrap();
    assert!(alice.info.is_wf());
    assert!(alice.info.to_bytes().len() > 65519);
    match OBHandshake::new(&alice.static_private, &alice.info, &bob.info) {
        Err(e) => assert_eq!(e, HandshakeError::MessageTooLarge),
        Ok(_) => panic!("a router info beyond the limit was taken"),
    }
}

#[test]
fn responder_rejects_long_keys() {
    match IBHandshake::new(&[1u8; 33], &[2u8; 32], &[0u8; 16]) {
        Err(e) => assert_eq!(e, HandshakeError::InvalidKey),
        Ok(_) => panic!("a static key of 33 bytes was taken"),
    }
    match IBHandshake::new(&[1u8; 32], &[2u8; 33], &[0u8; 16]) {
        Err(e) => assert_eq!(e, HandshakeError::InvalidKey),
        Ok(_) => panic!("an AES key of 33 bytes was taken"),
    }
    assert!(IBHandshake::new(&[1u8; 32], &[2u8; 32], &[0u8; 16]).is_ok());
}

#[test]
fn plaintexts_of_the_first_two_messages() {
    assert_eq!(
        session_request_plaintext(7, 0x0102, 0x0a0b0c0c, 500_000_000),
        vec![2, 7, 1, 2, 0x0a, 0x0b, 0x0c, 0x0d, 0, 0, 0, 0, 0, 0, 0, 0]
    );
    assert_eq!(
        session_created_plaintext(0x0102, 0x0a0b0c0d, 499_999_999),
        vec![0, 0, 0, 0, 1, 2, 0x0a, 0x0b, 0x0c, 0x0d, 0, 0, 0, 0, 0, 0]
    );
}

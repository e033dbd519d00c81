use ire::crypto::{EncType, SigType};
use ire::data::frame;
use ire::data::frame::ParseError;
use ire::data::{Certificate, I2PDate, I2PString, KeyCertificate, Mapping, RouterAddress};
use ire::net::{decimal, hex, ip_text, parse_ip, parse_port, IpAddr, SocketAddr};

#[test]
fn big_endian_numbers() {
    let mut buf = vec![];
    frame::gen_be_u16(&mut buf, 0x0102);
    frame::gen_be_u32(&mut buf, 0x03040506);
    frame::gen_be_u64(&mut buf, 0x0708090a0b0c0d0e);
    assert_eq!(buf, vec![1, 2, 3, 4, 5, 6, 7, 8, 9, 10, 11, 12, 13, 14]);
    assert_eq!(frame::be_u16(&buf, 0), Ok((0x0102, 2)));
    assert_eq!(frame::be_u32(&buf, 2), Ok((0x03040506, 6)));
    assert_eq!(frame::be_u64(&buf, 6), Ok((0x0708090a0b0c0d0e, 14)));
    assert_eq!(frame::be_u64(&buf, 7), Err(ParseError::Incomplete));
    assert_eq!(frame::be_u8(&buf, 14), Err(ParseError::Incomplete));
    assert_eq!(frame::take(&buf, 12, 2), Ok((vec![13, 14], 14)));
    assert_eq!(frame::take(&buf, 12, 3), Err(ParseError::Incomplete));
}

#[test]
fn string_frame() {
    let s = I2PString::new("héllo");
    let mut buf = vec![];
    frame::gen_i2p_string(&mut buf, &s);
    assert_eq!(buf, vec![6, b'h', 0xc3, 0xa9, b'l', b'l', b'o']);
    assert_eq!(frame::i2p_string(&buf, 0), Ok((s, 7)));
    assert_eq!(frame::i2p_string(&buf[..6], 0), Err(ParseError::Incomplete));
    assert_eq!(frame::i2p_string(&[], 0), Err(ParseError::Incomplete));
    assert_eq!(frame::i2p_string(&[2, 0xc3, 0x28], 0), Err(ParseError::Invalid));
    let long = I2PString(String::from_utf8(vec![b'x'; 255]).unwrap());
    let mut buf = vec![];
    frame::gen_i2p_string(&mut buf, &long);
    assert_eq!(buf.len(), 256);
    assert_eq!(frame::i2p_string(&buf, 0), Ok((long, 256)));
}

#[test]
fn mapping_is_written_in_key_order() {
    let mut m = Mapping::new();
    m.insert(I2PString::new("b"), I2PString::new("2"));
    m.insert(I2PString::new("a"), I2PString::new("1"));
    m.insert(I2PString::new("ab"), I2PString::new("3"));
    m.insert(I2PString::new("b"), I2PString::new("4"));
    assert_eq!(m.len(), 3);
    assert!(m.is_wf());
    assert_eq!(m.get(&I2PString::new("b")), Some(&I2PString::new("4")));
    assert_eq!(m.get(&I2PString::new("c")), None);
    let mut buf = vec![];
    assert!(frame::mapping_fits(&m));
    frame::gen_mapping(&mut buf, &m);
    assert_eq!(buf, b"\x00\x13\x01a=\x011;\x02ab=\x013;\x01b=\x014;".to_vec());
    assert_eq!(frame::mapping(&buf, 0), Ok((m, buf.len())));
}

#[test]
fn mapping_read_out_of_order_is_put_in_order() {
    let wire = b"\x00\x12\x01b=\x012;\x01a=\x011;\x01b=\x013;rest".to_vec();
    let (m, used) = frame::mapping(&wire, 0).unwrap();
    assert_eq!(used, 20);
    let mut want = Mapping::new();
    want.insert(I2PString::new("a"), I2PString::new("1"));
    want.insert(I2PString::new("b"), I2PString::new("3"));
    assert_eq!(m, want);
}

#[test]
fn mapping_errors() {
    assert_eq!(frame::mapping(&[0], 0), Err(ParseError::Incomplete));
    assert_eq!(frame::mapping(b"\x00\x06\x01a=\x011", 0), Err(ParseError::Incomplete));
    assert_eq!(frame::mapping(b"\x00\x05\x01a=\x011", 0), Err(ParseError::Invalid));
    assert_eq!(frame::mapping(b"\x00\x06\x01a:\x011;", 0), Err(ParseError::Invalid));
    assert_eq!(frame::mapping(b"\x00\x06\x01a=\x011,", 0), Err(ParseError::Invalid));
    assert_eq!(frame::mapping(b"\x00\x00", 0), Ok((Mapping::new(), 2)));
}

#[test]
fn mapping_that_does_not_fit() {
    let mut m = Mapping::new();
    m.insert(
        I2PString(String::from_utf8(vec![b'k'; 256]).unwrap()),
        I2PString::new("v"),
    );
    assert!(!frame::mapping_fits(&m));
    let unsorted = Mapping(vec![
        (I2PString::new("b"), I2PString::new("1")),
        (I2PString::new("a"), I2PString::new("2")),
    ]);
    assert!(!unsorted.is_wf());
    assert!(frame::mapping_fits(&unsorted));
}

fn roundtrip(c: Certificate, wire: &[u8]) {
    assert!(c.is_wf());
    let mut buf = vec![];
    frame::gen_certificate(&mut buf, &c);
    assert_eq!(buf, wire);
    assert_eq!(frame::certificate(&buf, 0), Ok((c.clone(), buf.len())));
    assert_eq!(Certificate::from(&buf), Some(c));
}

#[test]
fn certificate_frames() {
    roundtrip(Certificate::Null, &[0, 0, 0]);
    roundtrip(Certificate::HashCash(vec![1, 2]), &[1, 0, 2, 1, 2]);
    roundtrip(Certificate::Hidden, &[2, 0, 0]);
    roundtrip(Certificate::Signed(vec![7]), &[3, 0, 1, 7]);
    roundtrip(Certificate::Multiple(vec![]), &[4, 0, 0]);
    roundtrip(
        Certificate::Key(KeyCertificate::new(
            SigType::Ed25519,
            EncType::ElGamal2048,
            vec![],
            vec![],
        )),
        &[5, 0, 4, 0, 7, 0, 0],
    );
    roundtrip(
        Certificate::Key(KeyCertificate::new(
            SigType::EcdsaSha512P521,
            EncType::ElGamal2048,
            vec![1, 2, 3, 4],
            vec![],
        )),
        &[5, 0, 8, 0, 3, 0, 0, 1, 2, 3, 4],
    );
    assert_eq!(Certificate::Null.code(), 0);
    assert_eq!(Certificate::HashCash(vec![]).code(), 1);
    assert_eq!(Certificate::Hidden.code(), 2);
    assert_eq!(Certificate::Signed(vec![]).code(), 3);
    assert_eq!(Certificate::Multiple(vec![]).code(), 4);
}

#[test]
fn certificate_errors() {
    assert_eq!(frame::certificate(&[6, 0, 0], 0), Err(ParseError::Invalid));
    assert_eq!(frame::certificate(&[0, 0, 1, 9], 0), Err(ParseError::Invalid));
    assert_eq!(frame::certificate(&[2, 0, 1, 9], 0), Err(ParseError::Invalid));
    assert_eq!(frame::certificate(&[1, 0, 2, 1], 0), Err(ParseError::Incomplete));
    assert_eq!(frame::certificate(&[5, 0], 0), Err(ParseError::Incomplete));
    assert_eq!(frame::certificate(&[5, 0, 4, 0, 9, 0, 0], 0), Err(ParseError::Invalid));
    assert_eq!(frame::certificate(&[5, 0, 4, 0, 7, 0, 1], 0), Err(ParseError::Invalid));
    assert_eq!(frame::certificate(&[5, 0, 5, 0, 7, 0, 0, 1], 0), Err(ParseError::Invalid));
    assert_eq!(Certificate::from(&[1, 0, 2, 1]), None);
    let bad = Certificate::Key(KeyCertificate::new(
        SigType::Ed25519,
        EncType::ElGamal2048,
        vec![1],
        vec![],
    ));
    assert!(!bad.is_wf());
}

#[test]
fn algorithm_tables() {
    let lens = [
        (SigType::DsaSha1, 0u16, 128usize, 20usize, 40usize, 0usize, 0usize),
        (SigType::EcdsaSha256P256, 1, 64, 32, 64, 64, 0),
        (SigType::EcdsaSha384P384, 2, 96, 48, 96, 32, 0),
        (SigType::EcdsaSha512P521, 3, 132, 66, 132, 0, 4),
        (SigType::Rsa2048Sha256, 4, 256, 512, 256, 0, 128),
        (SigType::Rsa3072Sha384, 5, 384, 768, 384, 0, 256),
        (SigType::Rsa4096Sha512, 6, 512, 1024, 512, 0, 384),
        (SigType::Ed25519, 7, 32, 32, 64, 96, 0),
        (SigType::Ed25519ph, 8, 32, 32, 64, 96, 0),
    ];
    for (t, code, public, private, sig, pad, extra) in lens {
        assert_eq!(t.code(), code);
        assert_eq!(SigType::from_bytes(code), Some(t));
        assert_eq!(t.pubkey_len(), public);
        assert_eq!(t.privkey_len(), private);
        assert_eq!(t.sig_len(), sig);
        assert_eq!(t.pad_len(&EncType::ElGamal2048), pad);
        assert_eq!(t.extra_data_len(&EncType::ElGamal2048), extra);
        assert_eq!(256 + pad + public - extra, 384);
    }
    assert_eq!(SigType::from_bytes(9), None);
    assert_eq!(EncType::from_bytes(0), Some(EncType::ElGamal2048));
    assert_eq!(EncType::from_bytes(1), None);
    assert_eq!(EncType::ElGamal2048.code(), 0);
    assert_eq!(EncType::ElGamal2048.pubkey_len(), 256);
    assert_eq!(EncType::ElGamal2048.privkey_len(), 256);
}

#[test]
fn router_address_frame() {
    let mut ra = RouterAddress::new(
        &I2PString::new("NTCP2"),
        SocketAddr::new(IpAddr::V4([10, 0, 0, 255]), 8080),
    );
    ra.set_option(I2PString::new("v"), I2PString::new("2"));
    assert!(ra.is_wf());
    assert_eq!(ra.cost(), 0);
    assert_eq!(ra.expiration(), I2PDate(0));
    let mut buf = vec![];
    frame::gen_router_address(&mut buf, &ra);
    let mut want = vec![0u8, 0, 0, 0, 0, 0, 0, 0, 0, 5];
    want.extend_from_slice(b"NTCP2");
    want.extend_from_slice(b"\x00\x24\x04host=\x0a10.0.0.255;\x04port=\x048080;\x01v=\x012;");
    assert_eq!(buf, want);
    assert_eq!(frame::router_address(&buf, 0), Ok((ra, buf.len())));
    assert_eq!(
        frame::router_address(&buf[..buf.len() - 1], 0),
        Err(ParseError::Incomplete)
    );
}

#[test]
fn endpoints_as_text() {
    assert_eq!(decimal(0), "0");
    assert_eq!(decimal(65535), "65535");
    assert_eq!(decimal(1200), "1200");
    assert_eq!(ip_text(&IpAddr::V4([192, 168, 0, 1])), "192.168.0.1");
    assert_eq!(parse_ip("192.168.0.1"), Some(IpAddr::V4([192, 168, 0, 1])));
    assert_eq!(parse_ip("0.0.0.0"), Some(IpAddr::V4([0, 0, 0, 0])));
    assert_eq!(parse_ip("255.255.255.255"), Some(IpAddr::V4([255; 4])));
    for bad in [
        "", "1.2.3", "1.2.3.4.5", "256.1.1.1", "01.2.3.4", "1..2.3", "1.2.3.4 ", "a.b.c.d",
        "1.2.3.-4", "1.2.3.+4", "1.2.3.0004",
    ] {
        assert_eq!(parse_ip(bad), None, "{}", bad);
    }
    assert_eq!(parse_port("0"), Some(0));
    assert_eq!(parse_port("65535"), Some(65535));
    assert_eq!(parse_port("+80"), Some(80));
    assert_eq!(parse_port("00080"), Some(80));
    for bad in ["", "+", "65536", "-1", "8o", " 80", "99999999999999999999"] {
        assert_eq!(parse_port(bad), None, "{}", bad);
    }
}

#[test]
fn address_without_endpoint() {
    let mut ra = RouterAddress::new(
        &I2PString::new("NTCP2"),
        SocketAddr::new(IpAddr::V4([1, 2, 3, 4]), 5),
    );
    assert_eq!(ra.addr(), Some(SocketAddr::new(IpAddr::V4([1, 2, 3, 4]), 5)));
    ra.set_option(I2PString::new("port"), I2PString::new("none"));
    assert_eq!(ra.addr(), None);
    ra.set_option(I2PString::new("port"), I2PString::new("6"));
    ra.set_option(I2PString::new("host"), I2PString::new("example.org"));
    assert_eq!(ra.addr(), None);
}

#[test]
fn date_from_duration() {
    assert_eq!(I2PDate::from_duration_parts(1, 999_999_999), I2PDate(1_999));
    assert_eq!(I2PDate::from_duration_parts(0, 999_999), I2PDate(0));
    assert_eq!(
        I2PDate::from_duration_parts(u64::MAX / 1000, 0),
        I2PDate(u64::MAX - u64::MAX % 1000)
    );
    assert_eq!(I2PDate::from_duration_parts(u64::MAX, 0), I2PDate(u64::MAX));
    assert_eq!(
        I2PDate::from_system_time(std::time::UNIX_EPOCH + std::time::Duration::from_millis(77)),
        I2PDate(77)
    );
    assert_eq!(
        I2PDate::from_system_time(std::time::UNIX_EPOCH - std::time::Duration::from_millis(77)),
        I2PDate(0)
    );
}

#[test]
fn hash_as_text() {
    let zero = ire::data::Hash([0u8; 32]);
    assert_eq!(
        zero.to_base64().unwrap(),
        "AAAAAAAAAAAAAAAAAAAAAAAAAAAAAAAAAAAAAAAAAAA="
    );
    let ones = ire::data::Hash([0xffu8; 32]);
    assert_eq!(
        ones.to_base64().unwrap(),
        "~~~~~~~~~~~~~~~~~~~~~~~~~~~~~~~~~~~~~~~~~~8="
    );
    assert_eq!(
        ire::constants::i2p_base64_decode(b"-~8="),
        Some(vec![0xfb, 0xff])
    );
    assert_eq!(ire::constants::i2p_base64_decode(b"+/8="), None);
}

#[test]
fn csv_edge_cases() {
    let texts = |s: &str| -> Vec<String> {
        I2PString::new(s).to_csv().into_iter().map(|p| p.0).collect()
    };
    assert_eq!(texts(""), vec![""]);
    assert_eq!(texts(","), vec!["", ""]);
    assert_eq!(texts("a,,b,"), vec!["a", "", "b", ""]);
    assert_eq!(texts("é,ü"), vec!["é", "ü"]);
}

#[test]
fn ipv6_as_text() {
    let cases: [([u16; 8], &str); 10] = [
        ([0; 8], "::"),
        ([0, 0, 0, 0, 0, 0, 0, 1], "::1"),
        ([1, 0, 0, 0, 0, 0, 0, 0], "1::"),
        ([0x2001, 0xdb8, 0, 0, 0, 0, 0, 1], "2001:db8::1"),
        ([1, 0, 0, 2, 0, 0, 0, 3], "1:0:0:2::3"),
        ([1, 0, 2, 0, 3, 0, 4, 0], "1:0:2:0:3:0:4:0"),
        ([0, 0, 1, 0, 0, 2, 3, 4], "::1:0:0:2:3:4"),
        ([1, 2, 3, 4, 5, 6, 0, 0], "1:2:3:4:5:6::"),
        ([0xfe80, 0, 0, 0, 0, 0, 0, 0xabcd], "fe80::abcd"),
        ([1, 2, 3, 4, 5, 6, 7, 8], "1:2:3:4:5:6:7:8"),
    ];
    for (groups, text) in cases {
        assert_eq!(ip_text(&IpAddr::V6(groups)), text);
        assert_eq!(parse_ip(text), Some(IpAddr::V6(groups)), "{}", text);
    }
    let mapped = IpAddr::V6([0, 0, 0, 0, 0, 0xffff, 0xc0a8, 0x0001]);
    assert_eq!(ip_text(&mapped), "::ffff:192.168.0.1");
    assert_eq!(parse_ip("::ffff:192.168.0.1"), Some(mapped));
    assert_eq!(parse_ip("::FFFF:c0a8:1"), Some(mapped));
    assert_eq!(
        parse_ip("1:2:3:4:5:6:1.2.3.4"),
        Some(IpAddr::V6([1, 2, 3, 4, 5, 6, 0x0102, 0x0304]))
    );
    assert_eq!(
        parse_ip("::1.2.3.4"),
        Some(IpAddr::V6([0, 0, 0, 0, 0, 0, 0x0102, 0x0304]))
    );
    assert_eq!(
        parse_ip("1:2:3:4:5:6:7::"),
        Some(IpAddr::V6([1, 2, 3, 4, 5, 6, 7, 0]))
    );
    assert_eq!(
        parse_ip("FE80::0A:00b"),
        Some(IpAddr::V6([0xfe80, 0, 0, 0, 0, 0, 0xa, 0xb]))
    );
    for bad in [
        ":", "1:", ":1", ":::", "1::2::3", "12345::", "1:2:3:4:5:6:7", "1:2:3:4:5:6:7:8:9",
        "1:2:3:4:5:6:7::8", "1.2.3.4::", "1:2:3:4:5:6:7:1.2.3.4", "g::", "::1.2.3",
        "1:2:3:4:5:6:7:8::",
        "::1:2:3:4:5:6:7:8", "1::2:", "[::1]", "::1%eth0",
    ] {
        assert_eq!(parse_ip(bad), None, "{}", bad);
    }
    assert_eq!(hex(0), "0");
    assert_eq!(hex(0xffff), "ffff");
    assert_eq!(hex(0x0a0), "a0");
}

#[test]
fn address_with_ipv6_endpoint() {
    let addr = SocketAddr::new(IpAddr::V6([0x2001, 0xdb8, 0, 0, 0, 0, 0, 1]), 443);
    let ra = RouterAddress::new(&I2PString::new("NTCP2"), addr);
    assert_eq!(
        ra.option(&I2PString::new("host")),
        Some(&I2PString::new("2001:db8::1"))
    );
    assert_eq!(ra.addr(), Some(addr));
    assert!(!addr.is_ipv4());
}

#[test]
fn every_pattern_of_zero_groups_is_read_back() {
    for pattern in 0..256u32 {
        let mut groups = [0u16; 8];
        for i in 0..8 {
            if pattern & (1 << i) != 0 {
                groups[i] = if i % 2 == 0 { 0xffff } else { (i as u16) * 0x101 + 1 };
            }
        }
        let text = ip_text(&IpAddr::V6(groups));
        assert_eq!(parse_ip(&text), Some(IpAddr::V6(groups)), "{}", text);
        assert!(!text.contains(":::"), "{}", text);
    }
    assert_eq!(ip_text(&IpAddr::V6([0, 1, 0, 0, 1, 0, 0, 1])), "0:1::1:0:0:1");
    assert_eq!(ip_text(&IpAddr::V6([1, 0, 0, 0, 1, 0, 0, 0])), "1::1:0:0:0");
    assert_eq!(ip_text(&IpAddr::V6([0, 0, 0, 0, 0, 0xffff, 0, 0])), "::ffff:0.0.0.0");
    assert_eq!(ip_text(&IpAddr::V6([0, 0, 0, 0, 0, 0, 0x102, 0x304])), "::102:304");
}

#[test]
fn ports_are_read_and_printed_in_decimal() {
    for n in [0u16, 1, 9, 10, 99, 100, 255, 256, 9999, 10000, 65535] {
        assert_eq!(decimal(n), format!("{}", n));
        assert_eq!(parse_port(&format!("{}", n)), Some(n));
        assert_eq!(parse_port(&format!("+{}", n)), Some(n));
        assert_eq!(parse_port(&format!("000{}", n)), Some(n));
        assert_eq!(parse_port(&format!("-{}", n)), None);
        assert_eq!(parse_port(&format!("{} ", n)), None);
    }
    assert_eq!(parse_port("65536"), None);
    assert_eq!(parse_port("٣"), None);
}

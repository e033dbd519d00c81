//! Text encodings and the text forms of numbers that the router takes
//! from the standard library and from `data_encoding`. Nothing in this
//! file is proved.

use vstd::prelude::*;
use vstd::utf8::{decode_utf8, valid_utf8};

verus! {

/// `String::from_utf8`: the text that `bytes` encode, where they are valid
/// UTF-8, and nothing where they are not.
#[verifier::external_body]
pub(crate) fn string_from_utf8(bytes: Vec<u8>) -> (r: Option<String>)
    ensures
        r is Some <==> valid_utf8(bytes@),
        r matches Some(s) ==> s@ == decode_utf8(bytes@),
{
    match String::from_utf8(bytes) {
        Ok(s) => Some(s),
        Err(_) => None,
    }
}

/// The base64 text of `data` over the alphabet `symbols`, filled up with
/// `padding`; nothing where alphabet and padding are none that
/// `data_encoding` accepts.
pub uninterp spec fn spec_base64_encode(
    symbols: Seq<char>,
    padding: char,
    data: Seq<u8>,
) -> Option<Seq<char>>;

/// `data_encoding::Specification::encoding` for the alphabet and the
/// padding, followed by `Encoding::encode`: a function of the alphabet,
/// the padding and the data.
#[verifier::external_body]
pub(crate) fn base64_encode(symbols: &str, padding: char, data: &[u8]) -> (r: Option<String>)
    ensures
        match r {
            Some(text) => spec_base64_encode(symbols@, padding, data@) == Some(text@),
            None => spec_base64_encode(symbols@, padding, data@) is None,
        },
{
    let mut spec = data_encoding::Specification::new();
    spec.symbols.push_str(symbols);
    spec.padding = Some(padding);
    match spec.encoding() {
        Ok(encoding) => Some(encoding.encode(data)),
        Err(_) => None,
    }
}

/// The bytes that the base64 text `text` stands for over the alphabet
/// `symbols` with the padding `padding`; nothing where the text is
/// malformed or alphabet and padding are not accepted.
pub uninterp spec fn spec_base64_decode(
    symbols: Seq<char>,
    padding: char,
    text: Seq<u8>,
) -> Option<Seq<u8>>;

/// `data_encoding::Specification::encoding` for the alphabet and the
/// padding, followed by `Encoding::decode`: a function of the alphabet,
/// the padding and the text.
#[verifier::external_body]
pub(crate) fn base64_decode(symbols: &str, padding: char, text: &[u8]) -> (r: Option<Vec<u8>>)
    ensures
        match r {
            Some(data) => spec_base64_decode(symbols@, padding, text@) == Some(data@),
            None => spec_base64_decode(symbols@, padding, text@) is None,
        },
{
    let mut spec = data_encoding::Specification::new();
    spec.symbols.push_str(symbols);
    spec.padding = Some(padding);
    match spec.encoding() {
        Ok(encoding) => encoding.decode(text).ok(),
        Err(_) => None,
    }
}

/// `str::parse::<u16>`: the number that the text denotes in decimal
/// digits, which a plus sign may precede, where it fits 16 bits; nothing
/// for any other text, the empty one included.
#[verifier::external_body]
pub(crate) fn u16_from_str(s: &str) -> (r: Option<u16>)
    ensures
        r == crate::net::spec_parse_port(s@),
{
    s.parse::<u16>().ok()
}

/// `u16::to_string`: the decimal notation of the number, without leading
/// zeros.
#[verifier::external_body]
pub(crate) fn u16_to_string(n: u16) -> (s: String)
    ensures
        s@ == crate::net::spec_decimal(n as nat),
{
    n.to_string()
}

} // verus!

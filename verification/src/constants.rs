//! Wire constants shared by the I2P data structures.

use vstd::prelude::*;

use crate::text::encoding::{
    base64_decode, base64_encode, spec_base64_decode, spec_base64_encode,
};

verus! {

// Certificate type codes.
pub const NULL_CERT: u8 = 0;
pub const HASH_CERT: u8 = 1;
pub const HIDDEN_CERT: u8 = 2;
pub const SIGNED_CERT: u8 = 3;
pub const MULTI_CERT: u8 = 4;
pub const KEY_CERT: u8 = 5;

// Signature type codes.
pub const DSA_SHA1: u16 = 0;
pub const ECDSA_SHA256_P256: u16 = 1;
pub const ECDSA_SHA384_P384: u16 = 2;
pub const ECDSA_SHA512_P521: u16 = 3;
pub const RSA_SHA256_2048: u16 = 4;
pub const RSA_SHA384_3072: u16 = 5;
pub const RSA_SHA512_4096: u16 = 6;
pub const ED25519: u16 = 7;
pub const ED25519PH: u16 = 8;

// Encryption type codes.
pub const ELGAMAL2048: u16 = 0;

/// Length of the part of the key block that is reserved for the signing key.
pub const SIGNING_KEY_AREA_LEN: usize = 128;

/// The symbols of the I2P variant of base64: the standard alphabet with
/// `+` replaced by `-` and `/` replaced by `~`.
pub const I2P_BASE64_SYMBOLS: &'static str =
    "ABCDEFGHIJKLMNOPQRSTUVWXYZabcdefghijklmnopqrstuvwxyz0123456789-~";

/// The character that fills up texts in the base64 of I2P.
pub const I2P_BASE64_PADDING: char = '=';

/// The text of `data` in the base64 of I2P.
pub open spec fn spec_i2p_base64_encode(data: Seq<u8>) -> Option<Seq<char>> {
    spec_base64_encode(I2P_BASE64_SYMBOLS@, I2P_BASE64_PADDING, data)
}

/// The bytes that `text` stands for in the base64 of I2P.
pub open spec fn spec_i2p_base64_decode(text: Seq<u8>) -> Option<Seq<u8>> {
    spec_base64_decode(I2P_BASE64_SYMBOLS@, I2P_BASE64_PADDING, text)
}

/// The text of `data` in the base64 of I2P.
pub fn i2p_base64_encode(data: &[u8]) -> (r: Option<String>)
    ensures
        match r {
            Some(text) => spec_i2p_base64_encode(data@) == Some(text@),
            None => spec_i2p_base64_encode(data@) is None,
        },
{
    base64_encode(I2P_BASE64_SYMBOLS, I2P_BASE64_PADDING, data)
}

/// The bytes that `text` stands for in the base64 of I2P.
pub fn i2p_base64_decode(text: &[u8]) -> (r: Option<Vec<u8>>)
    ensures
        match r {
            Some(data) => spec_i2p_base64_decode(text@) == Some(data@),
            None => spec_i2p_base64_decode(text@) is None,
        },
{
    base64_decode(I2P_BASE64_SYMBOLS, I2P_BASE64_PADDING, text)
}

} // verus!

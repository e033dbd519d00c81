//! The Noise sessions of the handshake, which `i2p_snow` runs, and the
//! reading of the keys that they derive, for which `byteorder` is used.
//! Nothing in this file is proved: a session is opaque, and each function
//! states of its outcome what holds whatever the session did.

use vstd::prelude::*;

use byteorder::ByteOrder;
use i2p_snow::{Builder, Session, SnowError};

use crate::transport::ntcp2::NTCP2_NOISE_PROTOCOL_NAME;

verus! {

#[verifier::external_type_specification]
#[verifier::external_body]
pub struct ExSession(Session);

#[verifier::external_type_specification]
#[verifier::external_body]
pub struct ExSnowError(SnowError);

/// `i2p_snow::Builder` for the side that receives the first message: a
/// session for the protocol of the handshake with the given static key,
/// which expects the first ephemeral key to be obscured with the given AES
/// key and initialisation vector, and which derives additional symmetric
/// keys. The builder copies the keys into buffers of 32 bytes, hence the
/// bounds; no other protocol name is handed to it, since it does not take
/// every name.
#[verifier::external_body]
pub(crate) fn build_responder(
    name: &str,
    static_key: &[u8],
    aesobfse_key: &[u8],
    aesobfse_iv: &[u8; 16],
) -> (r: Result<Session, SnowError>)
    requires
        name@ == NTCP2_NOISE_PROTOCOL_NAME@,
        static_key@.len() <= 32,
        aesobfse_key@.len() <= 32,
{
    Builder::new(name.parse()?)
        .local_private_key(static_key)
        .aesobfse(aesobfse_key, aesobfse_iv)
        .enable_ask()
        .build_responder()
}

/// `i2p_snow::Builder` for the side that sends the first message: as
/// `build_responder`, with the static key of the other side known.
#[verifier::external_body]
pub(crate) fn build_initiator(
    name: &str,
    static_key: &[u8],
    remote_key: &[u8],
    aesobfse_key: &[u8],
    aesobfse_iv: &[u8; 16],
) -> (r: Result<Session, SnowError>)
    requires
        name@ == NTCP2_NOISE_PROTOCOL_NAME@,
        static_key@.len() <= 32,
        remote_key@.len() <= 32,
        aesobfse_key@.len() <= 32,
{
    Builder::new(name.parse()?)
        .local_private_key(static_key)
        .remote_public_key(remote_key)
        .aesobfse(aesobfse_key, aesobfse_iv)
        .enable_ask()
        .build_initiator()
}

/// Whether the session has seen the last message of its handshake, or has
/// left the handshake behind.
pub uninterp spec fn spec_handshake_finished(session: Session) -> bool;

/// `i2p_snow::Session::is_handshake_finished`: whether the session has seen
/// the last message of its handshake, or is in transport mode.
#[verifier::external_body]
pub(crate) fn is_handshake_finished(session: &Session) -> (finished: bool)
    ensures
        finished == spec_handshake_finished(*session),
{
    session.is_handshake_finished()
}

/// `i2p_snow::Session::read_message`: the payload of `msg`, which is no
/// longer than `msg`, or the reason why the session refuses the message.
/// A session that has seen the last message of its handshake is not asked
/// to read another: it would look for a message pattern that is not there.
#[verifier::external_body]
pub(crate) fn read_message(session: &mut Session, msg: &[u8]) -> (r: Result<Vec<u8>, SnowError>)
    requires
        !spec_handshake_finished(*old(session)),
    ensures
        r matches Ok(payload) ==> payload@.len() <= msg@.len(),
{
    let mut payload = vec![0u8; msg.len()];
    let len = session.read_message(msg, &mut payload)?;
    payload.truncate(len);
    Ok(payload)
}

/// `i2p_snow::Session::write_message` into `out`: the number of bytes of
/// the message, which then stands at the start of `out`, or the reason why
/// the session refuses the payload. A message takes at least the bytes of
/// its payload and at most 65535. `out` has room for the payload and for
/// the keys and tags that any handshake message carries.
#[verifier::external_body]
pub(crate) fn write_message(session: &mut Session, payload: &[u8], out: &mut Vec<u8>) -> (r: Result<
    usize,
    SnowError,
>)
    requires
        old(out)@.len() >= payload@.len() + 144,
    ensures
        final(out)@.len() == old(out)@.len(),
        r matches Ok(len) ==> payload@.len() <= len <= final(out)@.len() && len <= 65535,
{
    session.write_message(payload, &mut out[..])
}

/// `i2p_snow::Session::set_h_data`: hands the session data to mix into the
/// handshake hash at `location`, which counts from 1.
#[verifier::external_body]
pub(crate) fn set_h_data(session: &mut Session, location: usize, data: &[u8]) -> (r: Result<
    (),
    SnowError,
>) {
    session.set_h_data(location, data)
}

/// `i2p_snow::Session::initialize_ask` with the one label: prepares the
/// finished handshake for the derivation of additional symmetric keys
/// under that label.
#[verifier::external_body]
pub(crate) fn initialize_ask(session: &mut Session, label: &str) -> (r: Result<(), SnowError>) {
    session.initialize_ask(vec![String::from(label)])
}

/// `i2p_snow::Session::finalize_ask`: the last two additional symmetric
/// keys under the label.
#[verifier::external_body]
pub(crate) fn finalize_ask(session: &mut Session, label: &str) -> (r: Result<
    ([u8; 32], [u8; 32]),
    SnowError,
>) {
    session.finalize_ask(&String::from(label))
}

/// `i2p_snow::Session::into_transport_mode`: the session for the traffic
/// after the handshake, or the reason why there is none.
#[verifier::external_body]
pub(crate) fn into_transport_mode(session: Session) -> (r: Result<Session, SnowError>) {
    session.into_transport_mode()
}

/// The number that the first eight bytes of `s` are in little-endian
/// notation.
pub open spec fn spec_le_u64(s: Seq<u8>) -> u64 {
    (s[0] as int + 256 * (s[1] as int + 256 * (s[2] as int + 256 * (s[3] as int + 256 * (s[4] as int
        + 256 * (s[5] as int + 256 * (s[6] as int + 256 * (s[7] as int)))))))) as u64
}

/// `byteorder::LittleEndian::read_u64`: the first eight bytes of `buf` as a
/// little-endian number.
#[verifier::external_body]
pub(crate) fn read_le_u64(buf: &[u8]) -> (v: u64)
    requires
        buf@.len() >= 8,
    ensures
        v == spec_le_u64(buf@),
{
    byteorder::LittleEndian::read_u64(buf)
}

} // verus!

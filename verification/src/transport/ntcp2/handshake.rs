//! The handshake that establishes a session of the transport: three
//! messages of the Noise pattern XK, each followed by padding that is mixed
//! into the handshake hash.
//!
//! Both sides are state machines that are fed events and answer with the
//! next thing to do on the connection. They never touch the connection
//! themselves.

use vstd::prelude::*;
use vstd::string::StringExecFns;
use vstd::utf8::{decode_utf8, encode_utf8};

use i2p_snow::Session;

use crate::crypto::primitives::{thread_random_bytes, thread_random_range};
use crate::data::mapping::spec_lookup;
use crate::data::{
    spec_split_commas, I2PString, RouterAddress, RouterAddressView, RouterInfo, RouterInfoView,
};
use crate::net::SocketAddr;
use crate::data::I2PDate;
use crate::time::{duration_since_epoch, system_time_now};
use crate::transport::ntcp::NTCP_STYLE;
use crate::transport::ntcp2::frame::{
    gen_session_confirmed, gen_session_created, gen_session_request,
    lemma_session_created_roundtrip, lemma_session_request_roundtrip, session_confirmed,
    session_created, session_request, spec_gen_session_confirmed, spec_gen_session_created,
    spec_gen_session_request, spec_session_confirmed, spec_session_created,
    spec_session_request, SessionCreated, SessionRequest,
};
use crate::transport::ntcp2::noise::{
    build_initiator, build_responder, finalize_ask, initialize_ask, into_transport_mode,
    is_handshake_finished, read_le_u64, read_message, set_h_data, spec_le_u64, write_message,
};
use crate::transport::ntcp2::{
    NTCP2_MTU, NTCP2_NOISE_PROTOCOL_NAME, NTCP2_OPT_I, NTCP2_OPT_S, NTCP2_OPT_V, NTCP2_STYLE,
    NTCP2_VERSION,
};

verus! {

/// The length of the first message: an obscured key of 32 bytes, the
/// plaintext of 16 bytes and a tag of 16 bytes.
pub const SESSION_REQUEST_CT_LEN: usize = 64;

/// The length of the second message: a key of 32 bytes, the plaintext of
/// 16 bytes and a tag of 16 bytes.
pub const SESSION_CREATED_CT_LEN: usize = 64;

/// What the third message has in front of its second part: the static key
/// of the initiator, 32 bytes, with its tag of 16 bytes.
pub const SESSION_CONFIRMED_KEY_LEN: usize = 48;

/// The longest second part of a third message, its tag of 16 bytes
/// included.
pub const SESSION_CONFIRMED_MAX_LEN: usize = 65519;

/// The label under which the keys for the lengths of the frames are
/// derived.
pub const ASK_LABEL: &'static str = "siphash";

/// Why a handshake failed.
#[derive(Clone, Copy, Debug, PartialEq, Eq, Structural)]
pub enum HandshakeError {
    /// The connection ended before a message was complete.
    IncompleteHandshake,
    /// The other side speaks another version of the transport.
    UnsupportedVersion,
    /// The Noise session refused a message or a key.
    NoiseFailure,
    /// A plaintext could not be read.
    ParseError,
    /// The other router publishes no address for this transport.
    NoNtcp2Address,
    /// The third message would be longer than the transport allows.
    MessageTooLarge,
    /// The static key or the initialisation vector in the address of the
    /// other router is not what it has to be.
    InvalidKey,
    /// The own router info is not signed or cannot be written.
    InvalidRouterInfo,
    /// The event is not one that the handshake waits for.
    UnexpectedEvent,
}

/// What happened on the connection.
pub enum Event {
    /// The connection stands.
    Connected,
    /// The bytes asked for were read.
    Read(Vec<u8>),
    /// The bytes handed over were written.
    Written,
    /// The connection ended.
    Eof,
}

/// The keys and initialisation vectors with which the lengths of the
/// frames of the session are obscured, for what is sent and for what is
/// received.
#[derive(Clone, Copy, Debug, PartialEq, Eq, Structural)]
pub struct SessionKeys {
    pub ek0: u64,
    pub ek1: u64,
    pub eiv: u64,
    pub dk0: u64,
    pub dk1: u64,
    pub div: u64,
}

/// What a finished handshake leaves behind.
pub struct Established {
    /// The Noise session, in transport mode.
    pub noise: Session,
    /// The first additional symmetric key that the handshake derived: the
    /// one for what the initiator sends.
    pub ask0: [u8; 32],
    /// The second additional symmetric key that the handshake derived: the
    /// one for what the responder sends.
    pub ask1: [u8; 32],
    /// The keys for the lengths of the frames, as the two additional
    /// symmetric keys hold them for this side.
    pub keys: SessionKeys,
    /// The router info that the initiator sent, on the side of the
    /// responder.
    pub peer: Option<RouterInfo>,
    /// The milliseconds between the first message and the answer to it, on
    /// the side that measured them.
    pub rtt: u64,
}

/// What to do next on the connection.
pub enum Action {
    /// Read exactly as many bytes and hand them back.
    Read(usize),
    /// Write all of these bytes.
    Write(Vec<u8>),
    /// Nothing more: the session is established.
    Done(Established),
}

/// A time in seconds for a message of the handshake: the seconds since the
/// epoch, rounded to the nearest, as far as they fit 32 bits.
pub open spec fn spec_timestamp(secs: u64, nanos: u32) -> u32 {
    ((secs + if nanos >= 500_000_000 {
        1int
    } else {
        0int
    }) % 0x1_0000_0000) as u32
}

/// The time in seconds for a message of the handshake.
pub fn timestamp(secs: u64, nanos: u32) -> (ts: u32)
    ensures
        ts == spec_timestamp(secs, nanos),
{
    let low: u64 = secs % 0x1_0000_0000;
    let carry: u64 = if nanos >= 500_000_000 {
        1
    } else {
        0
    };
    let sum: u64 = (low + carry) % 0x1_0000_0000;
    sum as u32
}

/// The seconds since the epoch and the nanoseconds of the running second
/// that the system clock shows now; the epoch itself where the clock shows
/// a time before it.
fn clock_now() -> (t: (u64, u32))
    ensures
        t.1 < 1_000_000_000,
{
    match duration_since_epoch(&system_time_now()) {
        Some(d) => (d.as_secs(), d.subsec_nanos()),
        None => (0, 0),
    }
}

/// The milliseconds since the epoch that the system clock shows now.
fn millis_now() -> (ms: u64) {
    let (secs, nanos) = clock_now();
    I2PDate::from_duration_parts(secs, nanos).0
}

/// The keys that the two additional symmetric keys of a handshake hold: in
/// each, three little-endian numbers. The first key is for what the
/// initiator sends, the second for what the responder sends.
pub open spec fn spec_session_keys(ask0: Seq<u8>, ask1: Seq<u8>, initiator: bool) -> SessionKeys {
    let (e, d) = if initiator {
        (ask0, ask1)
    } else {
        (ask1, ask0)
    };
    SessionKeys {
        ek0: spec_le_u64(e),
        ek1: spec_le_u64(e.skip(8)),
        eiv: spec_le_u64(e.skip(16)),
        dk0: spec_le_u64(d),
        dk1: spec_le_u64(d.skip(8)),
        div: spec_le_u64(d.skip(16)),
    }
}

/// The keys of the session from the additional symmetric keys of the
/// handshake.
pub fn session_keys(ask0: &[u8; 32], ask1: &[u8; 32], initiator: bool) -> (keys: SessionKeys)
    ensures
        keys == spec_session_keys(ask0@, ask1@, initiator),
{
    let (e, d) = if initiator {
        (ask0.as_slice(), ask1.as_slice())
    } else {
        (ask1.as_slice(), ask0.as_slice())
    };
    let e8 = vstd::slice::slice_subrange(e, 8, 32);
    let e16 = vstd::slice::slice_subrange(e, 16, 32);
    let d8 = vstd::slice::slice_subrange(d, 8, 32);
    let d16 = vstd::slice::slice_subrange(d, 16, 32);
    proof {
        assert(e8@ =~= e@.skip(8));
        assert(e16@ =~= e@.skip(16));
        assert(d8@ =~= d@.skip(8));
        assert(d16@ =~= d@.skip(16));
    }
    SessionKeys {
        ek0: read_le_u64(e),
        ek1: read_le_u64(e8),
        eiv: read_le_u64(e16),
        dk0: read_le_u64(d),
        dk1: read_le_u64(d8),
        div: read_le_u64(d16),
    }
}

/// The two sides of a handshake hold the same keys, each for sending what
/// the other has for receiving.
pub proof fn lemma_session_keys_mirror(ask0: Seq<u8>, ask1: Seq<u8>)
    ensures
        spec_session_keys(ask0, ask1, true).ek0 == spec_session_keys(ask0, ask1, false).dk0,
        spec_session_keys(ask0, ask1, true).ek1 == spec_session_keys(ask0, ask1, false).dk1,
        spec_session_keys(ask0, ask1, true).eiv == spec_session_keys(ask0, ask1, false).div,
        spec_session_keys(ask0, ask1, true).dk0 == spec_session_keys(ask0, ask1, false).ek0,
        spec_session_keys(ask0, ask1, true).dk1 == spec_session_keys(ask0, ask1, false).ek1,
        spec_session_keys(ask0, ask1, true).div == spec_session_keys(ask0, ask1, false).eiv,
{
}

/// What the responder makes of the plaintext of a first message: it has to
/// be readable, of the version that is spoken here, and must not announce
/// a third message longer than the transport allows.
pub open spec fn spec_session_request_outcome(plaintext: Seq<u8>) -> Result<
    SessionRequest,
    HandshakeError,
> {
    match spec_session_request(plaintext) {
        Err(_) => Err(HandshakeError::ParseError),
        Ok((m, _)) => if m.version != 2 {
            Err(HandshakeError::UnsupportedVersion)
        } else if m.sclen > SESSION_CONFIRMED_MAX_LEN {
            Err(HandshakeError::MessageTooLarge)
        } else {
            Ok(m)
        },
    }
}

/// Judges the plaintext of a first message.
pub fn session_request_outcome(plaintext: &[u8]) -> (r: Result<SessionRequest, HandshakeError>)
    ensures
        r == spec_session_request_outcome(plaintext@),
{
    match session_request(plaintext) {
        Err(_) => Err(HandshakeError::ParseError),
        Ok((m, _)) => {
            if m.version != 2 {
                Err(HandshakeError::UnsupportedVersion)
            } else if m.sclen as usize > SESSION_CONFIRMED_MAX_LEN {
                Err(HandshakeError::MessageTooLarge)
            } else {
                Ok(m)
            }
        },
    }
}

/// What the initiator makes of the plaintext of a second message.
pub open spec fn spec_session_created_outcome(plaintext: Seq<u8>) -> Result<
    SessionCreated,
    HandshakeError,
> {
    match spec_session_created(plaintext) {
        Err(_) => Err(HandshakeError::ParseError),
        Ok((m, _)) => Ok(m),
    }
}

/// Judges the plaintext of a second message.
pub fn session_created_outcome(plaintext: &[u8]) -> (r: Result<SessionCreated, HandshakeError>)
    ensures
        r == spec_session_created_outcome(plaintext@),
{
    match session_created(plaintext) {
        Err(_) => Err(HandshakeError::ParseError),
        Ok((m, _)) => Ok(m),
    }
}

/// The plaintext of the third message for `own_ri` with the given padding,
/// unless it is longer than the transport allows.
pub open spec fn spec_session_confirmed_payload(own_ri: RouterInfoView, padding: Seq<u8>) -> Result<
    Seq<u8>,
    HandshakeError,
> {
    if spec_gen_session_confirmed(own_ri, padding).len() > NTCP2_MTU - 16 {
        Err(HandshakeError::MessageTooLarge)
    } else {
        Ok(spec_gen_session_confirmed(own_ri, padding))
    }
}

/// Writes the plaintext of the third message.
pub fn session_confirmed_payload(own_ri: &RouterInfo, padding: &[u8]) -> (r: Result<
    Vec<u8>,
    HandshakeError,
>)
    requires
        own_ri@.wf(),
        own_ri@.signature is Some,
    ensures
        match r {
            Ok(payload) => spec_session_confirmed_payload(own_ri@, padding@) == Ok::<
                Seq<u8>,
                HandshakeError,
            >(payload@),
            Err(e) => spec_session_confirmed_payload(own_ri@, padding@) == Err::<
                Seq<u8>,
                HandshakeError,
            >(e),
        },
{
    let payload = gen_session_confirmed(own_ri, padding);
    if payload.len() > NTCP2_MTU - 16 {
        Err(HandshakeError::MessageTooLarge)
    } else {
        Ok(payload)
    }
}

/// A message of the handshake as it goes over the connection: what the
/// Noise session wrote, then the padding.
pub open spec fn spec_with_padding(message: Seq<u8>, padding: Seq<u8>) -> Seq<u8> {
    message + padding
}

/// Puts the padding behind the first `len` bytes of `out`.
pub fn with_padding(out: Vec<u8>, len: usize, padding: &[u8]) -> (r: Vec<u8>)
    requires
        len <= out@.len(),
    ensures
        r@ == spec_with_padding(out@.subrange(0, len as int), padding@),
{
    let mut out = out;
    out.truncate(len);
    out.extend_from_slice(padding);
    out
}

/// The plaintext of the first message of an initiator that speaks version
/// 2, puts `padlen` bytes of padding behind the message, will send a third
/// message whose second part has `sc_len` bytes, and whose clock shows
/// `secs` seconds and `nanos` nanoseconds.
pub open spec fn spec_session_request_plaintext(
    padlen: u8,
    sc_len: u16,
    secs: u64,
    nanos: u32,
) -> Seq<u8> {
    spec_gen_session_request(
        SessionRequest { version: 2, padlen, sclen: sc_len, ts_a: spec_timestamp(secs, nanos) },
    )
}

/// Writes the plaintext of the first message.
pub fn session_request_plaintext(padlen: u8, sc_len: u16, secs: u64, nanos: u32) -> (r: Vec<u8>)
    ensures
        r@ == spec_session_request_plaintext(padlen, sc_len, secs, nanos),
        r@.len() == 16,
{
    gen_session_request(
        &SessionRequest { version: 2, padlen, sclen: sc_len, ts_a: timestamp(secs, nanos) },
    )
}

/// The plaintext of the second message of a responder that puts `padlen`
/// bytes of padding behind the message and whose clock shows `secs`
/// seconds and `nanos` nanoseconds.
pub open spec fn spec_session_created_plaintext(padlen: u16, secs: u64, nanos: u32) -> Seq<u8> {
    spec_gen_session_created(SessionCreated { padlen, ts_b: spec_timestamp(secs, nanos) })
}

/// Writes the plaintext of the second message.
pub fn session_created_plaintext(padlen: u16, secs: u64, nanos: u32) -> (r: Vec<u8>)
    ensures
        r@ == spec_session_created_plaintext(padlen, secs, nanos),
        r@.len() == 16,
{
    gen_session_created(&SessionCreated { padlen, ts_b: timestamp(secs, nanos) })
}

/// Some plaintext of at most `max` bytes is one that the responder takes
/// for a first message, with these lengths of the padding and of the
/// second part of the third message.
pub open spec fn spec_request_accepted(max: int, padlen: int, sclen: int) -> bool {
    exists|plaintext: Seq<u8>|
        plaintext.len() <= max && (#[trigger] spec_session_request_outcome(plaintext)) is Ok
            && spec_session_request_outcome(plaintext)->Ok_0.padlen == padlen
            && spec_session_request_outcome(plaintext)->Ok_0.sclen == sclen
}

/// Some plaintext of at most `max` bytes is one that the responder refuses
/// as a first message, for this reason.
pub open spec fn spec_request_refused(max: int, e: HandshakeError) -> bool {
    exists|plaintext: Seq<u8>|
        plaintext.len() <= max && #[trigger] spec_session_request_outcome(plaintext) == Err::<
            SessionRequest,
            HandshakeError,
        >(e)
}

/// Some plaintext of at most `max` bytes is one that the initiator takes
/// for a second message, with this length of the padding.
pub open spec fn spec_created_accepted(max: int, padlen: int) -> bool {
    exists|plaintext: Seq<u8>|
        plaintext.len() <= max && (#[trigger] spec_session_created_outcome(plaintext)) is Ok
            && spec_session_created_outcome(plaintext)->Ok_0.padlen == padlen
}

/// Some plaintext of at most `max` bytes is one that the initiator refuses
/// as a second message, for this reason.
pub open spec fn spec_created_refused(max: int, e: HandshakeError) -> bool {
    exists|plaintext: Seq<u8>|
        plaintext.len() <= max && #[trigger] spec_session_created_outcome(plaintext) == Err::<
            SessionCreated,
            HandshakeError,
        >(e)
}

/// Some plaintext of at most `max` bytes is one from which this router
/// info is read as that of a third message.
pub open spec fn spec_confirmed_read(max: int, ri: RouterInfoView) -> bool {
    exists|plaintext: Seq<u8>|
        plaintext.len() <= max && (#[trigger] spec_session_confirmed(plaintext)) is Ok
            && spec_session_confirmed(plaintext)->Ok_0.0 == ri
}

/// Some plaintext of at most `max` bytes is one from which no router info
/// can be read.
pub open spec fn spec_confirmed_unreadable(max: int) -> bool {
    exists|plaintext: Seq<u8>|
        plaintext.len() <= max && (#[trigger] spec_session_confirmed(plaintext)) is Err
}

//
// The responder
//
/// Where the responder stands.
#[derive(Clone, Copy, Debug, PartialEq, Eq, Structural)]
pub enum IBHandshakeState {
    /// Waiting for the first message.
    SessionRequest,
    /// Waiting for the padding of the first message.
    SessionRequestPadding,
    /// Waiting for the second message to be written.
    SessionCreated,
    /// Waiting for the third message.
    SessionConfirmed,
    /// Finished, with a session or with an error.
    Done,
}

/// The responder's side of a handshake.
pub struct IBHandshake {
    noise: Option<Session>,
    sclen: usize,
    padlen: usize,
    created_at: u64,
    state: IBHandshakeState,
}

impl IBHandshake {
    /// A handshake that has not ended holds its Noise session, and the
    /// lengths that the first message gave are within their bounds.
    #[verifier::type_invariant]
    spec fn inv(self) -> bool {
        &&& self.state != IBHandshakeState::Done ==> self.noise is Some
        &&& self.sclen <= SESSION_CONFIRMED_MAX_LEN
        &&& self.padlen <= 255
    }

    pub closed spec fn spec_state(&self) -> IBHandshakeState {
        self.state
    }

    /// Whether the handshake holds a Noise session.
    pub closed spec fn spec_holds_session(&self) -> bool {
        self.noise is Some
    }

    /// The length that the first message gave for the second part of the
    /// third.
    pub closed spec fn spec_sclen(&self) -> usize {
        self.sclen
    }

    /// The length that the first message gave for its padding.
    pub closed spec fn spec_padlen(&self) -> usize {
        self.padlen
    }

    /// The number of bytes that the responder waits for, where it waits
    /// for bytes.
    pub open spec fn spec_expected(&self) -> Option<int> {
        match self.spec_state() {
            IBHandshakeState::SessionRequest => Some(SESSION_REQUEST_CT_LEN as int),
            IBHandshakeState::SessionRequestPadding => Some(self.spec_padlen() as int),
            IBHandshakeState::SessionConfirmed => Some(
                self.spec_sclen() + SESSION_CONFIRMED_KEY_LEN,
            ),
            _ => None,
        }
    }

    /// The responder waits for bytes and the event brings as many.
    pub open spec fn spec_gets_bytes(&self, event: Event) -> bool {
        &&& self.spec_expected() is Some
        &&& event is Read
        &&& event->Read_0@.len() == self.spec_expected()->Some_0
    }

    /// The responder waits for bytes and the connection ends, or the event
    /// brings another number of bytes.
    pub open spec fn spec_gets_too_little(&self, event: Event) -> bool {
        &&& self.spec_expected() is Some
        &&& (event is Eof || (event is Read && event->Read_0@.len()
            != self.spec_expected()->Some_0))
    }

    /// The event is none that the responder waits for: it has ended, or
    /// waits for bytes and is told of something else, or waits for its
    /// message to be written and is told of something else.
    pub open spec fn spec_gets_other(&self, event: Event) -> bool {
        ||| self.spec_state() == IBHandshakeState::Done
        ||| (self.spec_expected() is Some && (event is Connected || event is Written))
        ||| (self.spec_state() == IBHandshakeState::SessionCreated && !(event is Written))
    }

    /// A responder with the given static key, for an initiator that
    /// obscures its first key with the given AES key and initialisation
    /// vector. It begins by waiting for the first message.
    ///
    /// Fails with `InvalidKey` exactly where a key is longer than 32 bytes,
    /// and else with `NoiseFailure` where the Noise session cannot be
    /// built.
    pub fn new(static_key: &[u8], aesobfse_key: &[u8], aesobfse_iv: &[u8; 16]) -> (r: Result<
        IBHandshake,
        HandshakeError,
    >)
        ensures
            r matches Err(HandshakeError::InvalidKey) <==> static_key@.len() > 32
                || aesobfse_key@.len() > 32,
            r matches Ok(hs) ==> hs.spec_state() == IBHandshakeState::SessionRequest
                && hs.spec_holds_session(),
            r matches Err(e) ==> e == HandshakeError::InvalidKey || e
                == HandshakeError::NoiseFailure,
    {
        if static_key.len() > 32 || aesobfse_key.len() > 32 {
            return Err(HandshakeError::InvalidKey);
        }
        match build_responder(NTCP2_NOISE_PROTOCOL_NAME, static_key, aesobfse_key, aesobfse_iv) {
            Ok(noise) => Ok(
                IBHandshake {
                    noise: Some(noise),
                    sclen: 0,
                    padlen: 0,
                    created_at: 0,
                    state: IBHandshakeState::SessionRequest,
                },
            ),
            Err(_) => Err(HandshakeError::NoiseFailure),
        }
    }

    pub fn state(&self) -> (s: IBHandshakeState)
        ensures
            s == self.spec_state(),
    {
        self.state
    }

    /// What a fresh responder asks for: the first message.
    pub fn start(&self) -> (a: Action)
        ensures
            a matches Action::Read(n) && n == SESSION_REQUEST_CT_LEN,
    {
        Action::Read(SESSION_REQUEST_CT_LEN)
    }

    /// Takes the handshake one step further.
    ///
    /// A connection that ends and bytes that are not as many as asked for
    /// give `IncompleteHandshake`, an event that the responder does not
    /// wait for gives `UnexpectedEvent`, and neither comes otherwise. Told
    /// that its message is written, the responder asks for the third
    /// message. Handed the bytes it waits for, it goes on as the Noise
    /// session and the plaintext allow: what the session refuses gives
    /// `NoiseFailure`, and the plaintext of the first message may give
    /// `ParseError`, `UnsupportedVersion` or `MessageTooLarge`, that of the
    /// third `ParseError`.
    ///
    /// Every error ends the handshake, and a handshake that has ended
    /// holds no Noise session any more. Else the first message leads to
    /// its padding, the padding to the second message, the second message
    /// to the third, and the third to the session, whose keys are those
    /// that the two additional symmetric keys hold for the responder.
    #[verifier::rlimit(60)]
    pub fn step(&mut self, event: Event) -> (r: Result<Action, HandshakeError>)
        ensures
            r matches Err(HandshakeError::IncompleteHandshake) <==> old(self).spec_gets_too_little(
                event,
            ),
            r matches Err(HandshakeError::UnexpectedEvent) <==> old(self).spec_gets_other(event),
            old(self).spec_state() == IBHandshakeState::SessionCreated && event is Written ==> r
                is Ok,
            r matches Err(e) ==> match e {
                HandshakeError::IncompleteHandshake => true,
                HandshakeError::UnexpectedEvent => true,
                HandshakeError::NoiseFailure => old(self).spec_gets_bytes(event),
                HandshakeError::ParseError => {
                    &&& old(self).spec_gets_bytes(event)
                    &&& match old(self).spec_state() {
                        IBHandshakeState::SessionRequest => spec_request_refused(
                            SESSION_REQUEST_CT_LEN as int,
                            e,
                        ),
                        IBHandshakeState::SessionConfirmed => spec_confirmed_unreadable(
                            old(self).spec_sclen() + SESSION_CONFIRMED_KEY_LEN,
                        ),
                        _ => false,
                    }
                },
                HandshakeError::UnsupportedVersion => {
                    &&& old(self).spec_gets_bytes(event)
                    &&& old(self).spec_state() == IBHandshakeState::SessionRequest
                    &&& spec_request_refused(SESSION_REQUEST_CT_LEN as int, e)
                },
                HandshakeError::MessageTooLarge => {
                    &&& old(self).spec_gets_bytes(event)
                    &&& old(self).spec_state() == IBHandshakeState::SessionRequest
                    &&& spec_request_refused(SESSION_REQUEST_CT_LEN as int, e)
                },
                _ => false,
            },
            r is Err ==> final(self).spec_state() == IBHandshakeState::Done,
            final(self).spec_state() == IBHandshakeState::Done
                ==> !final(self).spec_holds_session(),
            final(self).spec_state() != IBHandshakeState::Done ==> final(self).spec_holds_session(),
            r matches Ok(a) ==> match old(self).spec_state() {
                IBHandshakeState::SessionRequest => {
                    &&& a matches Action::Read(n) && n == final(self).spec_padlen()
                    &&& final(self).spec_state() == IBHandshakeState::SessionRequestPadding
                    &&& final(self).spec_padlen() <= 255
                    &&& final(self).spec_sclen() <= SESSION_CONFIRMED_MAX_LEN
                    &&& spec_request_accepted(
                        SESSION_REQUEST_CT_LEN as int,
                        final(self).spec_padlen() as int,
                        final(self).spec_sclen() as int,
                    )
                },
                IBHandshakeState::SessionRequestPadding => {
                    &&& a matches Action::Write(m) && SESSION_CREATED_CT_LEN <= m@.len()
                        < SESSION_CREATED_CT_LEN + 16
                    &&& final(self).spec_state() == IBHandshakeState::SessionCreated
                    &&& final(self).spec_sclen() == old(self).spec_sclen()
                },
                IBHandshakeState::SessionCreated => {
                    &&& a matches Action::Read(n) && n == old(self).spec_sclen()
                        + SESSION_CONFIRMED_KEY_LEN
                    &&& final(self).spec_state() == IBHandshakeState::SessionConfirmed
                    &&& final(self).spec_sclen() == old(self).spec_sclen()
                },
                IBHandshakeState::SessionConfirmed => {
                    &&& a matches Action::Done(est) && est.peer matches Some(ri) && ri@.wf()
                        && spec_confirmed_read(
                        old(self).spec_sclen() + SESSION_CONFIRMED_KEY_LEN,
                        ri@,
                    ) && est.keys == spec_session_keys(est.ask0@, est.ask1@, false)
                    &&& final(self).spec_state() == IBHandshakeState::Done
                },
                IBHandshakeState::Done => false,
            },
    {
        proof {
            use_type_invariant(&*self);
        }
        let state = self.state;
        self.state = IBHandshakeState::Done;
        let mut taken: Option<Session> = None;
        std::mem::swap(&mut self.noise, &mut taken);
        match state {
            IBHandshakeState::Done => Err(HandshakeError::UnexpectedEvent),
            IBHandshakeState::SessionCreated => match event {
                Event::Written => {
                    self.noise = taken;
                    self.state = IBHandshakeState::SessionConfirmed;
                    Ok(Action::Read(self.sclen + SESSION_CONFIRMED_KEY_LEN))
                },
                _ => Err(HandshakeError::UnexpectedEvent),
            },
            _ => {
                let expected = match state {
                    IBHandshakeState::SessionRequest => SESSION_REQUEST_CT_LEN,
                    IBHandshakeState::SessionRequestPadding => self.padlen,
                    _ => self.sclen + SESSION_CONFIRMED_KEY_LEN,
                };
                let bytes = match event {
                    Event::Read(bytes) => bytes,
                    Event::Eof => {
                        return Err(HandshakeError::IncompleteHandshake);
                    },
                    _ => {
                        return Err(HandshakeError::UnexpectedEvent);
                    },
                };
                if bytes.len() != expected {
                    return Err(HandshakeError::IncompleteHandshake);
                }
                let mut noise = match taken {
                    Some(noise) => noise,
                    None => {
                        assert(false);
                        return Err(HandshakeError::NoiseFailure);
                    },
                };
                match state {
                    IBHandshakeState::SessionRequest => {
                        let m = match read_session_request(&mut noise, bytes.as_slice()) {
                            Ok(m) => m,
                            Err(e) => {
                                return Err(e);
                            },
                        };
                        self.padlen = m.padlen as usize;
                        self.sclen = m.sclen as usize;
                        self.noise = Some(noise);
                        self.state = IBHandshakeState::SessionRequestPadding;
                        Ok(Action::Read(self.padlen))
                    },
                    IBHandshakeState::SessionRequestPadding => {
                        let sc_padlen = thread_random_range(0, 16);
                        let sc_padding = thread_random_bytes(sc_padlen as usize);
                        let (secs, nanos) = clock_now();
                        self.created_at = I2PDate::from_duration_parts(secs, nanos).0;
                        let plaintext = session_created_plaintext(sc_padlen as u16, secs, nanos);
                        proof {
                            lemma_session_created_roundtrip(
                                SessionCreated {
                                    padlen: sc_padlen as u16,
                                    ts_b: spec_timestamp(secs, nanos),
                                },
                            );
                        }
                        let message = match write_session_created(
                            &mut noise,
                            bytes.as_slice(),
                            plaintext.as_slice(),
                            sc_padding.as_slice(),
                        ) {
                            Ok(m) => m,
                            Err(e) => {
                                return Err(e);
                            },
                        };
                        self.noise = Some(noise);
                        self.state = IBHandshakeState::SessionCreated;
                        Ok(Action::Write(message))
                    },
                    _ => {
                        let peer = match read_session_confirmed(&mut noise, bytes.as_slice()) {
                            Ok(ri) => ri,
                            Err(e) => {
                                return Err(e);
                            },
                        };
                        let rtt = millis_now().saturating_sub(self.created_at);
                        match establish(noise, false, Some(peer), rtt) {
                            Ok(est) => Ok(Action::Done(est)),
                            Err(e) => Err(e),
                        }
                    },
                }
            },
        }
    }
}

/// Has the session read the first message and judges its plaintext. What
/// comes back is the verdict on a plaintext that is no longer than the
/// message, unless the session refuses the message.
fn read_session_request(noise: &mut Session, msg: &[u8]) -> (r: Result<
    SessionRequest,
    HandshakeError,
>)
    ensures
        match r {
            Ok(m) => m.version == 2 && m.sclen <= SESSION_CONFIRMED_MAX_LEN
                && spec_request_accepted(msg@.len() as int, m.padlen as int, m.sclen as int),
            Err(e) => e == HandshakeError::NoiseFailure || spec_request_refused(
                msg@.len() as int,
                e,
            ),
        },
{
    if is_handshake_finished(noise) {
        return Err(HandshakeError::NoiseFailure);
    }
    match read_message(noise, msg) {
        Ok(plaintext) => {
            let r = session_request_outcome(plaintext.as_slice());
            assert(plaintext@.len() <= msg@.len() && spec_session_request_outcome(plaintext@)
                == r);
            r
        },
        Err(_) => Err(HandshakeError::NoiseFailure),
    }
}

/// Mixes the padding of the first message into the handshake hash and has
/// the session write the second message from the plaintext, which
/// announces the padding that is then put behind the message. What the
/// session refuses gives `NoiseFailure`.
fn write_session_created(
    noise: &mut Session,
    padding: &[u8],
    plaintext: &[u8],
    sc_padding: &[u8],
) -> (r: Result<Vec<u8>, HandshakeError>)
    requires
        sc_padding@.len() < 16,
        plaintext@.len() == 16,
        spec_session_created(plaintext@) is Ok,
        spec_session_created(plaintext@)->Ok_0.0.padlen == sc_padding@.len(),
    ensures
        r matches Ok(m) ==> m@.len() == SESSION_CREATED_CT_LEN + sc_padding@.len() && m@.skip(
            SESSION_CREATED_CT_LEN as int,
        ) == sc_padding@,
        r matches Err(e) ==> e == HandshakeError::NoiseFailure,
{
    match set_h_data(noise, 2, padding) {
        Ok(()) => {},
        Err(_) => {
            return Err(HandshakeError::NoiseFailure);
        },
    }
    let mut out: Vec<u8> = vec![0u8; 256];
    let len = match write_message(noise, plaintext, &mut out) {
        Ok(len) => len,
        Err(_) => {
            return Err(HandshakeError::NoiseFailure);
        },
    };
    if len != SESSION_CREATED_CT_LEN {
        return Err(HandshakeError::NoiseFailure);
    }
    match set_h_data(noise, 3, sc_padding) {
        Ok(()) => {},
        Err(_) => {
            return Err(HandshakeError::NoiseFailure);
        },
    }
    let message = with_padding(out, len, sc_padding);
    assert(message@.skip(SESSION_CREATED_CT_LEN as int) =~= sc_padding@);
    Ok(message)
}

/// Has the session read the third message and reads the router info in its
/// plaintext. What comes back is read from a plaintext that is no longer
/// than the message, unless the session refuses the message.
fn read_session_confirmed(noise: &mut Session, msg: &[u8]) -> (r: Result<
    RouterInfo,
    HandshakeError,
>)
    ensures
        match r {
            Ok(ri) => ri@.wf() && spec_confirmed_read(msg@.len() as int, ri@),
            Err(e) => e == HandshakeError::NoiseFailure || (e == HandshakeError::ParseError
                && spec_confirmed_unreadable(msg@.len() as int)),
        },
{
    if is_handshake_finished(noise) {
        return Err(HandshakeError::NoiseFailure);
    }
    match read_message(noise, msg) {
        Ok(plaintext) => match session_confirmed(plaintext.as_slice()) {
            Ok((ri, _)) => {
                assert(plaintext@.len() <= msg@.len() && spec_session_confirmed(plaintext@) is Ok
                    && spec_session_confirmed(plaintext@)->Ok_0.0 == ri@);
                Ok(ri)
            },
            Err(_) => {
                assert(plaintext@.len() <= msg@.len() && spec_session_confirmed(plaintext@)
                    is Err);
                Err(HandshakeError::ParseError)
            },
        },
        Err(_) => Err(HandshakeError::NoiseFailure),
    }
}

/// Has the session derive the two additional symmetric keys, reads the
/// keys for the lengths of the frames from them as the side of the
/// handshake has them, and takes the session into transport mode. What
/// the session refuses gives `NoiseFailure`.
fn establish(noise: Session, initiator: bool, peer: Option<RouterInfo>, rtt: u64) -> (r: Result<
    Established,
    HandshakeError,
>)
    ensures
        r matches Ok(est) ==> est.peer == peer && est.rtt == rtt && est.keys == spec_session_keys(
            est.ask0@,
            est.ask1@,
            initiator,
        ),
        r matches Err(e) ==> e == HandshakeError::NoiseFailure,
{
    let mut noise = noise;
    match initialize_ask(&mut noise, ASK_LABEL) {
        Ok(()) => {},
        Err(_) => {
            return Err(HandshakeError::NoiseFailure);
        },
    }
    let (ask0, ask1) = match finalize_ask(&mut noise, ASK_LABEL) {
        Ok(asks) => asks,
        Err(_) => {
            return Err(HandshakeError::NoiseFailure);
        },
    };
    let keys = session_keys(&ask0, &ask1, initiator);
    match into_transport_mode(noise) {
        Ok(noise) => Ok(Established { noise, ask0, ask1, keys, peer, rtt }),
        Err(_) => Err(HandshakeError::NoiseFailure),
    }
}

//
// The initiator
//
/// Whether an address says all that the initiator has to know: that the
/// router speaks the version that is spoken here, its static key and its
/// initialisation vector.
pub open spec fn spec_ntcp2_usable(v: RouterAddressView) -> bool {
    &&& spec_lookup(v.options, encode_utf8(NTCP2_OPT_V@)) matches Some(versions)
        && spec_split_commas(decode_utf8(versions)).contains(NTCP2_VERSION@)
    &&& spec_lookup(v.options, encode_utf8(NTCP2_OPT_S@)) is Some
    &&& spec_lookup(v.options, encode_utf8(NTCP2_OPT_I@)) is Some
}

/// Whether `version` is among `versions`.
fn has_version(versions: &Vec<I2PString>, version: &str) -> (r: bool)
    ensures
        r == versions@.map_values(|s: I2PString| s.0@).contains(version@),
{
    let wanted = String::from_str(version);
    let ghost all = versions@.map_values(|s: I2PString| s.0@);
    let mut i: usize = 0;
    while i < versions.len()
        invariant
            i <= versions@.len(),
            wanted@ == version@,
            all == versions@.map_values(|s: I2PString| s.0@),
            forall|j: int| 0 <= j < i ==> all[j] != version@,
        decreases versions@.len() - i,
    {
        if versions[i].0 == wanted {
            assert(all[i as int] == version@);
            return true;
        }
        i += 1;
    }
    false
}

/// Whether an address says all that the initiator has to know.
pub fn ntcp2_usable(ra: &RouterAddress) -> (r: bool)
    ensures
        r == spec_ntcp2_usable(ra@),
{
    match ra.option(&I2PString::new(NTCP2_OPT_V)) {
        Some(v) => {
            let versions = v.to_csv();
            proof {
                vstd::utf8::encode_utf8_decode_utf8(v.0@);
                assert(versions@.map_values(|s: I2PString| s.0@) =~= spec_split_commas(v.0@));
            }
            if !has_version(&versions, NTCP2_VERSION) {
                return false;
            }
        },
        None => {
            return false;
        },
    }
    ra.option(&I2PString::new(NTCP2_OPT_S)).is_some() && ra.option(
        &I2PString::new(NTCP2_OPT_I),
    ).is_some()
}

/// The address at `j` is one of the given style with an IPv4 endpoint
/// that says all that the initiator has to know.
pub open spec fn spec_usable_at(peer: &RouterInfo, style: Seq<u8>, j: int) -> bool {
    &&& 0 <= j < peer.spec_addresses().len()
    &&& peer.spec_candidate(style, j)
    &&& spec_ntcp2_usable(peer.spec_addresses()[j]@)
}

/// The address at `j` is the first such address.
pub open spec fn spec_first_usable(peer: &RouterInfo, style: Seq<u8>, j: int) -> bool {
    &&& spec_usable_at(peer, style, j)
    &&& forall|k: int| 0 <= k < j ==> !spec_usable_at(peer, style, k)
}

/// There is such an address.
pub open spec fn spec_has_usable(peer: &RouterInfo, style: Seq<u8>) -> bool {
    exists|j: int| spec_usable_at(peer, style, j)
}

/// The address at `j` is the one that the initiator dials: the first
/// usable address of this transport, or else the first usable address of
/// the first TCP transport.
pub open spec fn spec_selected(peer: &RouterInfo, j: int) -> bool {
    ||| spec_first_usable(peer, encode_utf8(NTCP2_STYLE@), j)
    ||| (!spec_has_usable(peer, encode_utf8(NTCP2_STYLE@)) && spec_first_usable(
        peer,
        encode_utf8(NTCP_STYLE@),
        j,
    ))
}

/// The first usable address of the given style.
fn first_usable(peer: &RouterInfo, style: &I2PString) -> (r: Option<RouterAddress>)
    ensures
        match r {
            Some(ra) => exists|j: int|
                spec_first_usable(peer, style@, j) && ra@ == (#[trigger] peer.spec_addresses()[j])@,
            None => !spec_has_usable(peer, style@),
        },
{
    let filter = |ra: &RouterAddress| -> (b: bool)
        ensures
            b == spec_ntcp2_usable(ra@),
        { ntcp2_usable(ra) };
    let r = peer.address(style, filter);
    proof {
        match &r {
            Some(ra) => {
                let j = choose|j: int|
                    0 <= j < peer.spec_addresses().len() && ra@ == (
                    #[trigger] peer.spec_addresses()[j])@ && peer.spec_candidate(style@, j)
                        && filter.ensures((&peer.spec_addresses()[j],), true) && forall|k: int|
                        0 <= k < j && peer.spec_candidate(style@, k) ==> filter.ensures(
                            (&#[trigger] peer.spec_addresses()[k],),
                            false,
                        );
                assert(spec_first_usable(peer, style@, j));
            },
            None => {
                assert forall|j: int| !spec_usable_at(peer, style@, j) by {
                    if 0 <= j < peer.spec_addresses().len() && peer.spec_candidate(style@, j) {
                        assert(filter.ensures((&peer.spec_addresses()[j],), false));
                    }
                }
            },
        }
    }
    r
}

/// The address that the initiator dials.
pub fn select_address(peer: &RouterInfo) -> (r: Option<RouterAddress>)
    ensures
        match r {
            Some(ra) => exists|j: int|
                spec_selected(peer, j) && ra@ == (#[trigger] peer.spec_addresses()[j])@,
            None => !spec_has_usable(peer, encode_utf8(NTCP2_STYLE@)) && !spec_has_usable(
                peer,
                encode_utf8(NTCP_STYLE@),
            ),
        },
{
    match first_usable(peer, &I2PString::new(NTCP2_STYLE)) {
        Some(ra) => Some(ra),
        None => first_usable(peer, &I2PString::new(NTCP_STYLE)),
    }
}

/// The key that an option of an address holds in the base64 of I2P, where
/// it is one of `len` bytes.
pub open spec fn spec_decode_key(value: Seq<u8>, len: nat) -> Option<Seq<u8>> {
    match crate::constants::spec_i2p_base64_decode(value) {
        Some(key) => if key.len() == len {
            Some(key)
        } else {
            None
        },
        None => None,
    }
}

/// Reads a key of `len` bytes from an option of an address.
pub fn decode_key(value: &I2PString, len: usize) -> (r: Option<Vec<u8>>)
    ensures
        match r {
            Some(key) => spec_decode_key(value@, len as nat) == Some(key@),
            None => spec_decode_key(value@, len as nat) is None,
        },
{
    match crate::constants::i2p_base64_decode(value.0.as_str().as_bytes()) {
        Some(key) => {
            if key.len() == len {
                Some(key)
            } else {
                None
            }
        },
        None => None,
    }
}

/// What the initiator takes from the address of the other router.
pub struct PeerKeys {
    /// The endpoint to dial.
    pub addr: SocketAddr,
    /// The static key of the other router.
    pub static_key: Vec<u8>,
    /// The initialisation vector with which to obscure the first key.
    pub iv: [u8; 16],
}

/// The endpoint, the static key of 32 bytes and the initialisation vector
/// of 16 bytes that an address names, where it names them all.
pub open spec fn spec_address_keys(v: RouterAddressView) -> Option<(SocketAddr, Seq<u8>, Seq<u8>)> {
    match (
        v.addr(),
        spec_lookup(v.options, encode_utf8(NTCP2_OPT_S@)),
        spec_lookup(v.options, encode_utf8(NTCP2_OPT_I@)),
    ) {
        (Some(addr), Some(s), Some(i)) => match (spec_decode_key(s, 32), spec_decode_key(i, 16)) {
            (Some(key), Some(iv)) => Some((addr, key, iv)),
            _ => None,
        },
        _ => None,
    }
}

/// Reads endpoint, static key and initialisation vector from an address.
pub fn address_keys(ra: &RouterAddress) -> (r: Option<PeerKeys>)
    ensures
        match r {
            Some(keys) => spec_address_keys(ra@) == Some((keys.addr, keys.static_key@, keys.iv@)),
            None => spec_address_keys(ra@) is None,
        },
{
    let addr = match ra.addr() {
        Some(addr) => addr,
        None => {
            return None;
        },
    };
    let static_key = match ra.option(&I2PString::new(NTCP2_OPT_S)) {
        Some(val) => match decode_key(val, 32) {
            Some(key) => key,
            None => {
                return None;
            },
        },
        None => {
            return None;
        },
    };
    let iv: [u8; 16] = match ra.option(&I2PString::new(NTCP2_OPT_I)) {
        Some(val) => match decode_key(val, 16) {
            Some(iv) => {
                let array: [u8; 16] = crate::bytes::to_array(iv.as_slice());
                assert(array@ =~= iv@);
                array
            },
            None => {
                return None;
            },
        },
        None => {
            return None;
        },
    };
    Some(PeerKeys { addr, static_key, iv })
}

/// There is at most one address that the initiator dials.
pub proof fn lemma_selected_unique(peer: &RouterInfo, j: int, k: int)
    requires
        spec_selected(peer, j),
        spec_selected(peer, k),
    ensures
        j == k,
{
    let ntcp2 = encode_utf8(NTCP2_STYLE@);
    let ntcp = encode_utf8(NTCP_STYLE@);
    if spec_first_usable(peer, ntcp2, j) {
        assert(spec_usable_at(peer, ntcp2, j));
        assert(spec_has_usable(peer, ntcp2));
        assert(spec_first_usable(peer, ntcp2, k));
    } else {
        if spec_first_usable(peer, ntcp2, k) {
            assert(spec_usable_at(peer, ntcp2, k));
            assert(spec_has_usable(peer, ntcp2));
        }
        assert(spec_first_usable(peer, ntcp, j));
        assert(spec_first_usable(peer, ntcp, k));
    }
}

/// Where the initiator stands.
#[derive(Clone, Copy, Debug, PartialEq, Eq, Structural)]
pub enum OBHandshakeState {
    /// Waiting for the connection.
    Connecting,
    /// Waiting for the first message to be written.
    SessionRequest,
    /// Waiting for the second message.
    SessionCreated,
    /// Waiting for the padding of the second message.
    SessionCreatedPadding,
    /// Waiting for the third message to be written.
    SessionConfirmed,
    /// Finished, with a session or with an error.
    Done,
}

/// The initiator's side of a handshake.
pub struct OBHandshake {
    noise: Option<Session>,
    sc_buf: Vec<u8>,
    sc_len: usize,
    padlen: usize,
    sent_at: u64,
    rtt: u64,
    state: OBHandshakeState,
}

/// The other router publishes an address to dial that names its keys.
pub open spec fn spec_peer_in_order(peer: &RouterInfo) -> bool {
    exists|j: int|
        spec_selected(peer, j) && spec_address_keys((#[trigger] peer.spec_addresses()[j])@)
            is Some
}

/// All that the initiator needs before it writes its own router info is
/// in order: the address and the keys of the other router, the identity of
/// the other router, from which a key is derived, and the own static key.
pub open spec fn spec_keys_in_order(static_key: Seq<u8>, peer: &RouterInfo) -> bool {
    &&& spec_peer_in_order(peer)
    &&& static_key.len() <= 32
    &&& peer@.router_id.wf()
}

impl OBHandshake {
    /// A handshake that has not ended holds its Noise session; the second
    /// part of the third message is its plaintext and a tag, and fits the
    /// transport.
    #[verifier::type_invariant]
    spec fn inv(self) -> bool {
        &&& self.state != OBHandshakeState::Done ==> self.noise is Some
        &&& self.sc_buf@.len() <= NTCP2_MTU - 16
        &&& self.sc_len == self.sc_buf@.len() + 16
        &&& self.padlen <= 0xffff
    }

    pub closed spec fn spec_state(&self) -> OBHandshakeState {
        self.state
    }

    /// Whether the handshake holds a Noise session.
    pub closed spec fn spec_holds_session(&self) -> bool {
        self.noise is Some
    }

    /// The length of the second part of the third message: its plaintext
    /// and a tag of 16 bytes.
    pub closed spec fn spec_sc_len(&self) -> usize {
        self.sc_len
    }

    /// The plaintext of the third message.
    pub closed spec fn spec_sc_buf(&self) -> Seq<u8> {
        self.sc_buf@
    }

    /// The length that the second message gave for its padding.
    pub closed spec fn spec_padlen(&self) -> usize {
        self.padlen
    }

    /// The number of bytes that the initiator waits for, where it waits
    /// for bytes.
    pub open spec fn spec_expected(&self) -> Option<int> {
        match self.spec_state() {
            OBHandshakeState::SessionCreated => Some(SESSION_CREATED_CT_LEN as int),
            OBHandshakeState::SessionCreatedPadding => Some(self.spec_padlen() as int),
            _ => None,
        }
    }

    /// The initiator waits for bytes and the event brings as many.
    pub open spec fn spec_gets_bytes(&self, event: Event) -> bool {
        &&& self.spec_expected() is Some
        &&& event is Read
        &&& event->Read_0@.len() == self.spec_expected()->Some_0
    }

    /// The initiator waits for bytes and the connection ends, or the event
    /// brings another number of bytes.
    pub open spec fn spec_gets_too_little(&self, event: Event) -> bool {
        &&& self.spec_expected() is Some
        &&& (event is Eof || (event is Read && event->Read_0@.len()
            != self.spec_expected()->Some_0))
    }

    /// The event is none that the initiator waits for: it has ended, or
    /// waits for bytes, for the connection or for its message to be
    /// written, and is told of something else.
    pub open spec fn spec_gets_other(&self, event: Event) -> bool {
        ||| self.spec_state() == OBHandshakeState::Done
        ||| (self.spec_expected() is Some && (event is Connected || event is Written))
        ||| (self.spec_state() == OBHandshakeState::Connecting && !(event is Connected))
        ||| ((self.spec_state() == OBHandshakeState::SessionRequest || self.spec_state()
            == OBHandshakeState::SessionConfirmed) && !(event is Written))
    }

    /// An initiator with the given static key and router info that talks
    /// to the router of `peer_ri`, and the endpoint to dial.
    ///
    /// Fails, in this order,
    /// - with `NoNtcp2Address` exactly where the other router publishes no
    ///   usable address;
    /// - with `InvalidKey` exactly where the address to dial does not hold
    ///   the keys, the own static key is longer than 32 bytes, or the
    ///   identity of the other router cannot be written, so that no key
    ///   can be derived from it;
    /// - with `InvalidRouterInfo` exactly where the own router info is not
    ///   signed or cannot be written;
    /// - with `MessageTooLarge` where the own router info and the padding,
    ///   which is chosen at random below 16 bytes, leave no room in the
    ///   third message: always where the router info alone is too long,
    ///   never where it is with 15 bytes more;
    /// - with `NoiseFailure` where the Noise session cannot be built.
    #[verifier::rlimit(60)]
    pub fn new(static_key: &[u8], own_ri: &RouterInfo, peer_ri: &RouterInfo) -> (r: Result<
        (OBHandshake, SocketAddr),
        HandshakeError,
    >)
        ensures
            r matches Err(HandshakeError::NoNtcp2Address) <==> !spec_has_usable(
                peer_ri,
                encode_utf8(NTCP2_STYLE@),
            ) && !spec_has_usable(peer_ri, encode_utf8(NTCP_STYLE@)),
            r matches Err(HandshakeError::InvalidKey) <==> exists|j: int|
                spec_selected(peer_ri, j) && (spec_address_keys(
                    (#[trigger] peer_ri.spec_addresses()[j])@,
                ) is None || static_key@.len() > 32 || !peer_ri@.router_id.wf()),
            r matches Err(HandshakeError::InvalidRouterInfo) <==> spec_keys_in_order(
                static_key@,
                peer_ri,
            ) && !(own_ri@.wf() && own_ri@.signature is Some),
            spec_keys_in_order(static_key@, peer_ri) && own_ri@.wf() && own_ri@.signature is Some
                && crate::data::frame::spec_gen_router_info(own_ri@).len() > NTCP2_MTU - 16 ==> r
                matches Err(HandshakeError::MessageTooLarge),
            r matches Err(HandshakeError::MessageTooLarge) ==> spec_keys_in_order(
                static_key@,
                peer_ri,
            ) && own_ri@.wf() && own_ri@.signature is Some
                && crate::data::frame::spec_gen_router_info(own_ri@).len() + 15 > NTCP2_MTU - 16,
            r matches Err(HandshakeError::NoiseFailure) ==> spec_keys_in_order(
                static_key@,
                peer_ri,
            ) && own_ri@.wf() && own_ri@.signature is Some
                && crate::data::frame::spec_gen_router_info(own_ri@).len() <= NTCP2_MTU - 16,
            r matches Err(e) ==> e == HandshakeError::NoNtcp2Address || e
                == HandshakeError::InvalidKey || e == HandshakeError::InvalidRouterInfo || e
                == HandshakeError::MessageTooLarge || e == HandshakeError::NoiseFailure,
            r matches Ok((hs, addr)) ==> {
                &&& hs.spec_state() == OBHandshakeState::Connecting
                &&& hs.spec_holds_session()
                &&& hs.spec_sc_len() == hs.spec_sc_buf().len() + 16
                &&& own_ri@.wf() && own_ri@.signature is Some
                &&& exists|padding: Seq<u8>|
                    padding.len() < 16 && #[trigger] spec_session_confirmed_payload(
                        own_ri@,
                        padding,
                    ) == Ok::<Seq<u8>, HandshakeError>(hs.spec_sc_buf())
                &&& spec_keys_in_order(static_key@, peer_ri)
                &&& exists|j: int|
                    spec_selected(peer_ri, j) && spec_address_keys(
                        (#[trigger] peer_ri.spec_addresses()[j])@,
                    ) is Some && spec_address_keys(peer_ri.spec_addresses()[j]@)->Some_0.0 == addr
            },
    {
        let ra = match select_address(peer_ri) {
            Some(ra) => ra,
            None => {
                proof {
                    assert forall|j: int| !spec_selected(peer_ri, j) by {
                        if spec_selected(peer_ri, j) {
                            if spec_first_usable(peer_ri, encode_utf8(NTCP2_STYLE@), j) {
                                assert(spec_usable_at(peer_ri, encode_utf8(NTCP2_STYLE@), j));
                            } else {
                                assert(spec_usable_at(peer_ri, encode_utf8(NTCP_STYLE@), j));
                            }
                        }
                    }
                }
                return Err(HandshakeError::NoNtcp2Address);
            },
        };
        let ghost chosen = choose|j: int|
            spec_selected(peer_ri, j) && ra@ == (#[trigger] peer_ri.spec_addresses()[j])@;
        proof {
            assert forall|k: int| spec_selected(peer_ri, k) implies k == chosen by {
                lemma_selected_unique(peer_ri, k, chosen);
            }
            if spec_first_usable(peer_ri, encode_utf8(NTCP2_STYLE@), chosen) {
                assert(spec_usable_at(peer_ri, encode_utf8(NTCP2_STYLE@), chosen));
            } else {
                assert(spec_usable_at(peer_ri, encode_utf8(NTCP_STYLE@), chosen));
            }
        }
        let keys = match address_keys(&ra) {
            Some(keys) => keys,
            None => {
                return Err(HandshakeError::InvalidKey);
            },
        };
        if static_key.len() > 32 || !peer_ri.router_id().is_wf() {
            return Err(HandshakeError::InvalidKey);
        }
        assert(spec_keys_in_order(static_key@, peer_ri));
        if !own_ri.is_wf() || own_ri.signature().is_none() {
            return Err(HandshakeError::InvalidRouterInfo);
        }
        let addr = keys.addr;
        let remote_key = keys.static_key;
        let aesobfse_iv = keys.iv;
        let aesobfse_key = peer_ri.router_id().hash().0;
        let sc_padlen = thread_random_range(0, 16);
        let padding = thread_random_bytes(sc_padlen as usize);
        let sc_buf = match session_confirmed_payload(own_ri, padding.as_slice()) {
            Ok(buf) => buf,
            Err(e) => {
                return Err(e);
            },
        };
        let sc_len = sc_buf.len() + 16;
        let noise = match build_initiator(
            NTCP2_NOISE_PROTOCOL_NAME,
            static_key,
            remote_key.as_slice(),
            aesobfse_key.as_slice(),
            &aesobfse_iv,
        ) {
            Ok(noise) => noise,
            Err(_) => {
                return Err(HandshakeError::NoiseFailure);
            },
        };
        Ok(
            (
                OBHandshake {
                    noise: Some(noise),
                    sc_buf,
                    sc_len,
                    padlen: 0,
                    sent_at: 0,
                    rtt: 0,
                    state: OBHandshakeState::Connecting,
                },
                addr,
            ),
        )
    }

    pub fn state(&self) -> (s: OBHandshakeState)
        ensures
            s == self.spec_state(),
    {
        self.state
    }

    /// Takes the handshake one step further.
    ///
    /// A connection that ends and bytes that are not as many as asked for
    /// give `IncompleteHandshake`, an event that the initiator does not
    /// wait for gives `UnexpectedEvent`, and neither comes otherwise. Told
    /// that its first message is written, the initiator asks for the
    /// second. Else it goes on as the Noise session and the plaintext
    /// allow: what the session refuses gives `NoiseFailure`, and the
    /// plaintext of the second message may give `ParseError`.
    ///
    /// Every error ends the handshake, and a handshake that has ended
    /// holds no Noise session any more. Else the connection leads to the
    /// first message, the first message to the second, the second to its
    /// padding, the padding to the third message, and the third message to
    /// the session, whose keys are those that the two additional symmetric
    /// keys hold for the initiator.
    #[verifier::rlimit(60)]
    pub fn step(&mut self, event: Event) -> (r: Result<Action, HandshakeError>)
        ensures
            r matches Err(HandshakeError::IncompleteHandshake) <==> old(self).spec_gets_too_little(
                event,
            ),
            r matches Err(HandshakeError::UnexpectedEvent) <==> old(self).spec_gets_other(event),
            old(self).spec_state() == OBHandshakeState::SessionRequest && event is Written ==> r
                is Ok,
            r matches Err(e) ==> match e {
                HandshakeError::IncompleteHandshake => true,
                HandshakeError::UnexpectedEvent => true,
                HandshakeError::NoiseFailure => {
                    ||| old(self).spec_gets_bytes(event)
                    ||| (old(self).spec_state() == OBHandshakeState::Connecting
                        && event is Connected)
                    ||| (old(self).spec_state() == OBHandshakeState::SessionConfirmed
                        && event is Written)
                },
                HandshakeError::ParseError => {
                    &&& old(self).spec_gets_bytes(event)
                    &&& old(self).spec_state() == OBHandshakeState::SessionCreated
                    &&& spec_created_refused(SESSION_CREATED_CT_LEN as int, e)
                },
                _ => false,
            },
            r is Err ==> final(self).spec_state() == OBHandshakeState::Done,
            final(self).spec_state() == OBHandshakeState::Done
                ==> !final(self).spec_holds_session(),
            final(self).spec_state() != OBHandshakeState::Done ==> final(self).spec_holds_session(),
            r matches Ok(a) ==> match old(self).spec_state() {
                OBHandshakeState::Connecting => {
                    &&& a matches Action::Write(m) && SESSION_REQUEST_CT_LEN <= m@.len()
                        < SESSION_REQUEST_CT_LEN + 16
                    &&& final(self).spec_state() == OBHandshakeState::SessionRequest
                },
                OBHandshakeState::SessionRequest => {
                    &&& a matches Action::Read(n) && n == SESSION_CREATED_CT_LEN
                    &&& final(self).spec_state() == OBHandshakeState::SessionCreated
                },
                OBHandshakeState::SessionCreated => {
                    &&& a matches Action::Read(n) && n == final(self).spec_padlen()
                    &&& final(self).spec_padlen() <= 0xffff
                    &&& spec_created_accepted(
                        SESSION_CREATED_CT_LEN as int,
                        final(self).spec_padlen() as int,
                    )
                    &&& final(self).spec_state() == OBHandshakeState::SessionCreatedPadding
                },
                OBHandshakeState::SessionCreatedPadding => {
                    &&& a matches Action::Write(m) && m@.len() == old(self).spec_sc_len()
                        + SESSION_CONFIRMED_KEY_LEN
                    &&& final(self).spec_state() == OBHandshakeState::SessionConfirmed
                },
                OBHandshakeState::SessionConfirmed => {
                    &&& a matches Action::Done(est) && est.peer is None && est.keys
                        == spec_session_keys(est.ask0@, est.ask1@, true)
                    &&& final(self).spec_state() == OBHandshakeState::Done
                },
                OBHandshakeState::Done => false,
            },
            r is Ok ==> final(self).spec_sc_len() == old(self).spec_sc_len(),
            r is Ok ==> final(self).spec_sc_buf() == old(self).spec_sc_buf(),
    {
        proof {
            use_type_invariant(&*self);
        }
        let state = self.state;
        self.state = OBHandshakeState::Done;
        let mut taken: Option<Session> = None;
        std::mem::swap(&mut self.noise, &mut taken);
        if let OBHandshakeState::Done = state {
            return Err(HandshakeError::UnexpectedEvent);
        }
        match state {
            OBHandshakeState::Connecting => {
                match event {
                    Event::Connected => {},
                    _ => {
                        return Err(HandshakeError::UnexpectedEvent);
                    },
                }
            },
            OBHandshakeState::SessionRequest => {
                match event {
                    Event::Written => {},
                    _ => {
                        return Err(HandshakeError::UnexpectedEvent);
                    },
                }
                self.noise = taken;
                self.state = OBHandshakeState::SessionCreated;
                return Ok(Action::Read(SESSION_CREATED_CT_LEN));
            },
            OBHandshakeState::SessionConfirmed => {
                match event {
                    Event::Written => {},
                    _ => {
                        return Err(HandshakeError::UnexpectedEvent);
                    },
                }
            },
            _ => {},
        }
        let mut noise = match taken {
            Some(noise) => noise,
            None => {
                assert(false);
                return Err(HandshakeError::NoiseFailure);
            },
        };
        match state {
            OBHandshakeState::Connecting => {
                let padlen = thread_random_range(0, 16);
                let padding = thread_random_bytes(padlen as usize);
                let (secs, nanos) = clock_now();
                self.sent_at = I2PDate::from_duration_parts(secs, nanos).0;
                let plaintext = session_request_plaintext(padlen, self.sc_len as u16, secs, nanos);
                proof {
                    lemma_session_request_roundtrip(
                        SessionRequest {
                            version: 2,
                            padlen,
                            sclen: self.sc_len as u16,
                            ts_a: spec_timestamp(secs, nanos),
                        },
                    );
                }
                let message = match write_session_request(
                    &*self,
                    &mut noise,
                    plaintext.as_slice(),
                    padding.as_slice(),
                ) {
                    Ok(m) => m,
                    Err(e) => {
                        return Err(e);
                    },
                };
                self.noise = Some(noise);
                self.state = OBHandshakeState::SessionRequest;
                Ok(Action::Write(message))
            },
            OBHandshakeState::SessionConfirmed => {
                match establish(noise, true, None, self.rtt) {
                    Ok(est) => Ok(Action::Done(est)),
                    Err(e) => Err(e),
                }
            },
            _ => {
                let expected = match state {
                    OBHandshakeState::SessionCreated => SESSION_CREATED_CT_LEN,
                    _ => self.padlen,
                };
                let bytes = match event {
                    Event::Read(bytes) => bytes,
                    Event::Eof => {
                        return Err(HandshakeError::IncompleteHandshake);
                    },
                    _ => {
                        return Err(HandshakeError::UnexpectedEvent);
                    },
                };
                if bytes.len() != expected {
                    return Err(HandshakeError::IncompleteHandshake);
                }
                match state {
                    OBHandshakeState::SessionCreated => {
                        let m = match read_session_created(&mut noise, bytes.as_slice()) {
                            Ok(m) => m,
                            Err(e) => {
                                return Err(e);
                            },
                        };
                        self.rtt = millis_now().saturating_sub(self.sent_at);
                        self.padlen = m.padlen as usize;
                        self.noise = Some(noise);
                        self.state = OBHandshakeState::SessionCreatedPadding;
                        Ok(Action::Read(self.padlen))
                    },
                    _ => {
                        let message = match write_session_confirmed(
                            &*self,
                            &mut noise,
                            bytes.as_slice(),
                            self.sc_buf.as_slice(),
                        ) {
                            Ok(m) => m,
                            Err(e) => {
                                return Err(e);
                            },
                        };
                        if message.len() != self.sc_len + SESSION_CONFIRMED_KEY_LEN {
                            return Err(HandshakeError::NoiseFailure);
                        }
                        self.noise = Some(noise);
                        self.state = OBHandshakeState::SessionConfirmed;
                        Ok(Action::Write(message))
                    },
                }
            },
        }
    }
}

/// Has the session write the first message of the handshake `hs` from the
/// plaintext, which announces version 2, the padding and the length of the
/// second part of the third message of `hs`; puts the padding behind the
/// message and mixes it into the handshake hash. What the session refuses
/// gives `NoiseFailure`.
fn write_session_request(
    hs: &OBHandshake,
    noise: &mut Session,
    plaintext: &[u8],
    padding: &[u8],
) -> (r: Result<Vec<u8>, HandshakeError>)
    requires
        padding@.len() < 16,
        plaintext@.len() == 16,
        spec_session_request(plaintext@) is Ok,
        spec_session_request(plaintext@)->Ok_0.0.version == 2,
        spec_session_request(plaintext@)->Ok_0.0.padlen == padding@.len(),
        spec_session_request(plaintext@)->Ok_0.0.sclen == hs.spec_sc_len(),
    ensures
        r matches Ok(m) ==> m@.len() == SESSION_REQUEST_CT_LEN + padding@.len() && m@.skip(
            SESSION_REQUEST_CT_LEN as int,
        ) == padding@,
        r matches Err(e) ==> e == HandshakeError::NoiseFailure,
{
    let mut out: Vec<u8> = vec![0u8; 256];
    let len = match write_message(noise, plaintext, &mut out) {
        Ok(len) => len,
        Err(_) => {
            return Err(HandshakeError::NoiseFailure);
        },
    };
    if len != SESSION_REQUEST_CT_LEN {
        return Err(HandshakeError::NoiseFailure);
    }
    match set_h_data(noise, 2, padding) {
        Ok(()) => {},
        Err(_) => {
            return Err(HandshakeError::NoiseFailure);
        },
    }
    let message = with_padding(out, len, padding);
    assert(message@.skip(SESSION_REQUEST_CT_LEN as int) =~= padding@);
    Ok(message)
}

/// Has the session read the second message and judges its plaintext. What
/// comes back is the verdict on a plaintext that is no longer than the
/// message, unless the session refuses the message.
fn read_session_created(noise: &mut Session, msg: &[u8]) -> (r: Result<
    SessionCreated,
    HandshakeError,
>)
    ensures
        match r {
            Ok(m) => spec_created_accepted(msg@.len() as int, m.padlen as int),
            Err(e) => e == HandshakeError::NoiseFailure || spec_created_refused(
                msg@.len() as int,
                e,
            ),
        },
{
    if is_handshake_finished(noise) {
        return Err(HandshakeError::NoiseFailure);
    }
    match read_message(noise, msg) {
        Ok(plaintext) => {
            let r = session_created_outcome(plaintext.as_slice());
            assert(plaintext@.len() <= msg@.len() && spec_session_created_outcome(plaintext@)
                == r);
            r
        },
        Err(_) => Err(HandshakeError::NoiseFailure),
    }
}

/// Mixes the padding of the second message into the handshake hash and has
/// the session write the third message of the handshake `hs` from the
/// payload, which is the plaintext that `hs` holds for it. A payload beyond
/// the size of the largest message is refused before the session sees
/// anything; a message holds at least its payload and is none too large
/// itself. What the session refuses gives `NoiseFailure`.
fn write_session_confirmed(
    hs: &OBHandshake,
    noise: &mut Session,
    padding: &[u8],
    payload: &[u8],
) -> (r: Result<Vec<u8>, HandshakeError>)
    requires
        payload@ == hs.spec_sc_buf(),
    ensures
        payload@.len() > NTCP2_MTU <==> r matches Err(HandshakeError::MessageTooLarge),
        r matches Ok(m) ==> payload@.len() <= m@.len() <= NTCP2_MTU,
        r matches Err(e) ==> e == HandshakeError::MessageTooLarge || e
            == HandshakeError::NoiseFailure,
{
    if payload.len() > NTCP2_MTU {
        return Err(HandshakeError::MessageTooLarge);
    }
    match set_h_data(noise, 3, padding) {
        Ok(()) => {},
        Err(_) => {
            return Err(HandshakeError::NoiseFailure);
        },
    }
    let mut out: Vec<u8> = vec![0u8; payload.len() + 144];
    match write_message(noise, payload, &mut out) {
        Ok(len) => {
            out.truncate(len);
            Ok(out)
        },
        Err(_) => Err(HandshakeError::NoiseFailure),
    }
}

} // verus!

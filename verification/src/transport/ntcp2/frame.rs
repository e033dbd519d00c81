//! The plaintexts of the three messages of the handshake.

use vstd::prelude::*;

use crate::data::frame::{
    be_u16, be_u32, gen_be_u16, gen_be_u32, gen_router_info, lemma_be_u16_roundtrip,
    lemma_be_u32_roundtrip, lemma_router_info_roundtrip, router_info, spec_be_u16, spec_be_u32,
    spec_gen_be_u16, spec_gen_be_u32, spec_gen_router_info, spec_router_info, ParseError,
};
use crate::data::{RouterInfo, RouterInfoView};

verus! {

/// The length of the plaintext of the first message.
pub const SESSION_REQUEST_PT_LEN: usize = 16;

/// The length of the plaintext of the second message.
pub const SESSION_CREATED_PT_LEN: usize = 16;

/// What the first message says: the version that the initiator speaks, the
/// length of the padding after the message, the length of the second part
/// of the third message, and the time of the initiator in seconds.
#[derive(Clone, Copy, Debug, PartialEq, Eq, Structural)]
pub struct SessionRequest {
    pub version: u8,
    pub padlen: u8,
    pub sclen: u16,
    pub ts_a: u32,
}

/// What the second message says: the length of the padding after the
/// message, and the time of the responder in seconds.
#[derive(Clone, Copy, Debug, PartialEq, Eq, Structural)]
pub struct SessionCreated {
    pub padlen: u16,
    pub ts_b: u32,
}

/// `n` zero bytes.
pub open spec fn spec_zeros(n: nat) -> Seq<u8> {
    Seq::new(n, |i: int| 0u8)
}

/// Reads the plaintext of the first message: version, padding length,
/// length of the third message, time, and eight bytes that are not looked
/// at.
pub open spec fn spec_session_request(s: Seq<u8>) -> Result<(SessionRequest, int), ParseError> {
    if s.len() < 16 {
        Err(ParseError::Incomplete)
    } else {
        Ok(
            (
                SessionRequest {
                    version: s[0],
                    padlen: s[1],
                    sclen: spec_be_u16(s.skip(2))->Ok_0.0,
                    ts_a: spec_be_u32(s.skip(4))->Ok_0.0,
                },
                16,
            ),
        )
    }
}

/// The plaintext of the first message.
pub open spec fn spec_gen_session_request(m: SessionRequest) -> Seq<u8> {
    seq![m.version, m.padlen] + spec_gen_be_u16(m.sclen) + spec_gen_be_u32(m.ts_a) + spec_zeros(8)
}

/// Reads the plaintext of the second message: four bytes that are not
/// looked at, padding length, time, and six more such bytes.
pub open spec fn spec_session_created(s: Seq<u8>) -> Result<(SessionCreated, int), ParseError> {
    if s.len() < 16 {
        Err(ParseError::Incomplete)
    } else {
        Ok(
            (
                SessionCreated {
                    padlen: spec_be_u16(s.skip(4))->Ok_0.0,
                    ts_b: spec_be_u32(s.skip(6))->Ok_0.0,
                },
                16,
            ),
        )
    }
}

/// The plaintext of the second message.
pub open spec fn spec_gen_session_created(m: SessionCreated) -> Seq<u8> {
    spec_zeros(4) + spec_gen_be_u16(m.padlen) + spec_gen_be_u32(m.ts_b) + spec_zeros(6)
}

/// Reads the plaintext of the third message: a router info, after which
/// padding may follow.
pub open spec fn spec_session_confirmed(s: Seq<u8>) -> Result<(RouterInfoView, int), ParseError> {
    spec_router_info(s)
}

/// The plaintext of the third message.
pub open spec fn spec_gen_session_confirmed(ri: RouterInfoView, padding: Seq<u8>) -> Seq<u8> {
    spec_gen_router_info(ri) + padding
}

/// The plaintext of a first message is sixteen bytes, from which the
/// message is read back.
pub proof fn lemma_session_request_roundtrip(m: SessionRequest)
    ensures
        spec_gen_session_request(m).len() == 16,
        spec_session_request(spec_gen_session_request(m)) == Ok::<
            (SessionRequest, int),
            ParseError,
        >((m, 16)),
{
    let s = spec_gen_session_request(m);
    assert(s.skip(2) =~= spec_gen_be_u16(m.sclen) + (spec_gen_be_u32(m.ts_a) + spec_zeros(8)));
    lemma_be_u16_roundtrip(m.sclen, spec_gen_be_u32(m.ts_a) + spec_zeros(8));
    assert(s.skip(4) =~= spec_gen_be_u32(m.ts_a) + spec_zeros(8));
    lemma_be_u32_roundtrip(m.ts_a, spec_zeros(8));
}

/// The plaintext of a second message is sixteen bytes, from which the
/// message is read back.
pub proof fn lemma_session_created_roundtrip(m: SessionCreated)
    ensures
        spec_gen_session_created(m).len() == 16,
        spec_session_created(spec_gen_session_created(m)) == Ok::<
            (SessionCreated, int),
            ParseError,
        >((m, 16)),
{
    let s = spec_gen_session_created(m);
    assert(s.skip(4) =~= spec_gen_be_u16(m.padlen) + (spec_gen_be_u32(m.ts_b) + spec_zeros(6)));
    lemma_be_u16_roundtrip(m.padlen, spec_gen_be_u32(m.ts_b) + spec_zeros(6));
    assert(s.skip(6) =~= spec_gen_be_u32(m.ts_b) + spec_zeros(6));
    lemma_be_u32_roundtrip(m.ts_b, spec_zeros(6));
}

/// The router info of a third message is read back from its plaintext,
/// whatever the padding.
pub proof fn lemma_session_confirmed_roundtrip(ri: RouterInfoView, padding: Seq<u8>)
    requires
        ri.wf(),
        ri.signature is Some,
    ensures
        spec_session_confirmed(spec_gen_session_confirmed(ri, padding)) == Ok::<
            (RouterInfoView, int),
            ParseError,
        >((ri, spec_gen_router_info(ri).len() as int)),
{
    lemma_router_info_roundtrip(ri, padding);
}

/// Reads the plaintext of the first message.
pub fn session_request(input: &[u8]) -> (r: Result<(SessionRequest, usize), ParseError>)
    ensures
        match r {
            Ok((m, end)) => spec_session_request(input@) == Ok::<
                (SessionRequest, int),
                ParseError,
            >((m, end as int)),
            Err(e) => spec_session_request(input@) == Err::<(SessionRequest, int), ParseError>(e),
        },
{
    if input.len() < SESSION_REQUEST_PT_LEN {
        return Err(ParseError::Incomplete);
    }
    let version = input[0];
    let padlen = input[1];
    let sclen = match be_u16(input, 2) {
        Ok((v, _)) => v,
        Err(e) => {
            return Err(e);
        },
    };
    let ts_a = match be_u32(input, 4) {
        Ok((v, _)) => v,
        Err(e) => {
            return Err(e);
        },
    };
    Ok((SessionRequest { version, padlen, sclen, ts_a }, 16))
}

/// Writes the plaintext of the first message.
pub fn gen_session_request(m: &SessionRequest) -> (r: Vec<u8>)
    ensures
        r@ == spec_gen_session_request(*m),
        r@.len() == 16,
{
    let mut buf: Vec<u8> = Vec::with_capacity(16);
    buf.push(m.version);
    buf.push(m.padlen);
    gen_be_u16(&mut buf, m.sclen);
    gen_be_u32(&mut buf, m.ts_a);
    let mut i: usize = 0;
    let ghost start = buf@;
    while i < 8
        invariant
            i <= 8,
            buf@ == start + spec_zeros(i as nat),
        decreases 8 - i,
    {
        buf.push(0);
        assert(buf@ =~= start + spec_zeros((i + 1) as nat));
        i += 1;
    }
    assert(buf@ =~= spec_gen_session_request(*m));
    buf
}

/// Reads the plaintext of the second message.
pub fn session_created(input: &[u8]) -> (r: Result<(SessionCreated, usize), ParseError>)
    ensures
        match r {
            Ok((m, end)) => spec_session_created(input@) == Ok::<
                (SessionCreated, int),
                ParseError,
            >((m, end as int)),
            Err(e) => spec_session_created(input@) == Err::<(SessionCreated, int), ParseError>(e),
        },
{
    if input.len() < SESSION_CREATED_PT_LEN {
        return Err(ParseError::Incomplete);
    }
    let padlen = match be_u16(input, 4) {
        Ok((v, _)) => v,
        Err(e) => {
            return Err(e);
        },
    };
    let ts_b = match be_u32(input, 6) {
        Ok((v, _)) => v,
        Err(e) => {
            return Err(e);
        },
    };
    Ok((SessionCreated { padlen, ts_b }, 16))
}

/// Writes the plaintext of the second message.
pub fn gen_session_created(m: &SessionCreated) -> (r: Vec<u8>)
    ensures
        r@ == spec_gen_session_created(*m),
        r@.len() == 16,
{
    let mut buf: Vec<u8> = Vec::with_capacity(16);
    let mut i: usize = 0;
    while i < 4
        invariant
            i <= 4,
            buf@ == spec_zeros(i as nat),
        decreases 4 - i,
    {
        buf.push(0);
        assert(buf@ =~= spec_zeros((i + 1) as nat));
        i += 1;
    }
    gen_be_u16(&mut buf, m.padlen);
    gen_be_u32(&mut buf, m.ts_b);
    let ghost start = buf@;
    let mut j: usize = 0;
    while j < 6
        invariant
            j <= 6,
            buf@ == start + spec_zeros(j as nat),
        decreases 6 - j,
    {
        buf.push(0);
        assert(buf@ =~= start + spec_zeros((j + 1) as nat));
        j += 1;
    }
    assert(buf@ =~= spec_gen_session_created(*m));
    buf
}

/// Reads the plaintext of the third message.
pub fn session_confirmed(input: &[u8]) -> (r: Result<(RouterInfo, usize), ParseError>)
    ensures
        match r {
            Ok((ri, end)) => spec_session_confirmed(input@) == Ok::<
                (RouterInfoView, int),
                ParseError,
            >((ri@, end as int)) && end <= input@.len() && ri@.wf(),
            Err(e) => spec_session_confirmed(input@) == Err::<(RouterInfoView, int), ParseError>(e),
        },
{
    assert(input@.skip(0) =~= input@);
    router_info(input, 0)
}

/// Writes the plaintext of the third message.
pub fn gen_session_confirmed(ri: &RouterInfo, padding: &[u8]) -> (r: Vec<u8>)
    requires
        ri@.wf(),
        ri@.signature is Some,
    ensures
        r@ == spec_gen_session_confirmed(ri@, padding@),
{
    let mut buf: Vec<u8> = Vec::new();
    gen_router_info(&mut buf, ri);
    buf.extend_from_slice(padding);
    assert(buf@ =~= spec_gen_session_confirmed(ri@, padding@));
    buf
}

} // verus!

//! Wire format of the batches that flow between pipeline stages over a
//! stream: a fixed header (source stage, batch id, token count, payload
//! length, authentication type), the authentication fields, then the
//! payload as little-endian 32-bit words (the bit patterns of the `f32`
//! activations).
//!
//! Frames are read from a stream, so decoding is incremental: the decoder
//! is handed the bytes received so far and either asks for more, refuses
//! the frame, or returns it with the number of bytes it took.

use vstd::prelude::*;
use vstd::bytes::{
    spec_u16_from_le_bytes, spec_u32_from_le_bytes, spec_u32_to_le_bytes, spec_u64_from_le_bytes,
    spec_u64_to_le_bytes, spec_u16_to_le_bytes, u16_from_le_bytes, u16_to_le_bytes,
    u32_from_le_bytes, u32_to_le_bytes, u64_from_le_bytes, u64_to_le_bytes,
};
use vstd::string::StringSliceAdditionalSpecFns;
use crate::crypto::{hmac_sha256, hmac_sha256_of};
use crate::text::append_bytes;
use crate::fmt::{decimal, push_decimal};
use crate::schedule::DeviceKind;

verus! {

/// Largest payload, in elements, a frame may declare (256 MB of `f32`).
pub const MAX_WIRE_PAYLOAD_ELEMS: usize = 67108864;

/// Length of the fixed header: stage (2), batch id (8), tokens (4),
/// payload length (4), authentication type (1).
pub const TRANSPORT_HEADER_LEN: usize = 19;

/// Authentication type byte: none.
pub const AUTH_NONE: u8 = 0;
/// Authentication type byte: HMAC-SHA256 tag over the batch.
pub const AUTH_HMAC: u8 = 1;
/// Authentication type byte: session id and generation counter.
pub const AUTH_SESSION: u8 = 2;

/// A batch of activations between two pipeline stages. Payload elements
/// are `f32` bit patterns.
#[derive(Clone, Debug, PartialEq, Eq)]
pub struct TransportBatch {
    pub batch_id: usize,
    pub tokens_in_batch: usize,
    pub payload: Vec<u32>,
}

/// Session-level authentication state of one connection: the agreed
/// session id, the next generation this side sends, and the highest
/// generation seen from the peer.
#[derive(Clone, Copy, Debug, PartialEq, Eq, Structural)]
pub struct SessionAuth {
    pub session_id: u64,
    pub seq: u64,
    pub peer_seq: u64,
}

/// The bytes of `session-id`, the message a session id is derived from.
pub open spec fn session_id_message() -> Seq<u8> {
    seq![0x73u8, 0x65u8, 0x73u8, 0x73u8, 0x69u8, 0x6fu8, 0x6eu8, 0x2du8, 0x69u8, 0x64u8]
}

/// The session id both ends of a bridge derive from a session token: the
/// first eight bytes of HMAC-SHA256 of `session-id` under the token, read
/// little-endian.
pub open spec fn session_id_of(token: Seq<u8>) -> u64 {
    spec_u64_from_le_bytes(hmac_sha256_of(token, session_id_message())@.subrange(0, 8))
}

impl SessionAuth {
    /// A fresh session for `token`: its derived id, nothing sent, nothing
    /// seen.
    pub fn from_token(token: &str) -> (a: SessionAuth)
        ensures
            a.session_id == session_id_of(token.spec_bytes()),
            a.seq == 0,
            a.peer_seq == 0,
    {
        let label: [u8; 10] = [0x73, 0x65, 0x73, 0x73, 0x69, 0x6f, 0x6e, 0x2d, 0x69, 0x64];
        let tag = hmac_sha256(token.as_bytes(), label.as_slice());
        let id_bytes = &tag[0..8];
        let session_id = u64_from_le_bytes(id_bytes);
        proof {
            assert(label@ =~= session_id_message());
            assert(tag@.subrange(0, 8) =~= id_bytes@);
        }
        SessionAuth { session_id, seq: 0, peer_seq: 0 }
    }
}

// ---------------------------------------------------------------------
// Byte images
// ---------------------------------------------------------------------

/// Payload words as little-endian bytes.
pub open spec fn payload_bytes(p: Seq<u32>) -> Seq<u8>
    decreases p.len(),
{
    if p.len() == 0 {
        Seq::empty()
    } else {
        payload_bytes(p.drop_last()) + spec_u32_to_le_bytes(p.last())
    }
}

/// Payload words read from little-endian bytes (whole words only).
pub open spec fn payload_words(b: Seq<u8>) -> Seq<u32> {
    Seq::new(b.len() / 4, |i: int| spec_u32_from_le_bytes(b.subrange(4 * i, 4 * i + 4)))
}

/// The header fields shared by every frame.
pub open spec fn header_prefix(source_stage: u16, batch_id: u64, tokens: u32, payload_len: u32, auth: u8) -> Seq<u8> {
    spec_u16_to_le_bytes(source_stage) + spec_u64_to_le_bytes(batch_id) + spec_u32_to_le_bytes(tokens)
        + spec_u32_to_le_bytes(payload_len) + seq![auth]
}

/// The message the HMAC tag of a batch covers.
pub open spec fn tag_message(source_stage: usize, batch_id: usize, tokens: usize, p: Seq<u32>) -> Seq<u8> {
    spec_u32_to_le_bytes(source_stage as u32) + spec_u64_to_le_bytes(batch_id as u64)
        + spec_u32_to_le_bytes(tokens as u32) + spec_u32_to_le_bytes(p.len() as u32) + payload_bytes(p)
}

/// The HMAC tag of a batch under `token`.
pub open spec fn batch_tag(source_stage: usize, batch_id: usize, tokens: usize, p: Seq<u32>, token: Seq<u8>) -> Seq<u8> {
    hmac_sha256_of(token, tag_message(source_stage, batch_id, tokens, p))@
}

/// Header of a batch sent without authentication (`token` absent) or
/// with an HMAC tag.
pub open spec fn frame_header(b: TransportBatch, source_stage: usize, token: Option<Seq<u8>>) -> Seq<u8> {
    let pre = |auth: u8| header_prefix(source_stage as u16, b.batch_id as u64, b.tokens_in_batch as u32, b.payload@.len() as u32, auth);
    match token {
        None => pre(AUTH_NONE),
        Some(t) => pre(AUTH_HMAC) + batch_tag(source_stage, b.batch_id, b.tokens_in_batch, b.payload@, t),
    }
}

/// Header of a batch sent under session authentication with generation
/// `generation`.
pub open spec fn session_frame_header(b: TransportBatch, source_stage: usize, session_id: u64, generation: u64) -> Seq<u8> {
    header_prefix(source_stage as u16, b.batch_id as u64, b.tokens_in_batch as u32, b.payload@.len() as u32, AUTH_SESSION)
        + spec_u64_to_le_bytes(session_id) + spec_u64_to_le_bytes(generation)
}

/// Append the payload words as little-endian bytes.
pub fn push_payload_bytes(buf: &mut Vec<u8>, payload: &[u32])
    ensures
        final(buf)@ == old(buf)@ + payload_bytes(payload@),
{
    let ghost start = buf@;
    let mut i: usize = 0;
    while i < payload.len()
        invariant
            i <= payload@.len(),
            buf@ == start + payload_bytes(payload@.subrange(0, i as int)),
        decreases payload@.len() - i,
    {
        let w = u32_to_le_bytes(payload[i]);
        append_bytes(buf, w.as_slice());
        proof {
            let q = payload@.subrange(0, i + 1);
            assert(q.drop_last() =~= payload@.subrange(0, i as int));
            assert(q.last() == payload@[i as int]);
        }
        i += 1;
    }
    proof {
        assert(payload@.subrange(0, payload@.len() as int) =~= payload@);
    }
}

/// Append the shared header fields.
fn push_header_prefix(buf: &mut Vec<u8>, source_stage: u16, batch_id: u64, tokens: u32, payload_len: u32, auth: u8)
    ensures
        final(buf)@ == old(buf)@ + header_prefix(source_stage, batch_id, tokens, payload_len, auth),
{
    let ghost start = buf@;
    let s = u16_to_le_bytes(source_stage);
    append_bytes(buf, s.as_slice());
    let b = u64_to_le_bytes(batch_id);
    append_bytes(buf, b.as_slice());
    let t = u32_to_le_bytes(tokens);
    append_bytes(buf, t.as_slice());
    let l = u32_to_le_bytes(payload_len);
    append_bytes(buf, l.as_slice());
    buf.push(auth);
    proof {
        assert(buf@ =~= start + header_prefix(source_stage, batch_id, tokens, payload_len, auth));
    }
}

/// The HMAC-SHA256 tag of a batch under `token`: over the source stage,
/// batch id, token count and payload length (32, 64, 32 and 32 bits,
/// little-endian, truncated), then the payload bytes.
pub fn auth_tag(source_stage: usize, batch_id: usize, tokens_in_batch: usize, payload: &[u32], token: &str) -> (tag: [u8; 32])
    ensures
        tag@ == batch_tag(source_stage, batch_id, tokens_in_batch, payload@, token.spec_bytes()),
{
    let mut msg: Vec<u8> = Vec::new();
    let s = u32_to_le_bytes(source_stage as u32);
    append_bytes(&mut msg, s.as_slice());
    let b = u64_to_le_bytes(batch_id as u64);
    append_bytes(&mut msg, b.as_slice());
    let t = u32_to_le_bytes(tokens_in_batch as u32);
    append_bytes(&mut msg, t.as_slice());
    let l = u32_to_le_bytes(payload.len() as u32);
    append_bytes(&mut msg, l.as_slice());
    push_payload_bytes(&mut msg, payload);
    proof {
        assert(msg@ =~= tag_message(source_stage, batch_id, tokens_in_batch, payload@));
    }
    hmac_sha256(token.as_bytes(), msg.as_slice())
}

/// Token bytes of an optional token.
pub open spec fn token_bytes_of(token: Option<&str>) -> Option<Seq<u8>> {
    match token {
        Some(t) => Some(t.spec_bytes()),
        None => None,
    }
}

/// Write the header of `batch` into `frame_buf` (replacing its contents):
/// with a token, the header ends with the batch's HMAC tag. The payload
/// follows it on the wire (see `push_payload_bytes`).
pub fn write_transport_header(batch: &TransportBatch, source_stage: usize, token: Option<&str>, frame_buf: &mut Vec<u8>)
    ensures
        final(frame_buf)@ == frame_header(*batch, source_stage, token_bytes_of(token)),
{
    frame_buf.clear();
    match token {
        None => {
            push_header_prefix(
                frame_buf,
                source_stage as u16,
                batch.batch_id as u64,
                batch.tokens_in_batch as u32,
                batch.payload.len() as u32,
                AUTH_NONE,
            );
        },
        Some(t) => {
            push_header_prefix(
                frame_buf,
                source_stage as u16,
                batch.batch_id as u64,
                batch.tokens_in_batch as u32,
                batch.payload.len() as u32,
                AUTH_HMAC,
            );
            let tag = auth_tag(source_stage, batch.batch_id, batch.tokens_in_batch, batch.payload.as_slice(), t);
            append_bytes(frame_buf, tag.as_slice());
        },
    }
}

/// Write the header of `batch` under session authentication into
/// `frame_buf` (replacing its contents), stamping it with the session's
/// next generation, which then advances (wrapping).
pub fn write_transport_header_session(
    batch: &TransportBatch,
    source_stage: usize,
    session: &mut SessionAuth,
    frame_buf: &mut Vec<u8>,
)
    ensures
        final(frame_buf)@ == session_frame_header(*batch, source_stage, old(session).session_id, old(session).seq),
        final(session).session_id == old(session).session_id,
        final(session).peer_seq == old(session).peer_seq,
        final(session).seq == (if old(session).seq == u64::MAX { 0 } else { old(session).seq + 1 }),
{
    frame_buf.clear();
    let generation = session.seq;
    session.seq = session.seq.wrapping_add(1);
    push_header_prefix(
        frame_buf,
        source_stage as u16,
        batch.batch_id as u64,
        batch.tokens_in_batch as u32,
        batch.payload.len() as u32,
        AUTH_SESSION,
    );
    let sid = u64_to_le_bytes(session.session_id);
    append_bytes(frame_buf, sid.as_slice());
    let g = u64_to_le_bytes(generation);
    append_bytes(frame_buf, g.as_slice());
}

// ---------------------------------------------------------------------
// Decoding
// ---------------------------------------------------------------------

/// Why a frame was refused.
#[derive(Clone, Copy, Debug, PartialEq, Eq, Structural)]
pub enum TransportError {
    /// The frame names another source stage.
    UnexpectedSourceStage,
    /// The declared payload length exceeds `MAX_WIRE_PAYLOAD_ELEMS`.
    PayloadTooLarge(usize),
    /// A session-authenticated frame arrived where no session exists.
    SessionRequired,
    /// The frame's session id is not this connection's.
    SessionIdMismatch,
    /// The frame's generation is below one already seen.
    NonMonotonicGeneration,
    /// An HMAC-tagged frame arrived where no token is configured.
    HmacWithoutToken,
    /// The HMAC tag does not match the batch.
    TagMismatch,
    /// An unauthenticated frame arrived where authentication is required.
    AuthRequired,
    /// The authentication type byte is unknown.
    UnknownAuthType,
}

/// Text of each transport error.
pub open spec fn transport_error_text(e: TransportError) -> Seq<char> {
    match e {
        TransportError::UnexpectedSourceStage => "unexpected source stage in transport frame"@,
        TransportError::PayloadTooLarge(n) => "wire payload length "@ + decimal(n as nat) + " exceeds maximum "@
            + decimal(MAX_WIRE_PAYLOAD_ELEMS as nat) + " (corrupted or cross-wired frame?)"@,
        TransportError::SessionRequired => "session auth required but no session established"@,
        TransportError::SessionIdMismatch => "session auth: session_id mismatch"@,
        TransportError::NonMonotonicGeneration => "session auth: non-monotonic generation"@,
        TransportError::HmacWithoutToken => "HMAC auth present but no token configured"@,
        TransportError::TagMismatch => "transport auth tag mismatch"@,
        TransportError::AuthRequired => "transport authentication required but no auth present"@,
        TransportError::UnknownAuthType => "unknown transport auth type"@,
    }
}

/// Errors reported as a refusal of permission (missing credentials), as
/// opposed to invalid data.
pub open spec fn is_permission_error(e: TransportError) -> bool {
    match e {
        TransportError::SessionRequired | TransportError::HmacWithoutToken | TransportError::AuthRequired => true,
        _ => false,
    }
}

impl TransportError {
    /// Human-readable description.
    pub fn message(&self) -> (m: String)
        ensures
            m@ == transport_error_text(*self),
    {
        match self {
            TransportError::UnexpectedSourceStage => "unexpected source stage in transport frame".to_owned(),
            TransportError::PayloadTooLarge(n) => {
                let mut m = "wire payload length ".to_owned();
                push_decimal(&mut m, *n as u64);
                m.append(" exceeds maximum ");
                push_decimal(&mut m, MAX_WIRE_PAYLOAD_ELEMS as u64);
                m.append(" (corrupted or cross-wired frame?)");
                m
            },
            TransportError::SessionRequired => "session auth required but no session established".to_owned(),
            TransportError::SessionIdMismatch => "session auth: session_id mismatch".to_owned(),
            TransportError::NonMonotonicGeneration => "session auth: non-monotonic generation".to_owned(),
            TransportError::HmacWithoutToken => "HMAC auth present but no token configured".to_owned(),
            TransportError::TagMismatch => "transport auth tag mismatch".to_owned(),
            TransportError::AuthRequired => "transport authentication required but no auth present".to_owned(),
            TransportError::UnknownAuthType => "unknown transport auth type".to_owned(),
        }
    }

    /// Whether the error is a refusal of permission rather than invalid
    /// data.
    pub fn is_permission_denied(&self) -> (b: bool)
        ensures
            b == is_permission_error(*self),
    {
        match self {
            TransportError::SessionRequired | TransportError::HmacWithoutToken | TransportError::AuthRequired => true,
            _ => false,
        }
    }
}

/// Result of feeding the bytes received so far to the decoder.
#[derive(Clone, Debug)]
pub enum TransportStep {
    /// The frame needs at least this many bytes in all.
    NeedBytes(usize),
    /// A whole frame: the batch and the bytes it took.
    Frame(TransportBatch, usize),
}

/// Abstract decoder step.
pub enum StepView {
    NeedBytes(nat),
    Frame { batch_id: usize, tokens_in_batch: usize, payload: Seq<u32>, consumed: nat },
}

/// The step `s` is the abstract step `v`.
pub open spec fn step_matches(s: TransportStep, v: StepView) -> bool {
    match (s, v) {
        (TransportStep::NeedBytes(n), StepView::NeedBytes(m)) => n == m,
        (TransportStep::Frame(b, c), StepView::Frame { batch_id, tokens_in_batch, payload, consumed }) => {
            &&& b.batch_id == batch_id
            &&& b.tokens_in_batch == tokens_in_batch
            &&& b.payload@ == payload
            &&& c == consumed
        },
        _ => false,
    }
}

pub open spec fn stage_field(input: Seq<u8>) -> usize {
    spec_u16_from_le_bytes(input.subrange(0, 2)) as usize
}

pub open spec fn batch_id_field(input: Seq<u8>) -> usize {
    spec_u64_from_le_bytes(input.subrange(2, 10)) as usize
}

pub open spec fn tokens_field(input: Seq<u8>) -> usize {
    spec_u32_from_le_bytes(input.subrange(10, 14)) as usize
}

pub open spec fn payload_len_field(input: Seq<u8>) -> usize {
    spec_u32_from_le_bytes(input.subrange(14, 18)) as usize
}

/// The payload of `plen` words starting at `start`, once it has arrived.
pub open spec fn payload_step(input: Seq<u8>, start: nat, plen: nat) -> StepView {
    let end = start + 4 * plen;
    if input.len() < end {
        StepView::NeedBytes(end)
    } else {
        StepView::Frame {
            batch_id: batch_id_field(input),
            tokens_in_batch: tokens_field(input),
            payload: payload_words(input.subrange(start as int, end as int)),
            consumed: end,
        }
    }
}

/// What the decoder makes of the bytes received so far, and the highest
/// peer generation afterwards. Checks run as the fields arrive: source
/// stage, declared length, authentication type; then the session fields
/// (recording the generation before checking it) or the HMAC tag (checked
/// once the payload has arrived).
pub open spec fn transport_outcome(
    input: Seq<u8>,
    expected_stage: usize,
    token: Option<Seq<u8>>,
    session: Option<u64>,
    peer: u64,
) -> (Result<StepView, TransportError>, u64) {
    if input.len() < 2 {
        (Ok(StepView::NeedBytes(2)), peer)
    } else if stage_field(input) != expected_stage {
        (Err(TransportError::UnexpectedSourceStage), peer)
    } else if input.len() < 18 {
        (Ok(StepView::NeedBytes(18)), peer)
    } else if payload_len_field(input) > MAX_WIRE_PAYLOAD_ELEMS {
        (Err(TransportError::PayloadTooLarge(payload_len_field(input))), peer)
    } else if input.len() < TRANSPORT_HEADER_LEN {
        (Ok(StepView::NeedBytes(TRANSPORT_HEADER_LEN as nat)), peer)
    } else {
        let plen = payload_len_field(input) as nat;
        let auth = input[18];
        if auth == AUTH_SESSION {
            if input.len() < 35 {
                (Ok(StepView::NeedBytes(35)), peer)
            } else {
                let sid = spec_u64_from_le_bytes(input.subrange(19, 27));
                let generation = spec_u64_from_le_bytes(input.subrange(27, 35));
                match session {
                    None => (Err(TransportError::SessionRequired), peer),
                    Some(id) => if sid != id {
                        (Err(TransportError::SessionIdMismatch), peer)
                    } else if generation < peer {
                        (Err(TransportError::NonMonotonicGeneration), peer)
                    } else {
                        (Ok(payload_step(input, 35, plen)), generation)
                    },
                }
            }
        } else if auth == AUTH_HMAC {
            match token {
                None => (Err(TransportError::HmacWithoutToken), peer),
                Some(t) => match payload_step(input, 51, plen) {
                    StepView::Frame { batch_id, tokens_in_batch, payload, consumed } => if input.subrange(19, 51)
                        != batch_tag(expected_stage, batch_id, tokens_in_batch, payload, t) {
                        (Err(TransportError::TagMismatch), peer)
                    } else {
                        (Ok(payload_step(input, 51, plen)), peer)
                    },
                    step => (Ok(step), peer),
                },
            }
        } else if auth == AUTH_NONE {
            if token is Some || session is Some {
                (Err(TransportError::AuthRequired), peer)
            } else {
                (Ok(payload_step(input, TRANSPORT_HEADER_LEN as nat, plen)), peer)
            }
        } else {
            (Err(TransportError::UnknownAuthType), peer)
        }
    }
}

/// Read `plen` payload words starting at byte `start` of `input`.
fn read_payload(input: &[u8], start: usize, plen: usize) -> (p: Vec<u32>)
    requires
        start + 4 * plen <= input@.len(),
    ensures
        p@ == payload_words(input@.subrange(start as int, start + 4 * plen)),
{
    let ghost b = input@.subrange(start as int, start + 4 * plen);
    let mut p: Vec<u32> = Vec::new();
    let n = input.len();
    let mut i: usize = 0;
    while i < plen
        invariant
            i <= plen,
            n == input@.len(),
            start + 4 * plen <= n,
            b == input@.subrange(start as int, start + 4 * plen),
            p@.len() == i,
            forall|k: int| 0 <= k < i ==> p@[k] == spec_u32_from_le_bytes(b.subrange(4 * k, 4 * k + 4)),
        decreases plen - i,
    {
        let at = start + 4 * i;
        let word = &input[at..at + 4];
        let w = u32_from_le_bytes(word);
        proof {
            assert(word@ =~= b.subrange(4 * i, 4 * i + 4));
        }
        p.push(w);
        i += 1;
    }
    proof {
        assert(p@ =~= payload_words(b));
    }
    p
}

/// The payload step at `start` (see `payload_step`).
fn take_payload(input: &[u8], start: usize, plen: usize) -> (s: TransportStep)
    requires
        start <= 51,
        plen <= MAX_WIRE_PAYLOAD_ELEMS,
        input@.len() >= 18,
    ensures
        step_matches(s, payload_step(input@, start as nat, plen as nat)),
{
    let end = start + 4 * plen;
    if input.len() < end {
        return TransportStep::NeedBytes(end);
    }
    let id_bytes = &input[2..10];
    let tokens_bytes = &input[10..14];
    let batch_id = u64_from_le_bytes(id_bytes) as usize;
    let tokens = u32_from_le_bytes(tokens_bytes) as usize;
    proof {
        assert(input@.subrange(2, 10) =~= id_bytes@);
        assert(input@.subrange(10, 14) =~= tokens_bytes@);
    }
    let payload = read_payload(input, start, plen);
    TransportStep::Frame(TransportBatch { batch_id, tokens_in_batch: tokens, payload }, end)
}

/// Decode the bytes received so far of one frame. `session_id` is the
/// connection's session, if one was established; `peer_seq` the highest
/// generation seen from the peer so far.
pub fn decode_transport_frame(
    input: &[u8],
    expected_source_stage: usize,
    token: Option<&str>,
    session_id: Option<u64>,
    peer_seq: &mut u64,
) -> (r: Result<TransportStep, TransportError>)
    ensures
        ({
            let (o, p) = transport_outcome(input@, expected_source_stage, token_bytes_of(token), session_id, *old(peer_seq));
            &&& *final(peer_seq) == p
            &&& match (r, o) {
                (Ok(s), Ok(v)) => step_matches(s, v),
                (Err(e), Err(f)) => e == f,
                _ => false,
            }
        }),
{
    if input.len() < 2 {
        return Ok(TransportStep::NeedBytes(2));
    }
    let stage_bytes = &input[0..2];
    let stage = u16_from_le_bytes(stage_bytes) as usize;
    proof {
        assert(input@.subrange(0, 2) =~= stage_bytes@);
    }
    if stage != expected_source_stage {
        return Err(TransportError::UnexpectedSourceStage);
    }
    if input.len() < 18 {
        return Ok(TransportStep::NeedBytes(18));
    }
    let len_bytes = &input[14..18];
    let plen = u32_from_le_bytes(len_bytes) as usize;
    proof {
        assert(input@.subrange(14, 18) =~= len_bytes@);
    }
    if plen > MAX_WIRE_PAYLOAD_ELEMS {
        return Err(TransportError::PayloadTooLarge(plen));
    }
    if input.len() < TRANSPORT_HEADER_LEN {
        return Ok(TransportStep::NeedBytes(TRANSPORT_HEADER_LEN));
    }
    let auth = input[18];
    if auth == AUTH_SESSION {
        if input.len() < 35 {
            return Ok(TransportStep::NeedBytes(35));
        }
        let sid_bytes = &input[19..27];
        let gen_bytes = &input[27..35];
        let sid = u64_from_le_bytes(sid_bytes);
        let generation = u64_from_le_bytes(gen_bytes);
        proof {
            assert(input@.subrange(19, 27) =~= sid_bytes@);
            assert(input@.subrange(27, 35) =~= gen_bytes@);
        }
        match session_id {
            None => Err(TransportError::SessionRequired),
            Some(id) => {
                if sid != id {
                    return Err(TransportError::SessionIdMismatch);
                }
                let prev = *peer_seq;
                if generation > prev {
                    *peer_seq = generation;
                }
                if generation < prev {
                    return Err(TransportError::NonMonotonicGeneration);
                }
                Ok(take_payload(input, 35, plen))
            },
        }
    } else if auth == AUTH_HMAC {
        match token {
            None => Err(TransportError::HmacWithoutToken),
            Some(t) => {
                let step = take_payload(input, 51, plen);
                match step {
                    TransportStep::Frame(batch, consumed) => {
                        let expected = auth_tag(
                            expected_source_stage,
                            batch.batch_id,
                            batch.tokens_in_batch,
                            batch.payload.as_slice(),
                            t,
                        );
                        let received = &input[19..51];
                        proof {
                            assert(input@.subrange(19, 51) =~= received@);
                        }
                        if !bytes_equal(received, expected.as_slice()) {
                            return Err(TransportError::TagMismatch);
                        }
                        Ok(TransportStep::Frame(batch, consumed))
                    },
                    other => Ok(other),
                }
            },
        }
    } else if auth == AUTH_NONE {
        if token.is_some() || session_id.is_some() {
            return Err(TransportError::AuthRequired);
        }
        Ok(take_payload(input, TRANSPORT_HEADER_LEN, plen))
    } else {
        Err(TransportError::UnknownAuthType)
    }
}

/// Byte-wise equality.
fn bytes_equal(a: &[u8], b: &[u8]) -> (r: bool)
    ensures
        r == (a@ == b@),
{
    if a.len() != b.len() {
        return false;
    }
    let mut i: usize = 0;
    while i < a.len()
        invariant
            i <= a@.len(),
            a@.len() == b@.len(),
            forall|j: int| 0 <= j < i ==> a@[j] == b@[j],
        decreases a@.len() - i,
    {
        if a[i] != b[i] {
            return false;
        }
        i += 1;
    }
    proof {
        assert(a@ =~= b@);
    }
    true
}

/// Decode a frame on a connection without session authentication.
pub fn read_transport_batch(
    input: &[u8],
    expected_source_stage: usize,
    token: Option<&str>,
) -> (r: Result<TransportStep, TransportError>)
    ensures
        match (r, transport_outcome(input@, expected_source_stage, token_bytes_of(token), None, 0).0) {
            (Ok(s), Ok(v)) => step_matches(s, v),
            (Err(e), Err(f)) => e == f,
            _ => false,
        },
{
    let mut peer: u64 = 0;
    decode_transport_frame(input, expected_source_stage, token, None, &mut peer)
}

/// Decode a frame on a connection with session authentication, recording
/// the peer's generation in `session`.
pub fn read_transport_batch_session(
    input: &[u8],
    expected_source_stage: usize,
    session: &mut SessionAuth,
) -> (r: Result<TransportStep, TransportError>)
    ensures
        final(session).session_id == old(session).session_id,
        final(session).seq == old(session).seq,
        ({
            let (o, p) = transport_outcome(input@, expected_source_stage, None, Some(old(session).session_id), old(session).peer_seq);
            &&& final(session).peer_seq == p
            &&& match (r, o) {
                (Ok(s), Ok(v)) => step_matches(s, v),
                (Err(e), Err(f)) => e == f,
                _ => false,
            }
        }),
{
    let sid = session.session_id;
    decode_transport_frame(input, expected_source_stage, None, Some(sid), &mut session.peer_seq)
}

// ---------------------------------------------------------------------
// Stage handshake
// ---------------------------------------------------------------------

/// Wire code of a device kind in the stage handshake.
pub open spec fn device_code(d: DeviceKind) -> u8 {
    match d {
        DeviceKind::Npu => 0,
        DeviceKind::Gpu => 1,
        DeviceKind::Cpu => 2,
    }
}

/// Device kind of a handshake code: unknown codes read as CPU.
pub open spec fn device_of_code(c: u8) -> DeviceKind {
    if c == 0 {
        DeviceKind::Npu
    } else if c == 1 {
        DeviceKind::Gpu
    } else {
        DeviceKind::Cpu
    }
}

/// Bytes of the handshake a coordinator sends a stage worker: the number
/// of layers (32 bits, little-endian, truncated) and the device code.
pub open spec fn stage_handshake_bytes(num_layers: usize, device: DeviceKind) -> Seq<u8> {
    spec_u32_to_le_bytes(num_layers as u32) + seq![device_code(device)]
}

/// Encode the stage handshake.
pub fn write_stage_handshake(num_layers: usize, device: DeviceKind) -> (v: Vec<u8>)
    ensures
        v@ == stage_handshake_bytes(num_layers, device),
{
    let mut v = u32_to_le_bytes(num_layers as u32);
    let code: u8 = match device {
        DeviceKind::Npu => 0,
        DeviceKind::Gpu => 1,
        DeviceKind::Cpu => 2,
    };
    v.push(code);
    v
}

/// Decode a stage handshake from its five bytes: the layer count and the
/// device kind; `None` when fewer than five bytes arrived.
pub fn read_stage_handshake(bytes: &[u8]) -> (r: Option<(usize, DeviceKind)>)
    ensures
        bytes@.len() < 5 ==> r is None,
        bytes@.len() >= 5 ==> r == Some((
            spec_u32_from_le_bytes(bytes@.subrange(0, 4)) as usize,
            device_of_code(bytes@[4]),
        )),
{
    if bytes.len() < 5 {
        return None;
    }
    let layer_bytes = &bytes[0..4];
    let n = u32_from_le_bytes(layer_bytes) as usize;
    proof {
        assert(layer_bytes@ =~= bytes@.subrange(0, 4));
    }
    let device = match bytes[4] {
        0 => DeviceKind::Npu,
        1 => DeviceKind::Gpu,
        _ => DeviceKind::Cpu,
    };
    Some((n, device))
}

/// The handshake reads back the layer count and device it was written
/// with (for counts that fit 32 bits).
pub proof fn lemma_stage_handshake_round_trip(num_layers: usize, device: DeviceKind)
    requires
        num_layers <= u32::MAX,
    ensures
        ({
            let b = stage_handshake_bytes(num_layers, device);
            &&& b.len() == 5
            &&& spec_u32_from_le_bytes(b.subrange(0, 4)) as usize == num_layers
            &&& device_of_code(b[4]) == device
        }),
{
    vstd::bytes::lemma_auto_spec_u32_to_from_le_bytes();
    let b = stage_handshake_bytes(num_layers, device);
    assert(b.subrange(0, 4) =~= spec_u32_to_le_bytes(num_layers as u32));
}

// ---------------------------------------------------------------------
// Laws
// ---------------------------------------------------------------------

/// Payload bytes are four per word and read back as the same words.
pub proof fn lemma_payload_round_trip(p: Seq<u32>)
    ensures
        payload_bytes(p).len() == 4 * p.len(),
        payload_words(payload_bytes(p)) == p,
    decreases p.len(),
{
    vstd::bytes::lemma_auto_spec_u32_to_from_le_bytes();
    if p.len() > 0 {
        let d = p.drop_last();
        lemma_payload_round_trip(d);
        let b = payload_bytes(p);
        let bd = payload_bytes(d);
        assert(b == bd + spec_u32_to_le_bytes(p.last()));
        assert forall|i: int| 0 <= i < p.len() implies #[trigger] payload_words(b)[i] == p[i] by {
            if i < d.len() {
                assert(b.subrange(4 * i, 4 * i + 4) =~= bd.subrange(4 * i, 4 * i + 4));
                assert(payload_words(bd)[i] == d[i]);
            } else {
                assert(b.subrange(4 * i, 4 * i + 4) =~= spec_u32_to_le_bytes(p.last()));
            }
        }
        assert(payload_words(b) =~= p);
    }
}

/// The shared header fields read back as written.
proof fn lemma_header_prefix_fields(stage: u16, batch_id: u64, tokens: u32, plen: u32, auth: u8, rest: Seq<u8>)
    ensures
        ({
            let b = header_prefix(stage, batch_id, tokens, plen, auth) + rest;
            &&& b.len() == TRANSPORT_HEADER_LEN + rest.len()
            &&& spec_u16_from_le_bytes(b.subrange(0, 2)) == stage
            &&& spec_u64_from_le_bytes(b.subrange(2, 10)) == batch_id
            &&& spec_u32_from_le_bytes(b.subrange(10, 14)) == tokens
            &&& spec_u32_from_le_bytes(b.subrange(14, 18)) == plen
            &&& b[18] == auth
            &&& b.subrange(19, b.len() as int) == rest
        }),
{
    vstd::bytes::lemma_auto_spec_u16_to_from_le_bytes();
    vstd::bytes::lemma_auto_spec_u32_to_from_le_bytes();
    vstd::bytes::lemma_auto_spec_u64_to_from_le_bytes();
    let h = header_prefix(stage, batch_id, tokens, plen, auth);
    let b = h + rest;
    assert(b.subrange(0, 2) =~= spec_u16_to_le_bytes(stage));
    assert(b.subrange(2, 10) =~= spec_u64_to_le_bytes(batch_id));
    assert(b.subrange(10, 14) =~= spec_u32_to_le_bytes(tokens));
    assert(b.subrange(14, 18) =~= spec_u32_to_le_bytes(plen));
    assert(b.subrange(19, b.len() as int) =~= rest);
}

/// A batch fits the wire format: stage, token count and payload length
/// fit their fields and the payload is within the declared-length limit.
pub open spec fn fits_wire(b: TransportBatch, source_stage: usize) -> bool {
    &&& source_stage <= u16::MAX
    &&& b.tokens_in_batch <= u32::MAX
    &&& b.payload@.len() <= MAX_WIRE_PAYLOAD_ELEMS
}

/// A batch written with the same token (or none) at the expected stage is
/// read back whole, whatever bytes follow it on the stream, and nothing
/// beyond it is consumed.
pub proof fn lemma_frame_round_trip(b: TransportBatch, source_stage: usize, token: Option<Seq<u8>>, rest: Seq<u8>, peer: u64)
    requires
        fits_wire(b, source_stage),
    ensures
        ({
            let frame = frame_header(b, source_stage, token) + payload_bytes(b.payload@);
            transport_outcome(frame + rest, source_stage, token, None, peer) == (
                Ok::<StepView, TransportError>(StepView::Frame {
                    batch_id: b.batch_id,
                    tokens_in_batch: b.tokens_in_batch,
                    payload: b.payload@,
                    consumed: frame.len(),
                }),
                peer,
            )
        }),
{
    lemma_payload_round_trip(b.payload@);
    let pb = payload_bytes(b.payload@);
    let plen = b.payload@.len();
    let auth = if token is None { AUTH_NONE } else { AUTH_HMAC };
    let tag = match token {
        None => Seq::<u8>::empty(),
        Some(t) => batch_tag(source_stage, b.batch_id, b.tokens_in_batch, b.payload@, t),
    };
    let after = tag + pb + rest;
    lemma_header_prefix_fields(source_stage as u16, b.batch_id as u64, b.tokens_in_batch as u32, plen as u32, auth, after);
    let input = header_prefix(source_stage as u16, b.batch_id as u64, b.tokens_in_batch as u32, plen as u32, auth) + after;
    let frame = frame_header(b, source_stage, token) + pb;
    assert(frame + rest =~= input);
    let start = TRANSPORT_HEADER_LEN + tag.len();
    assert(input.subrange(start as int, (start + 4 * plen) as int) =~= pb);
    match token {
        None => {},
        Some(t) => {
            assert(tag.len() == 32);
            assert(input.subrange(19, 51) =~= tag);
        },
    }
}

/// A batch written under a session is read back by the peer holding the
/// same session id, provided its generation is not below the highest seen;
/// that generation becomes the highest seen.
pub proof fn lemma_session_frame_round_trip(
    b: TransportBatch,
    source_stage: usize,
    session_id: u64,
    generation: u64,
    rest: Seq<u8>,
    peer: u64,
)
    requires
        fits_wire(b, source_stage),
        peer <= generation,
    ensures
        ({
            let frame = session_frame_header(b, source_stage, session_id, generation) + payload_bytes(b.payload@);
            transport_outcome(frame + rest, source_stage, None, Some(session_id), peer) == (
                Ok::<StepView, TransportError>(StepView::Frame {
                    batch_id: b.batch_id,
                    tokens_in_batch: b.tokens_in_batch,
                    payload: b.payload@,
                    consumed: frame.len(),
                }),
                generation,
            )
        }),
{
    vstd::bytes::lemma_auto_spec_u64_to_from_le_bytes();
    lemma_payload_round_trip(b.payload@);
    let pb = payload_bytes(b.payload@);
    let plen = b.payload@.len();
    let ids = spec_u64_to_le_bytes(session_id) + spec_u64_to_le_bytes(generation);
    let after = ids + pb + rest;
    lemma_header_prefix_fields(source_stage as u16, b.batch_id as u64, b.tokens_in_batch as u32, plen as u32, AUTH_SESSION, after);
    let input = header_prefix(source_stage as u16, b.batch_id as u64, b.tokens_in_batch as u32, plen as u32, AUTH_SESSION) + after;
    let frame = session_frame_header(b, source_stage, session_id, generation) + pb;
    assert(frame + rest =~= input);
    assert(input.subrange(19, 27) =~= spec_u64_to_le_bytes(session_id));
    assert(input.subrange(27, 35) =~= spec_u64_to_le_bytes(generation));
    assert(input.subrange(35, (35 + 4 * plen) as int) =~= pb);
}

/// A session frame whose generation is below one already seen is refused
/// as a replay, and the highest generation seen stays as it was.
pub proof fn lemma_stale_generation_refused(
    b: TransportBatch,
    source_stage: usize,
    session_id: u64,
    generation: u64,
    rest: Seq<u8>,
    peer: u64,
)
    requires
        fits_wire(b, source_stage),
        generation < peer,
    ensures
        transport_outcome(
            session_frame_header(b, source_stage, session_id, generation) + payload_bytes(b.payload@) + rest,
            source_stage,
            None,
            Some(session_id),
            peer,
        ) == (Err::<StepView, TransportError>(TransportError::NonMonotonicGeneration), peer),
{
    vstd::bytes::lemma_auto_spec_u64_to_from_le_bytes();
    let pb = payload_bytes(b.payload@);
    let plen = b.payload@.len();
    let ids = spec_u64_to_le_bytes(session_id) + spec_u64_to_le_bytes(generation);
    let after = ids + pb + rest;
    lemma_header_prefix_fields(source_stage as u16, b.batch_id as u64, b.tokens_in_batch as u32, plen as u32, AUTH_SESSION, after);
    let input = header_prefix(source_stage as u16, b.batch_id as u64, b.tokens_in_batch as u32, plen as u32, AUTH_SESSION) + after;
    assert(session_frame_header(b, source_stage, session_id, generation) + pb + rest =~= input);
    assert(input.subrange(19, 27) =~= spec_u64_to_le_bytes(session_id));
    assert(input.subrange(27, 35) =~= spec_u64_to_le_bytes(generation));
}

/// A frame from another source stage is refused before anything else is
/// read.
pub proof fn lemma_other_stage_refused(b: TransportBatch, source_stage: usize, token: Option<Seq<u8>>, expected: usize, peer: u64)
    requires
        fits_wire(b, source_stage),
        expected != source_stage,
    ensures
        transport_outcome(frame_header(b, source_stage, token), expected, token, None, peer)
            == (Err::<StepView, TransportError>(TransportError::UnexpectedSourceStage), peer),
{
    let auth = if token is None { AUTH_NONE } else { AUTH_HMAC };
    let tag = match token {
        None => Seq::<u8>::empty(),
        Some(t) => batch_tag(source_stage, b.batch_id, b.tokens_in_batch, b.payload@, t),
    };
    lemma_header_prefix_fields(source_stage as u16, b.batch_id as u64, b.tokens_in_batch as u32, b.payload@.len() as u32, auth, tag);
    assert(frame_header(b, source_stage, token) =~= header_prefix(
        source_stage as u16,
        b.batch_id as u64,
        b.tokens_in_batch as u32,
        b.payload@.len() as u32,
        auth,
    ) + tag);
}

} // verus!

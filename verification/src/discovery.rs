//! Discovery datagrams for the UDP fallback path: the optional
//! authentication trailer (HMAC-SHA256 over the frame, a timestamp and a
//! nonce), the replay cache, the legacy CRC32 tag, and the bookkeeping of
//! a discovery responder. Sockets and timers live with the caller.

use vstd::prelude::*;
use vstd::bytes::{
    spec_u128_from_le_bytes, spec_u128_to_le_bytes, spec_u32_from_le_bytes, spec_u64_from_le_bytes,
    spec_u64_to_le_bytes, u128_from_le_bytes, u128_to_le_bytes, u32_from_le_bytes,
    u64_from_le_bytes, u64_to_le_bytes,
};
use vstd::string::StringSliceAdditionalSpecFns;
use std::collections::{HashSet, VecDeque};
use crate::crypto::{hmac_sha256, hmac_sha256_of};
use crate::protocol::{
    crc32, crc32_of, encodable, frame_bytes, frame_error_text, lemma_frame_round_trip, parse_frame, frame_as_received,
    DiscoveryFrame, FrameError, FrameKind, FrameView, MAX_PAYLOAD_SIZE,
};
use crate::sys::{random_nonce, unix_secs};
use crate::text::append_bytes;
use crate::fmt::{decimal, push_decimal};

verus! {

broadcast use vstd::std_specs::hash::group_hash_axioms;

/// Default UDP discovery port.
pub const DEFAULT_DISCOVERY_PORT: u16 = 45885;

/// Version byte of the authentication trailer.
pub const DISCOVERY_AUTH_PROTOCOL_VERSION: u8 = 2;

/// Length of the HMAC-SHA256 tag that ends the trailer.
pub const DISCOVERY_AUTH_TAG_LEN: usize = 32;

/// Length of the trailer nonce.
pub const DISCOVERY_NONCE_LEN: usize = 16;

/// Trailer length: marker (2), version (1), timestamp (8), nonce, tag.
pub const DISCOVERY_AUTH_TRAILER_LEN: usize = 59;

/// Largest accepted distance between a trailer timestamp and the local
/// clock, in seconds.
pub const DISCOVERY_AUTH_MAX_SKEW_SECS: u64 = 30;

/// How many recent nonces the replay cache remembers.
pub const DISCOVERY_NONCE_CACHE_CAPACITY: usize = 4096;

/// Datagrams dropped by a discovery responder, by reason.
#[derive(Clone, Copy, Debug, PartialEq, Eq, Structural)]
pub struct DiscoveryDropCounters {
    pub malformed: usize,
    pub auth_mismatch: usize,
    pub unsupported_kind: usize,
}

impl Default for DiscoveryDropCounters {
    fn default() -> (c: Self)
        ensures
            c == (DiscoveryDropCounters { malformed: 0, auth_mismatch: 0, unsupported_kind: 0 }),
    {
        DiscoveryDropCounters { malformed: 0, auth_mismatch: 0, unsupported_kind: 0 }
    }
}

/// What a discovery responder did with the datagrams it received.
#[derive(Clone, Copy, Debug, PartialEq, Eq, Structural)]
pub struct DiscoveryServeStats {
    pub replies_sent: usize,
    pub drops: DiscoveryDropCounters,
}

impl Default for DiscoveryServeStats {
    fn default() -> (s: Self)
        ensures
            s.replies_sent == 0,
            s.drops == (DiscoveryDropCounters { malformed: 0, auth_mismatch: 0, unsupported_kind: 0 }),
    {
        DiscoveryServeStats { replies_sent: 0, drops: DiscoveryDropCounters::default() }
    }
}

// ---------------------------------------------------------------------
// Wire image of an authenticated datagram
// ---------------------------------------------------------------------

/// Marker, then version: the first three bytes of every trailer (`"GL"`, 2).
pub open spec fn trailer_head() -> Seq<u8> {
    seq![71u8, 76u8, 2u8]
}

/// The bytes the trailer tag authenticates: the frame, the trailer head,
/// the timestamp and the nonce, both little-endian.
pub open spec fn signed_message(frame: Seq<u8>, timestamp_secs: u64, nonce: u128) -> Seq<u8> {
    frame + trailer_head() + spec_u64_to_le_bytes(timestamp_secs) + spec_u128_to_le_bytes(nonce)
}

/// The trailer tag: HMAC-SHA256 of the signed message under the token.
pub open spec fn auth_tag_of(frame: Seq<u8>, token: Seq<u8>, timestamp_secs: u64, nonce: u128) -> Seq<u8> {
    hmac_sha256_of(token, signed_message(frame, timestamp_secs, nonce))@
}

/// An authenticated datagram: the signed message followed by its tag.
pub open spec fn signed_datagram(frame: Seq<u8>, token: Seq<u8>, timestamp_secs: u64, nonce: u128) -> Seq<u8> {
    signed_message(frame, timestamp_secs, nonce) + auth_tag_of(frame, token, timestamp_secs, nonce)
}

/// The legacy tag: CRC32 over the frame followed by the token bytes.
pub open spec fn legacy_tag_of(frame: Seq<u8>, token: Seq<u8>) -> u32 {
    crc32_of(frame + token)
}

/// A timestamp is accepted when it lies within the allowed skew of `now`,
/// on either side.
pub open spec fn in_window(timestamp_secs: u64, now_secs: u64) -> bool {
    if now_secs >= timestamp_secs {
        now_secs - timestamp_secs <= DISCOVERY_AUTH_MAX_SKEW_SECS
    } else {
        timestamp_secs - now_secs <= DISCOVERY_AUTH_MAX_SKEW_SECS
    }
}

/// Whether a trailer timestamp is inside the skew window around `now_secs`.
pub fn timestamp_in_window_at(timestamp_secs: u64, now_secs: u64) -> (b: bool)
    ensures
        b == in_window(timestamp_secs, now_secs),
{
    if now_secs >= timestamp_secs {
        now_secs - timestamp_secs <= DISCOVERY_AUTH_MAX_SKEW_SECS
    } else {
        timestamp_secs - now_secs <= DISCOVERY_AUTH_MAX_SKEW_SECS
    }
}

/// Whether a trailer timestamp is inside the skew window around the local
/// clock.
pub fn timestamp_in_window(timestamp_secs: u64) -> (b: bool)
    ensures
        exists|now: u64| b == in_window(timestamp_secs, now),
{
    let now = unix_secs();
    timestamp_in_window_at(timestamp_secs, now)
}

// ---------------------------------------------------------------------
// Replay cache
// ---------------------------------------------------------------------

/// The nonces remembered after accepting `nonce` with `seen` remembered:
/// the new nonce is appended and the oldest dropped once over capacity.
pub open spec fn remembered(seen: Seq<u128>, nonce: u128) -> Seq<u128> {
    let t = seen.push(nonce);
    if t.len() > DISCOVERY_NONCE_CACHE_CAPACITY {
        t.subrange(t.len() - DISCOVERY_NONCE_CACHE_CAPACITY, t.len() as int)
    } else {
        t
    }
}

/// The most recent nonces seen, oldest first, for replay detection.
pub struct ReplayCache {
    nonces: HashSet<u128>,
    order: VecDeque<u128>,
}

impl View for ReplayCache {
    type V = Seq<u128>;

    closed spec fn view(&self) -> Seq<u128> {
        self.order@
    }
}

impl ReplayCache {
    /// The set mirrors the queue, the queue holds each nonce once, and no
    /// more than the capacity are held.
    pub closed spec fn wf(&self) -> bool {
        &&& self.nonces@ == self.order@.to_set()
        &&& self.order@.no_duplicates()
        &&& self.order@.len() <= DISCOVERY_NONCE_CACHE_CAPACITY
    }

    /// An empty cache.
    pub fn new() -> (c: ReplayCache)
        ensures
            c.wf(),
            c@ == Seq::<u128>::empty(),
    {
        let c = ReplayCache { nonces: HashSet::new(), order: VecDeque::new() };
        proof {
            assert(c.order@.to_set() =~= Set::<u128>::empty());
        }
        c
    }

    /// Number of remembered nonces.
    pub fn len(&self) -> (n: usize)
        requires
            self.wf(),
        ensures
            n == self@.len(),
    {
        self.order.len()
    }

    /// Record `nonce`; `false` when it was already remembered (a replay),
    /// in which case nothing changes.
    pub fn check_and_insert(&mut self, nonce: u128) -> (fresh: bool)
        requires
            old(self).wf(),
        ensures
            final(self).wf(),
            fresh == !old(self)@.contains(nonce),
            fresh ==> final(self)@ == remembered(old(self)@, nonce),
            !fresh ==> final(self)@ == old(self)@,
    {
        proof {
            assert(self.order@.contains(nonce) <==> self.nonces@.contains(nonce));
        }
        if self.nonces.contains(&nonce) {
            return false;
        }
        let ghost before = self.order@;
        self.nonces.insert(nonce);
        self.order.push_back(nonce);
        proof {
            assert(self.order@ == before.push(nonce));
            assert forall|x: u128| self.nonces@.contains(x) <==> self.order@.to_set().contains(x) by {
                if x == nonce {
                    assert(self.order@[before.len() as int] == nonce);
                } else if before.contains(x) {
                    let k = choose|k: int| 0 <= k < before.len() && before[k] == x;
                    assert(self.order@[k] == x);
                } else if self.order@.contains(x) {
                    let k = choose|k: int| 0 <= k < self.order@.len() && self.order@[k] == x;
                    assert(k < before.len());
                    assert(before[k] == x);
                }
            }
            assert(self.nonces@ =~= self.order@.to_set());
        }
        while self.order.len() > DISCOVERY_NONCE_CACHE_CAPACITY
            invariant
                self.nonces@ == self.order@.to_set(),
                self.order@.no_duplicates(),
                self.order@.len() <= DISCOVERY_NONCE_CACHE_CAPACITY + 1,
                self.order@.len() > DISCOVERY_NONCE_CACHE_CAPACITY ==> self.order@ == before.push(nonce),
                self.order@.len() <= DISCOVERY_NONCE_CACHE_CAPACITY ==> self.order@ == remembered(before, nonce),
            decreases self.order@.len(),
        {
            let ghost q = self.order@;
            if let Some(evicted) = self.order.pop_front() {
                self.nonces.remove(&evicted);
                proof {
                    assert(self.order@ =~= q.drop_first());
                    assert forall|x: u128| self.nonces@.contains(x) <==> self.order@.to_set().contains(x) by {
                        if x == evicted {
                            assert(!q.drop_first().contains(evicted)) by {
                                if q.drop_first().contains(evicted) {
                                    let k = choose|k: int| 0 <= k < q.drop_first().len() && q.drop_first()[k] == evicted;
                                    assert(q[k + 1] == q[0]);
                                }
                            }
                        } else {
                            if q.contains(x) {
                                let k = choose|k: int| 0 <= k < q.len() && q[k] == x;
                                assert(k != 0);
                                assert(q.drop_first()[k - 1] == x);
                            }
                        }
                    }
                    assert(self.nonces@ =~= self.order@.to_set());
                    assert(remembered(before, nonce) =~= q.drop_first());
                }
            }
        }
        true
    }
}

/// Once accepted, a nonce is remembered: presenting it again right away is
/// detected as a replay.
pub proof fn lemma_accepted_nonce_is_remembered(seen: Seq<u128>, nonce: u128)
    requires
        seen.len() <= DISCOVERY_NONCE_CACHE_CAPACITY,
    ensures
        remembered(seen, nonce).contains(nonce),
        remembered(seen, nonce).len() <= DISCOVERY_NONCE_CACHE_CAPACITY,
{
    let t = seen.push(nonce);
    assert(t[t.len() - 1] == nonce);
    if t.len() > DISCOVERY_NONCE_CACHE_CAPACITY {
        let r = t.subrange(t.len() - DISCOVERY_NONCE_CACHE_CAPACITY, t.len() as int);
        assert(r[r.len() - 1] == nonce);
    }
}

// ---------------------------------------------------------------------
// Tags and encoding
// ---------------------------------------------------------------------

/// Append the trailer head, the timestamp and the nonce to `buf`.
fn push_signed_fields(buf: &mut Vec<u8>, timestamp_secs: u64, nonce: u128)
    ensures
        final(buf)@ == old(buf)@ + trailer_head() + spec_u64_to_le_bytes(timestamp_secs)
            + spec_u128_to_le_bytes(nonce),
{
    let ghost start = buf@;
    buf.push(71u8);
    buf.push(76u8);
    buf.push(DISCOVERY_AUTH_PROTOCOL_VERSION);
    proof {
        assert(buf@ =~= start + trailer_head());
    }
    let ts = u64_to_le_bytes(timestamp_secs);
    append_bytes(buf, ts.as_slice());
    let nb = u128_to_le_bytes(nonce);
    append_bytes(buf, nb.as_slice());
}

/// The authentication tag of a frame: HMAC-SHA256 under the token of the
/// frame, the trailer head, the timestamp and the nonce.
pub fn auth_tag_v2(frame_bytes: &[u8], token: &str, timestamp_secs: u64, nonce: u128) -> (tag: [u8; 32])
    ensures
        tag@ == auth_tag_of(frame_bytes@, token.spec_bytes(), timestamp_secs, nonce),
{
    let mut msg: Vec<u8> = Vec::new();
    append_bytes(&mut msg, frame_bytes);
    push_signed_fields(&mut msg, timestamp_secs, nonce);
    proof {
        assert(msg@ =~= signed_message(frame_bytes@, timestamp_secs, nonce));
    }
    hmac_sha256(token.as_bytes(), msg.as_slice())
}

/// The legacy tag: CRC32 over the frame bytes followed by the token bytes.
pub fn legacy_auth_tag(frame_bytes: &[u8], token: &str) -> (tag: u32)
    ensures
        tag == legacy_tag_of(frame_bytes@, token.spec_bytes()),
{
    let mut msg: Vec<u8> = Vec::new();
    append_bytes(&mut msg, frame_bytes);
    append_bytes(&mut msg, token.as_bytes());
    proof {
        assert(msg@ =~= frame_bytes@ + token.spec_bytes());
    }
    crc32(msg.as_slice())
}

/// Bytes of an optional token.
pub open spec fn token_bytes(auth_token: Option<&str>) -> Option<Seq<u8>> {
    match auth_token {
        Some(t) => Some(t.spec_bytes()),
        None => None,
    }
}

/// The datagram for a frame: the bare frame without a token, else the
/// frame signed at `timestamp_secs` with `nonce`.
pub open spec fn datagram_bytes(frame: FrameView, token: Option<Seq<u8>>, timestamp_secs: u64, nonce: u128) -> Seq<u8> {
    match token {
        None => frame_bytes(frame),
        Some(t) => signed_datagram(frame_bytes(frame), t, timestamp_secs, nonce),
    }
}

/// Encode a frame for the wire, signing it with the given timestamp and
/// nonce when a token is configured.
pub fn encode_datagram_at(
    frame: &DiscoveryFrame,
    auth_token: Option<&str>,
    timestamp_secs: u64,
    nonce: u128,
) -> (v: Vec<u8>)
    ensures
        v@ == datagram_bytes(frame@, token_bytes(auth_token), timestamp_secs, nonce),
{
    let mut datagram = frame.encode();
    match auth_token {
        None => datagram,
        Some(token) => {
            let ghost fb = datagram@;
            let tag = auth_tag_v2(datagram.as_slice(), token, timestamp_secs, nonce);
            push_signed_fields(&mut datagram, timestamp_secs, nonce);
            append_bytes(&mut datagram, tag.as_slice());
            proof {
                assert(datagram@ =~= signed_datagram(fb, token.spec_bytes(), timestamp_secs, nonce));
            }
            datagram
        },
    }
}

/// Encode a frame for the wire; with a token, the trailer carries the
/// current time and a fresh random nonce.
pub fn encode_datagram(frame: &DiscoveryFrame, auth_token: Option<&str>) -> (v: Vec<u8>)
    ensures
        exists|ts: u64, nonce: u128| v@ == datagram_bytes(frame@, token_bytes(auth_token), ts, nonce),
{
    let ts = unix_secs();
    let nonce = random_nonce();
    encode_datagram_at(frame, auth_token, ts, nonce)
}

// ---------------------------------------------------------------------
// Decoding
// ---------------------------------------------------------------------

/// Why a datagram was refused.
#[derive(Clone, Debug, PartialEq, Eq)]
pub enum DatagramDecodeError {
    DatagramTooShortForAuth,
    InvalidAuthTrailerLength,
    UnsupportedAuthProtocolVersion(u8),
    AuthTimestampOutsideWindow,
    ReplayNonceDetected,
    AuthTagMismatch,
    FrameDecode(String),
}

/// Abstract reasons for refusing a datagram.
pub enum DatagramFault {
    TooShortForAuth,
    InvalidTrailer,
    UnsupportedVersion(u8),
    TimestampOutsideWindow,
    ReplayNonce,
    TagMismatch,
    Frame(FrameError),
}

/// `e` is the error value that reports `f`; a frame error carries the
/// frame decoder's message.
pub open spec fn reports(e: DatagramDecodeError, f: DatagramFault) -> bool {
    match (e, f) {
        (DatagramDecodeError::DatagramTooShortForAuth, DatagramFault::TooShortForAuth) => true,
        (DatagramDecodeError::InvalidAuthTrailerLength, DatagramFault::InvalidTrailer) => true,
        (DatagramDecodeError::UnsupportedAuthProtocolVersion(v), DatagramFault::UnsupportedVersion(w)) => v == w,
        (DatagramDecodeError::AuthTimestampOutsideWindow, DatagramFault::TimestampOutsideWindow) => true,
        (DatagramDecodeError::ReplayNonceDetected, DatagramFault::ReplayNonce) => true,
        (DatagramDecodeError::AuthTagMismatch, DatagramFault::TagMismatch) => true,
        (DatagramDecodeError::FrameDecode(m), DatagramFault::Frame(fe)) => m@ == frame_error_text(fe),
        _ => false,
    }
}

/// The decoded result `r` is the abstract outcome `o`.
pub open spec fn outcome_matches(
    r: Result<DiscoveryFrame, DatagramDecodeError>,
    o: Result<FrameView, DatagramFault>,
) -> bool {
    match (r, o) {
        (Ok(f), Ok(v)) => f@ == v,
        (Err(e), Err(g)) => reports(e, g),
        _ => false,
    }
}

/// Outcome of decoding bare frame bytes.
pub open spec fn frame_outcome(b: Seq<u8>) -> Result<FrameView, DatagramFault> {
    match parse_frame(b) {
        Ok(f) => Ok(f),
        Err(e) => Err(DatagramFault::Frame(e)),
    }
}

/// Outcome of checking the authentication trailer of `d` (at least a
/// trailer long) at time `now` with `seen` remembered, and the nonces
/// remembered afterwards. Checks run in order: marker, version, timestamp
/// window, replay (a fresh nonce is remembered from here on, whatever
/// follows), tag, frame.
pub open spec fn v2_outcome(d: Seq<u8>, token: Seq<u8>, now: u64, seen: Seq<u128>) -> (Result<FrameView, DatagramFault>, Seq<u128>) {
    let split = d.len() - DISCOVERY_AUTH_TRAILER_LEN;
    let frame = d.subrange(0, split);
    let trailer = d.subrange(split, d.len() as int);
    if trailer[0] != 71u8 || trailer[1] != 76u8 {
        (Err(DatagramFault::InvalidTrailer), seen)
    } else if trailer[2] != DISCOVERY_AUTH_PROTOCOL_VERSION {
        (Err(DatagramFault::UnsupportedVersion(trailer[2])), seen)
    } else {
        let ts = spec_u64_from_le_bytes(trailer.subrange(3, 11));
        let nonce = spec_u128_from_le_bytes(trailer.subrange(11, 27));
        if !in_window(ts, now) {
            (Err(DatagramFault::TimestampOutsideWindow), seen)
        } else if seen.contains(nonce) {
            (Err(DatagramFault::ReplayNonce), seen)
        } else if trailer.subrange(27, 59) != auth_tag_of(frame, token, ts, nonce) {
            (Err(DatagramFault::TagMismatch), remembered(seen, nonce))
        } else {
            (frame_outcome(frame), remembered(seen, nonce))
        }
    }
}

/// Outcome of checking the legacy CRC32 tag that ends `d`.
pub open spec fn legacy_outcome(d: Seq<u8>, token: Seq<u8>) -> Result<FrameView, DatagramFault> {
    if d.len() < 12 {
        Err(DatagramFault::TooShortForAuth)
    } else {
        let frame = d.subrange(0, d.len() - 4);
        if legacy_tag_of(frame, token) != spec_u32_from_le_bytes(d.subrange(d.len() - 4, d.len() as int)) {
            Err(DatagramFault::TagMismatch)
        } else {
            frame_outcome(frame)
        }
    }
}

/// Outcome of decoding datagram `d`, and the nonces remembered afterwards:
/// without a token the datagram is a bare frame; with one it must carry a
/// valid trailer, or, when allowed, a valid legacy tag instead.
pub open spec fn decode_outcome(
    d: Seq<u8>,
    token: Option<Seq<u8>>,
    allow_legacy: bool,
    now: u64,
    seen: Seq<u128>,
) -> (Result<FrameView, DatagramFault>, Seq<u128>) {
    match token {
        None => (frame_outcome(d), seen),
        Some(t) => if d.len() < DISCOVERY_AUTH_TRAILER_LEN {
            (Err(DatagramFault::TooShortForAuth), seen)
        } else {
            let (r, after) = v2_outcome(d, t, now, seen);
            if r is Ok || !allow_legacy {
                (r, after)
            } else {
                (legacy_outcome(d, t), after)
            }
        },
    }
}

/// Byte-wise equality.
fn bytes_equal(a: &[u8], b: &[u8]) -> (r: bool)
    ensures
        r == (a@ == b@),
{
    if a.len() != b.len() {
        return false;
    }
    let mut i: usize = 0;
    while i < a.len()
        invariant
            i <= a@.len(),
            a@.len() == b@.len(),
            forall|j: int| 0 <= j < i ==> a@[j] == b@[j],
        decreases a@.len() - i,
    {
        if a[i] != b[i] {
            return false;
        }
        i += 1;
    }
    proof {
        assert(a@ =~= b@);
    }
    true
}

/// Decode bare frame bytes, reporting a frame error with its message.
fn decode_frame(frame_bytes: &[u8]) -> (r: Result<DiscoveryFrame, DatagramDecodeError>)
    ensures
        outcome_matches(r, frame_outcome(frame_bytes@)),
{
    match DiscoveryFrame::decode(frame_bytes) {
        Ok(f) => Ok(f),
        Err(m) => Err(DatagramDecodeError::FrameDecode(m)),
    }
}

/// Check the authentication trailer of `datagram` at time `now_secs`,
/// recording its nonce in `cache`, then decode the frame it carries.
pub fn decode_v2_auth_datagram(
    datagram: &[u8],
    token: &str,
    cache: &mut ReplayCache,
    now_secs: u64,
) -> (r: Result<DiscoveryFrame, DatagramDecodeError>)
    requires
        datagram@.len() >= DISCOVERY_AUTH_TRAILER_LEN,
        old(cache).wf(),
    ensures
        final(cache).wf(),
        final(cache)@ == v2_outcome(datagram@, token.spec_bytes(), now_secs, old(cache)@).1,
        outcome_matches(r, v2_outcome(datagram@, token.spec_bytes(), now_secs, old(cache)@).0),
{
    let split = datagram.len() - DISCOVERY_AUTH_TRAILER_LEN;
    let frame_bytes = &datagram[0..split];
    let trailer = &datagram[split..datagram.len()];
    assert(trailer@ =~= datagram@.subrange(split as int, datagram@.len() as int));
    if trailer[0] != 71u8 || trailer[1] != 76u8 {
        return Err(DatagramDecodeError::InvalidAuthTrailerLength);
    }
    let version = trailer[2];
    if version != DISCOVERY_AUTH_PROTOCOL_VERSION {
        return Err(DatagramDecodeError::UnsupportedAuthProtocolVersion(version));
    }
    let ts_bytes = &trailer[3..11];
    let timestamp_secs = u64_from_le_bytes(ts_bytes);
    let nonce_bytes = &trailer[11..27];
    let nonce = u128_from_le_bytes(nonce_bytes);
    proof {
        assert(ts_bytes@ =~= trailer@.subrange(3, 11));
        assert(nonce_bytes@ =~= trailer@.subrange(11, 27));
    }
    if !timestamp_in_window_at(timestamp_secs, now_secs) {
        return Err(DatagramDecodeError::AuthTimestampOutsideWindow);
    }
    if !cache.check_and_insert(nonce) {
        return Err(DatagramDecodeError::ReplayNonceDetected);
    }
    let received = &trailer[27..59];
    let expected = auth_tag_v2(frame_bytes, token, timestamp_secs, nonce);
    proof {
        assert(received@ =~= trailer@.subrange(27, 59));
        assert(frame_bytes@ =~= datagram@.subrange(0, split as int));
    }
    if !bytes_equal(received, expected.as_slice()) {
        return Err(DatagramDecodeError::AuthTagMismatch);
    }
    decode_frame(frame_bytes)
}

/// Check the legacy CRC32 tag that ends `datagram`, then decode the frame
/// before it.
pub fn decode_legacy_crc32_datagram(datagram: &[u8], token: &str) -> (r: Result<DiscoveryFrame, DatagramDecodeError>)
    ensures
        outcome_matches(r, legacy_outcome(datagram@, token.spec_bytes())),
{
    if datagram.len() < 12 {
        return Err(DatagramDecodeError::DatagramTooShortForAuth);
    }
    let split = datagram.len() - 4;
    let frame_bytes = &datagram[0..split];
    let tag_bytes = &datagram[split..datagram.len()];
    let expected = legacy_auth_tag(frame_bytes, token);
    let received = u32_from_le_bytes(tag_bytes);
    proof {
        assert(frame_bytes@ =~= datagram@.subrange(0, split as int));
        assert(tag_bytes@ =~= datagram@.subrange(split as int, datagram@.len() as int));
    }
    if expected != received {
        return Err(DatagramDecodeError::AuthTagMismatch);
    }
    decode_frame(frame_bytes)
}

/// Decode a received datagram at time `now_secs`, with replay detection
/// through `cache`.
pub fn decode_datagram_at(
    datagram: &[u8],
    auth_token: Option<&str>,
    allow_legacy_crc32: bool,
    cache: &mut ReplayCache,
    now_secs: u64,
) -> (r: Result<DiscoveryFrame, DatagramDecodeError>)
    requires
        old(cache).wf(),
    ensures
        final(cache).wf(),
        final(cache)@ == decode_outcome(datagram@, token_bytes(auth_token), allow_legacy_crc32, now_secs, old(cache)@).1,
        outcome_matches(r, decode_outcome(datagram@, token_bytes(auth_token), allow_legacy_crc32, now_secs, old(cache)@).0),
{
    match auth_token {
        None => decode_frame(datagram),
        Some(token) => {
            if datagram.len() < DISCOVERY_AUTH_TRAILER_LEN {
                return Err(DatagramDecodeError::DatagramTooShortForAuth);
            }
            let v2 = decode_v2_auth_datagram(datagram, token, cache, now_secs);
            if v2.is_ok() || !allow_legacy_crc32 {
                v2
            } else {
                decode_legacy_crc32_datagram(datagram, token)
            }
        },
    }
}

/// Decode a received datagram against the local clock, with replay
/// detection through `cache`.
pub fn decode_datagram_with_options(
    datagram: &[u8],
    auth_token: Option<&str>,
    allow_legacy_crc32: bool,
    cache: &mut ReplayCache,
) -> (r: Result<DiscoveryFrame, DatagramDecodeError>)
    requires
        old(cache).wf(),
    ensures
        final(cache).wf(),
        exists|now: u64|
            final(cache)@ == decode_outcome(datagram@, token_bytes(auth_token), allow_legacy_crc32, now, old(cache)@).1
            && outcome_matches(r, decode_outcome(datagram@, token_bytes(auth_token), allow_legacy_crc32, now, old(cache)@).0),
{
    let now = unix_secs();
    decode_datagram_at(datagram, auth_token, allow_legacy_crc32, cache, now)
}

/// Decode a received datagram against the local clock, without the legacy
/// fallback and without remembering nonces.
pub fn decode_datagram(datagram: &[u8], auth_token: Option<&str>) -> (r: Result<DiscoveryFrame, DatagramDecodeError>)
    ensures
        exists|now: u64| outcome_matches(r, decode_outcome(datagram@, token_bytes(auth_token), false, now, Seq::<u128>::empty()).0),
{
    let mut cache = ReplayCache::new();
    decode_datagram_with_options(datagram, auth_token, false, &mut cache)
}

impl DatagramDecodeError {
    /// Human-readable description of the error.
    pub fn message(&self) -> (m: String)
        ensures
            m@ == decode_error_text(*self),
    {
        match self {
            DatagramDecodeError::DatagramTooShortForAuth => "discovery datagram too short for auth trailer".to_owned(),
            DatagramDecodeError::InvalidAuthTrailerLength => "invalid auth trailer length".to_owned(),
            DatagramDecodeError::UnsupportedAuthProtocolVersion(v) => {
                let mut m = "unsupported discovery auth protocol version ".to_owned();
                push_decimal(&mut m, *v as u64);
                m
            },
            DatagramDecodeError::AuthTimestampOutsideWindow => "discovery datagram auth timestamp outside allowed window".to_owned(),
            DatagramDecodeError::ReplayNonceDetected => "discovery datagram replay nonce detected".to_owned(),
            DatagramDecodeError::AuthTagMismatch => "discovery datagram auth tag mismatch".to_owned(),
            DatagramDecodeError::FrameDecode(message) => message.as_str().to_owned(),
        }
    }
}

/// Text of each decode error.
pub open spec fn decode_error_text(e: DatagramDecodeError) -> Seq<char> {
    match e {
        DatagramDecodeError::DatagramTooShortForAuth => "discovery datagram too short for auth trailer"@,
        DatagramDecodeError::InvalidAuthTrailerLength => "invalid auth trailer length"@,
        DatagramDecodeError::UnsupportedAuthProtocolVersion(v) => "unsupported discovery auth protocol version "@ + decimal(v as nat),
        DatagramDecodeError::AuthTimestampOutsideWindow => "discovery datagram auth timestamp outside allowed window"@,
        DatagramDecodeError::ReplayNonceDetected => "discovery datagram replay nonce detected"@,
        DatagramDecodeError::AuthTagMismatch => "discovery datagram auth tag mismatch"@,
        DatagramDecodeError::FrameDecode(message) => message@,
    }
}

// ---------------------------------------------------------------------
// Responder bookkeeping
// ---------------------------------------------------------------------

/// Frames a discovery responder answers: join requests and discovery
/// announcements.
pub open spec fn answers(kind: FrameKind) -> bool {
    kind == FrameKind::Join || kind == FrameKind::Discovery
}

/// Whether a responder answers a frame of this kind.
pub fn wants_reply(kind: FrameKind) -> (b: bool)
    ensures
        b == answers(kind),
{
    match kind {
        FrameKind::Join | FrameKind::Discovery => true,
        _ => false,
    }
}

/// What a responder does with one received datagram.
#[derive(Clone, Copy, Debug, PartialEq, Eq, Structural)]
pub enum ServeAction {
    /// Send the reply.
    Reply,
    /// A valid frame of a kind that gets no answer.
    DropUnsupportedKind,
    /// The authentication tag did not match.
    DropAuthMismatch,
    /// Any other decoding failure.
    DropMalformed,
}

/// The responder's action for a decode result.
pub open spec fn action_for(r: Result<DiscoveryFrame, DatagramDecodeError>) -> ServeAction {
    match r {
        Ok(f) => if answers(f.kind) {
            ServeAction::Reply
        } else {
            ServeAction::DropUnsupportedKind
        },
        Err(DatagramDecodeError::AuthTagMismatch) => ServeAction::DropAuthMismatch,
        Err(_) => ServeAction::DropMalformed,
    }
}

/// Classify a decode result for a responder.
pub fn classify_datagram(r: &Result<DiscoveryFrame, DatagramDecodeError>) -> (a: ServeAction)
    ensures
        a == action_for(*r),
{
    match r {
        Ok(f) => if wants_reply(f.kind) {
            ServeAction::Reply
        } else {
            ServeAction::DropUnsupportedKind
        },
        Err(DatagramDecodeError::AuthTagMismatch) => ServeAction::DropAuthMismatch,
        Err(_) => ServeAction::DropMalformed,
    }
}

impl DiscoveryServeStats {
    /// Count one datagram: a reply counts once it was sent; each drop counts
    /// under its reason.
    pub fn record(&mut self, action: ServeAction, reply_sent: bool)
        requires
            old(self).replies_sent < usize::MAX,
            old(self).drops.malformed < usize::MAX,
            old(self).drops.auth_mismatch < usize::MAX,
            old(self).drops.unsupported_kind < usize::MAX,
        ensures
            final(self).replies_sent == old(self).replies_sent + (if action == ServeAction::Reply && reply_sent { 1int } else { 0int }),
            final(self).drops.unsupported_kind == old(self).drops.unsupported_kind + (if action == ServeAction::DropUnsupportedKind { 1int } else { 0int }),
            final(self).drops.auth_mismatch == old(self).drops.auth_mismatch + (if action == ServeAction::DropAuthMismatch { 1int } else { 0int }),
            final(self).drops.malformed == old(self).drops.malformed + (if action == ServeAction::DropMalformed { 1int } else { 0int }),
    {
        match action {
            ServeAction::Reply => {
                if reply_sent {
                    self.replies_sent = self.replies_sent + 1;
                }
            },
            ServeAction::DropUnsupportedKind => {
                self.drops.unsupported_kind = self.drops.unsupported_kind + 1;
            },
            ServeAction::DropAuthMismatch => {
                self.drops.auth_mismatch = self.drops.auth_mismatch + 1;
            },
            ServeAction::DropMalformed => {
                self.drops.malformed = self.drops.malformed + 1;
            },
        }
    }

    /// Whether a responder limited to `max_replies` replies is done.
    pub fn limit_reached(&self, max_replies: Option<usize>) -> (b: bool)
        ensures
            b == (match max_replies {
                Some(limit) => self.replies_sent >= limit,
                None => false,
            }),
    {
        match max_replies {
            Some(limit) => self.replies_sent >= limit,
            None => false,
        }
    }
}

// ---------------------------------------------------------------------
// Laws
// ---------------------------------------------------------------------

/// The trailer of a signed datagram, split back into its fields.
proof fn lemma_signed_datagram_layout(fb: Seq<u8>, token: Seq<u8>, ts: u64, nonce: u128)
    ensures
        ({
            let d = signed_datagram(fb, token, ts, nonce);
            let trailer = d.subrange(d.len() - DISCOVERY_AUTH_TRAILER_LEN, d.len() as int);
            &&& d.len() == fb.len() + DISCOVERY_AUTH_TRAILER_LEN
            &&& d.subrange(0, fb.len() as int) == fb
            &&& trailer[0] == 71u8
            &&& trailer[1] == 76u8
            &&& trailer[2] == DISCOVERY_AUTH_PROTOCOL_VERSION
            &&& spec_u64_from_le_bytes(trailer.subrange(3, 11)) == ts
            &&& spec_u128_from_le_bytes(trailer.subrange(11, 27)) == nonce
            &&& trailer.subrange(27, 59) == auth_tag_of(fb, token, ts, nonce)
        }),
{
    vstd::bytes::lemma_auto_spec_u64_to_from_le_bytes();
    vstd::bytes::lemma_auto_spec_u128_to_from_le_bytes();
    let d = signed_datagram(fb, token, ts, nonce);
    let tb = spec_u64_to_le_bytes(ts);
    let nb = spec_u128_to_le_bytes(nonce);
    let tag = auth_tag_of(fb, token, ts, nonce);
    assert(tag.len() == 32);
    let trailer = d.subrange(d.len() - DISCOVERY_AUTH_TRAILER_LEN, d.len() as int);
    assert(trailer =~= trailer_head() + tb + nb + tag);
    assert(d.subrange(0, fb.len() as int) =~= fb);
    assert(trailer.subrange(3, 11) =~= tb);
    assert(trailer.subrange(11, 27) =~= nb);
    assert(trailer.subrange(27, 59) =~= tag);
}

/// A frame signed with the shared token, at a time within the skew window
/// of the receiver's clock and with a nonce the receiver has not seen,
/// decodes to the frame that was sent (when its node fits the payload
/// limit; a port of `Some(0)` is read as `None`); the nonce is then
/// remembered.
pub proof fn lemma_signed_datagram_round_trip(
    f: FrameView,
    token: Seq<u8>,
    ts: u64,
    nonce: u128,
    allow_legacy: bool,
    now: u64,
    seen: Seq<u128>,
)
    requires
        encodable(f.node, MAX_PAYLOAD_SIZE as nat),
        in_window(ts, now),
        !seen.contains(nonce),
    ensures
        decode_outcome(datagram_bytes(f, Some(token), ts, nonce), Some(token), allow_legacy, now, seen)
            == (Ok::<FrameView, DatagramFault>(frame_as_received(f)), remembered(seen, nonce)),
{
    lemma_signed_datagram_layout(frame_bytes(f), token, ts, nonce);
    lemma_frame_round_trip(f);
}

/// Without a token, a frame travels as its bare bytes and decodes to
/// itself (under the same conditions as a frame round trip).
pub proof fn lemma_unsigned_datagram_round_trip(f: FrameView, allow_legacy: bool, now: u64, seen: Seq<u128>)
    requires
        encodable(f.node, MAX_PAYLOAD_SIZE as nat),
    ensures
        decode_outcome(datagram_bytes(f, None, 0, 0), None, allow_legacy, now, seen)
            == (Ok::<FrameView, DatagramFault>(frame_as_received(f)), seen),
{
    lemma_frame_round_trip(f);
}

/// A signed datagram presented again, while its nonce is still remembered,
/// is refused as a replay (when the legacy fallback is off).
pub proof fn lemma_replayed_datagram_refused(
    f: FrameView,
    token: Seq<u8>,
    ts: u64,
    nonce: u128,
    now: u64,
    seen: Seq<u128>,
)
    requires
        in_window(ts, now),
        seen.contains(nonce),
    ensures
        decode_outcome(datagram_bytes(f, Some(token), ts, nonce), Some(token), false, now, seen)
            == (Err::<FrameView, DatagramFault>(DatagramFault::ReplayNonce), seen),
{
    lemma_signed_datagram_layout(frame_bytes(f), token, ts, nonce);
}

/// With a token and no legacy fallback, a datagram is accepted only when
/// its last 32 bytes are the HMAC-SHA256, under the token, of everything
/// before them.
pub proof fn lemma_accepted_datagram_is_authentic(d: Seq<u8>, token: Seq<u8>, now: u64, seen: Seq<u128>)
    requires
        decode_outcome(d, Some(token), false, now, seen).0 is Ok,
    ensures
        d.len() >= DISCOVERY_AUTH_TRAILER_LEN,
        d.subrange(d.len() - DISCOVERY_AUTH_TAG_LEN, d.len() as int)
            == hmac_sha256_of(token, d.subrange(0, d.len() - DISCOVERY_AUTH_TAG_LEN))@,
{
    vstd::bytes::lemma_auto_spec_u64_to_from_le_bytes();
    vstd::bytes::lemma_auto_spec_u128_to_from_le_bytes();
    let split = d.len() - DISCOVERY_AUTH_TRAILER_LEN;
    let frame = d.subrange(0, split);
    let trailer = d.subrange(split, d.len() as int);
    let tsb = trailer.subrange(3, 11);
    let nb = trailer.subrange(11, 27);
    let ts = spec_u64_from_le_bytes(tsb);
    let nonce = spec_u128_from_le_bytes(nb);
    assert(spec_u64_to_le_bytes(ts) == tsb);
    assert(spec_u128_to_le_bytes(nonce) == nb);
    assert(signed_message(frame, ts, nonce) =~= d.subrange(0, d.len() - DISCOVERY_AUTH_TAG_LEN));
    assert(trailer.subrange(27, 59) =~= d.subrange(d.len() - DISCOVERY_AUTH_TAG_LEN, d.len() as int));
}

} // verus!

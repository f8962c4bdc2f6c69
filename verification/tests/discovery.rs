use ghostlink::discovery::{
    auth_tag_v2, classify_datagram, decode_datagram, decode_datagram_at, decode_legacy_crc32_datagram,
    encode_datagram, encode_datagram_at, legacy_auth_tag, timestamp_in_window_at, wants_reply, DatagramDecodeError,
    DiscoveryServeStats, ReplayCache, ServeAction, DEFAULT_DISCOVERY_PORT, DISCOVERY_AUTH_TRAILER_LEN,
    DISCOVERY_NONCE_CACHE_CAPACITY,
};
use ghostlink::protocol::{DiscoveryFrame, FrameKind, NodeResources};

fn frame(kind: FrameKind, id: &str) -> DiscoveryFrame {
    DiscoveryFrame {
        kind,
        node: NodeResources::new(id.to_string(), 12.0f32.to_bits(), 32.0f32.to_bits(), "8.6".to_string(), None),
    }
}

#[test]
fn datagram_auth_validation_rejects_modified_data() {
    let f = frame(FrameKind::Join, "node-b");
    let mut packet = encode_datagram(&f, Some("secret"));
    packet[3] ^= 0x1;
    let result = decode_datagram(&packet, Some("secret"));
    assert!(result.is_err());
}

#[test]
fn signed_datagram_round_trips_within_the_window() {
    let f = frame(FrameKind::Join, "node-a");
    let packet = encode_datagram_at(&f, Some("secret"), 1_000_000, 42);
    assert_eq!(packet.len(), f.encode().len() + DISCOVERY_AUTH_TRAILER_LEN);
    let mut cache = ReplayCache::new();
    let decoded = decode_datagram_at(&packet, Some("secret"), false, &mut cache, 1_000_030).expect("valid");
    assert_eq!(decoded.kind, FrameKind::Join);
    assert_eq!(decoded.node.id, "node-a");
    assert_eq!(cache.len(), 1);
}

#[test]
fn replayed_datagram_is_refused() {
    let f = frame(FrameKind::Discovery, "node-a");
    let packet = encode_datagram_at(&f, Some("secret"), 500, 7);
    let mut cache = ReplayCache::new();
    assert!(decode_datagram_at(&packet, Some("secret"), false, &mut cache, 500).is_ok());
    assert_eq!(decode_datagram_at(&packet, Some("secret"), false, &mut cache, 500).unwrap_err(), DatagramDecodeError::ReplayNonceDetected);
}

#[test]
fn stale_timestamp_is_refused() {
    let f = frame(FrameKind::Join, "node-a");
    let packet = encode_datagram_at(&f, Some("secret"), 1_000, 1);
    let mut cache = ReplayCache::new();
    assert_eq!(decode_datagram_at(&packet, Some("secret"), false, &mut cache, 1_031).unwrap_err(), DatagramDecodeError::AuthTimestampOutsideWindow);
    assert_eq!(cache.len(), 0);
    assert!(timestamp_in_window_at(1_000, 1_030));
    assert!(timestamp_in_window_at(1_030, 1_000));
    assert!(!timestamp_in_window_at(969, 1_000));
}

#[test]
fn wrong_token_is_a_tag_mismatch() {
    let f = frame(FrameKind::Join, "node-a");
    let packet = encode_datagram_at(&f, Some("secret"), 10, 3);
    let mut cache = ReplayCache::new();
    let err = decode_datagram_at(&packet, Some("other"), false, &mut cache, 10).unwrap_err();
    assert_eq!(err, DatagramDecodeError::AuthTagMismatch);
    assert_eq!(err.message(), "discovery datagram auth tag mismatch");
    // The nonce was remembered before the tag was checked.
    assert_eq!(cache.len(), 1);
}

#[test]
fn short_and_malformed_trailers_are_refused() {
    let mut cache = ReplayCache::new();
    assert_eq!(decode_datagram_at(&[0u8; 10], Some("t"), false, &mut cache, 0).unwrap_err(), DatagramDecodeError::DatagramTooShortForAuth);
    let f = frame(FrameKind::Join, "node-a");
    let mut packet = encode_datagram_at(&f, Some("t"), 0, 9);
    let at = packet.len() - DISCOVERY_AUTH_TRAILER_LEN;
    packet[at + 2] = 3;
    let err = decode_datagram_at(&packet, Some("t"), false, &mut cache, 0).unwrap_err();
    assert_eq!(err, DatagramDecodeError::UnsupportedAuthProtocolVersion(3));
    assert_eq!(err.message(), "unsupported discovery auth protocol version 3");
    packet[at] = b'X';
    assert_eq!(decode_datagram_at(&packet, Some("t"), false, &mut cache, 0).unwrap_err(), DatagramDecodeError::InvalidAuthTrailerLength);
}

#[test]
fn unsigned_datagram_is_the_bare_frame() {
    let f = frame(FrameKind::Discovery, "node-z");
    let packet = encode_datagram(&f, None);
    assert_eq!(packet, f.encode());
    let decoded = decode_datagram(&packet, None).unwrap();
    assert_eq!(decoded.node.id, "node-z");
    let err = decode_datagram(&packet[..4], None).unwrap_err();
    assert_eq!(err, DatagramDecodeError::FrameDecode("frame too short".to_string()));
}

#[test]
fn legacy_crc32_tag_is_accepted_only_when_allowed() {
    let f = DiscoveryFrame {
        kind: FrameKind::Join,
        node: NodeResources::new(
            "legacy".to_string(),
            8.0f32.to_bits(),
            16.0f32.to_bits(),
            "7.5".to_string(),
            Some("NVIDIA GeForce RTX 4090 Laptop GPU".to_string()),
        ),
    };
    let mut packet = f.encode();
    assert!(packet.len() + 4 >= DISCOVERY_AUTH_TRAILER_LEN);
    let tag = legacy_auth_tag(&packet, "secret");
    packet.extend_from_slice(&tag.to_le_bytes());
    assert!(decode_legacy_crc32_datagram(&packet, "secret").is_ok());
    assert_eq!(decode_legacy_crc32_datagram(&packet, "nope").unwrap_err(), DatagramDecodeError::AuthTagMismatch);
    let mut cache = ReplayCache::new();
    assert!(decode_datagram_at(&packet, Some("secret"), false, &mut cache, 0).is_err());
    assert!(decode_datagram_at(&packet, Some("secret"), true, &mut cache, 0).is_ok());
}

#[test]
fn auth_tag_depends_on_every_input() {
    let a = auth_tag_v2(b"frame", "t", 1, 2);
    assert_eq!(a, auth_tag_v2(b"frame", "t", 1, 2));
    assert_ne!(a, auth_tag_v2(b"frame", "u", 1, 2));
    assert_ne!(a, auth_tag_v2(b"frame", "t", 2, 2));
    assert_ne!(a, auth_tag_v2(b"frame", "t", 1, 3));
    assert_ne!(a, auth_tag_v2(b"frams", "t", 1, 2));
}

#[test]
fn replay_cache_forgets_the_oldest_beyond_capacity() {
    let mut cache = ReplayCache::new();
    for n in 0..(DISCOVERY_NONCE_CACHE_CAPACITY as u128 + 1) {
        assert!(cache.check_and_insert(n));
    }
    assert_eq!(cache.len(), DISCOVERY_NONCE_CACHE_CAPACITY);
    assert!(cache.check_and_insert(0), "the oldest nonce was evicted");
    assert!(!cache.check_and_insert(DISCOVERY_NONCE_CACHE_CAPACITY as u128));
}

#[test]
fn responder_classifies_and_counts() {
    let join = Ok(frame(FrameKind::Join, "a"));
    let health = Ok(frame(FrameKind::HealthCheck, "a"));
    assert_eq!(classify_datagram(&join), ServeAction::Reply);
    assert_eq!(classify_datagram(&health), ServeAction::DropUnsupportedKind);
    assert_eq!(classify_datagram(&Err(DatagramDecodeError::AuthTagMismatch)), ServeAction::DropAuthMismatch);
    assert_eq!(classify_datagram(&Err(DatagramDecodeError::ReplayNonceDetected)), ServeAction::DropMalformed);
    assert!(wants_reply(FrameKind::Discovery));
    assert!(!wants_reply(FrameKind::Attestation));

    let mut stats = DiscoveryServeStats::default();
    stats.record(ServeAction::Reply, true);
    stats.record(ServeAction::Reply, false);
    stats.record(ServeAction::DropMalformed, false);
    stats.record(ServeAction::DropAuthMismatch, false);
    stats.record(ServeAction::DropUnsupportedKind, false);
    assert_eq!(stats.replies_sent, 1);
    assert_eq!(stats.drops.malformed, 1);
    assert_eq!(stats.drops.auth_mismatch, 1);
    assert_eq!(stats.drops.unsupported_kind, 1);
    assert!(stats.limit_reached(Some(1)));
    assert!(!stats.limit_reached(Some(2)));
    assert!(!stats.limit_reached(None));
    assert_eq!(DEFAULT_DISCOVERY_PORT, 45885);
}

use hmac::{Hmac, Mac};
use sha2::Sha256;
use ghostlink::schedule::DeviceKind;
use ghostlink::transport::{
    push_payload_bytes, read_stage_handshake, read_transport_batch, read_transport_batch_session,
    write_stage_handshake, write_transport_header, write_transport_header_session, SessionAuth, TransportBatch,
    TransportError, TransportStep, MAX_WIRE_PAYLOAD_ELEMS,
};

fn batch(id: usize, tokens: usize, payload: &[f32]) -> TransportBatch {
    TransportBatch { batch_id: id, tokens_in_batch: tokens, payload: payload.iter().map(|v| v.to_bits()).collect() }
}

fn encode(b: &TransportBatch, stage: usize, token: Option<&str>) -> Vec<u8> {
    let mut frame = Vec::new();
    write_transport_header(b, stage, token, &mut frame);
    push_payload_bytes(&mut frame, &b.payload);
    frame
}

#[test]
fn transport_rejects_auth_mismatch_frames() {
    let b = batch(7, 4, &[0.1, 0.2, 0.3, 0.4]);
    let encoded = encode(&b, 0, Some("token-a"));
    let err = read_transport_batch(&encoded, 0, Some("token-b")).expect_err("mismatched token should fail");
    assert_eq!(err, TransportError::TagMismatch);
    assert!(!err.is_permission_denied());
}

#[test]
fn transport_rejects_unexpected_source_stage() {
    let b = batch(2, 2, &[1.0, 2.0]);
    let encoded = encode(&b, 1, Some("token"));
    let err = read_transport_batch(&encoded, 0, Some("token")).expect_err("source-stage mismatch should fail");
    assert_eq!(err, TransportError::UnexpectedSourceStage);
    assert!(!err.is_permission_denied());
}

#[test]
fn hmac_frame_round_trips() {
    let b = batch(9, 3, &[1.5, -2.0, 0.25]);
    let mut encoded = encode(&b, 2, Some("secret"));
    let len = encoded.len();
    assert_eq!(len, 19 + 32 + 12);
    encoded.extend_from_slice(&[0xAA, 0xBB]);
    match read_transport_batch(&encoded, 2, Some("secret")).unwrap() {
        TransportStep::Frame(got, consumed) => {
            assert_eq!(got, b);
            assert_eq!(consumed, len);
        }
        other => panic!("expected a frame, got {other:?}"),
    }
}

#[test]
fn plain_frame_round_trips_and_asks_for_missing_bytes() {
    let b = batch(1, 1, &[3.0, 4.0]);
    let encoded = encode(&b, 0, None);
    assert_eq!(encoded.len(), 19 + 8);
    for (n, want) in [(0usize, 2usize), (1, 2), (2, 18), (17, 18), (18, 19), (20, 27), (26, 27)] {
        match read_transport_batch(&encoded[..n], 0, None).unwrap() {
            TransportStep::NeedBytes(k) => assert_eq!(k, want, "after {n} bytes"),
            other => panic!("after {n} bytes: {other:?}"),
        }
    }
    match read_transport_batch(&encoded, 0, None).unwrap() {
        TransportStep::Frame(got, consumed) => {
            assert_eq!(got, b);
            assert_eq!(consumed, 27);
        }
        other => panic!("{other:?}"),
    }
}

#[test]
fn authentication_mismatches_are_permission_errors() {
    let b = batch(1, 1, &[1.0]);
    let plain = encode(&b, 0, None);
    let tagged = encode(&b, 0, Some("t"));
    assert_eq!(read_transport_batch(&plain, 0, Some("t")).unwrap_err(), TransportError::AuthRequired);
    let err = read_transport_batch(&tagged, 0, None).unwrap_err();
    assert_eq!(err, TransportError::HmacWithoutToken);
    assert!(err.is_permission_denied());
    assert_eq!(err.message(), "HMAC auth present but no token configured");
}

#[test]
fn oversized_and_unknown_frames_are_refused() {
    let mut header = vec![0u8; 19];
    header[14..18].copy_from_slice(&((MAX_WIRE_PAYLOAD_ELEMS as u32) + 1).to_le_bytes());
    let err = read_transport_batch(&header, 0, None).unwrap_err();
    assert_eq!(err, TransportError::PayloadTooLarge(MAX_WIRE_PAYLOAD_ELEMS + 1));
    assert_eq!(
        err.message(),
        "wire payload length 67108865 exceeds maximum 67108864 (corrupted or cross-wired frame?)"
    );
    let mut unknown = vec![0u8; 19];
    unknown[18] = 9;
    assert_eq!(read_transport_batch(&unknown, 0, None).unwrap_err(), TransportError::UnknownAuthType);
}

#[test]
fn session_frames_are_monotonic() {
    let b = batch(4, 2, &[1.0, 2.0]);
    let mut sender = SessionAuth { session_id: 77, seq: 5, peer_seq: 0 };
    let mut receiver = SessionAuth { session_id: 77, seq: 0, peer_seq: 0 };
    let mut first = Vec::new();
    write_transport_header_session(&b, 0, &mut sender, &mut first);
    push_payload_bytes(&mut first, &b.payload);
    let mut second = Vec::new();
    write_transport_header_session(&b, 0, &mut sender, &mut second);
    push_payload_bytes(&mut second, &b.payload);
    assert_eq!(sender.seq, 7);

    match read_transport_batch_session(&second, 0, &mut receiver).unwrap() {
        TransportStep::Frame(got, _) => assert_eq!(got, b),
        other => panic!("{other:?}"),
    }
    assert_eq!(receiver.peer_seq, 6);
    assert_eq!(
        read_transport_batch_session(&first, 0, &mut receiver).unwrap_err(),
        TransportError::NonMonotonicGeneration
    );
    assert_eq!(receiver.peer_seq, 6);

    let mut stranger = SessionAuth { session_id: 78, seq: 0, peer_seq: 0 };
    assert_eq!(
        read_transport_batch_session(&second, 0, &mut stranger).unwrap_err(),
        TransportError::SessionIdMismatch
    );
    assert_eq!(read_transport_batch(&second, 0, None).unwrap_err(), TransportError::SessionRequired);
}

#[test]
fn stage_handshake_round_trips_layer_count_and_device() {
    let buf = write_stage_handshake(37 - 5, DeviceKind::Gpu);
    assert_eq!(buf.len(), 5);
    let decoded = read_stage_handshake(&buf).expect("handshake read failed");
    assert_eq!(decoded.0, 32);
    assert_eq!(decoded.1, DeviceKind::Gpu);
    assert_eq!(read_stage_handshake(&buf[..4]), None);
    assert_eq!(read_stage_handshake(&[1, 0, 0, 0, 7]), Some((1, DeviceKind::Cpu)));
}

#[test]
fn session_id_is_derived_from_the_token() {
    let mut mac = <Hmac<Sha256> as Mac>::new_from_slice(b"cluster-secret").unwrap();
    mac.update(b"session-id");
    let digest = mac.finalize().into_bytes();
    let mut first = [0u8; 8];
    first.copy_from_slice(&digest[..8]);
    let expected = u64::from_le_bytes(first);

    let a = SessionAuth::from_token("cluster-secret");
    assert_eq!(a.session_id, expected);
    assert_eq!(a.seq, 0);
    assert_eq!(a.peer_seq, 0);
    assert_ne!(SessionAuth::from_token("other-secret").session_id, expected);
}

use ghostlink::protocol::{
    crc32, DiscoveryFrame, FrameHeader, FrameKind, NodeResources, GHOSTLINK_ETHERTYPE, HEADER_SIZE, PROTOCOL_VERSION,
};

fn node(id: &str, vram: f32, mem: f32, cc: &str, gpu: Option<&str>) -> NodeResources {
    NodeResources::new(id.to_string(), vram.to_bits(), mem.to_bits(), cc.to_string(), gpu.map(|g| g.to_string()))
}

#[test]
fn discovery_frames_round_trip() {
    let frame = DiscoveryFrame { kind: FrameKind::Join, node: node("node-b", 12.0, 32.0, "8.6", None) };
    let encoded = frame.encode();
    let decoded = DiscoveryFrame::decode(&encoded).unwrap();
    assert_eq!(decoded.kind, frame.kind);
    assert_eq!(decoded.node.id, frame.node.id);
    assert_eq!(f32::from_bits(decoded.node.vram_gb_bits), f32::from_bits(frame.node.vram_gb_bits));
}

#[test]
fn discovery_frame_encode_round_trips_rpc_port() {
    let frame = DiscoveryFrame {
        kind: FrameKind::Join,
        node: node("node-c", 12.0, 32.0, "8.6", None).with_rpc_port(50052),
    };
    let encoded = frame.encode();
    let decoded = DiscoveryFrame::decode(&encoded).unwrap();
    assert_eq!(decoded.node.rpc_port, Some(50052));
}

#[test]
fn discovery_frame_encode_without_rpc_port_decodes_to_none() {
    let frame = DiscoveryFrame { kind: FrameKind::Join, node: node("node-d", 8.0, 16.0, "7.5", None) };
    let encoded = frame.encode();
    let decoded = DiscoveryFrame::decode(&encoded).unwrap();
    assert_eq!(decoded.node.rpc_port, None);
}

#[test]
fn discovery_frame_with_port_zero_decodes_to_none() {
    let frame = DiscoveryFrame {
        kind: FrameKind::HealthCheck,
        node: node("node-z", 8.0, 16.0, "7.5", Some("gpu")).with_rpc_port(0),
    };
    let decoded = DiscoveryFrame::decode(&frame.encode()).unwrap();
    assert_eq!(decoded.kind, FrameKind::HealthCheck);
    assert_eq!(decoded.node.id, "node-z");
    assert_eq!(decoded.node.gpu_name.as_deref(), Some("gpu"));
    assert_eq!(decoded.node.rpc_port, None);
}

#[test]
fn crc_verification_fails_on_modified_payload() {
    let frame = DiscoveryFrame {
        kind: FrameKind::Discovery,
        node: node("node-a", 24.0, 64.0, "8.9", Some("RTX4090")),
    };
    let encoded = frame.encode();
    let mut modified = encoded.clone();
    modified[10] ^= 0xFF;
    let result = DiscoveryFrame::decode(&modified);
    assert!(result.is_err());
    assert!(result.unwrap_err().contains("CRC mismatch"));
}

#[test]
fn rejects_wrong_ether_type() {
    let mut fake_frame = vec![0u8; 10];
    fake_frame[0] = 0xB5u8;
    fake_frame[1] = 0xFF;
    let result = DiscoveryFrame::decode(&fake_frame);
    assert!(result.is_err());
}

#[test]
fn wrong_ether_type_message_names_the_type() {
    let mut fake_frame = vec![0u8; 10];
    fake_frame[0] = 0xB5u8;
    fake_frame[1] = 0xFF;
    assert_eq!(DiscoveryFrame::decode(&fake_frame).unwrap_err(), "unexpected EtherType 0xffb5");
}

#[test]
fn encode_payload_into_accepts_exact_max_size_with_gpu_name() {
    let n = node("a", 1.0, 1.0, "b", Some("c"));
    let mut buffer = Vec::new();
    let written = n.encode_payload_into(&mut buffer, 17).expect("payload of exactly 17 bytes must fit within max_size 17");
    assert_eq!(written, 17);
    assert_eq!(buffer.len(), 17);
}

#[test]
fn encode_payload_into_rejects_one_byte_short() {
    let n = node("a", 1.0, 1.0, "b", Some("c"));
    let mut buffer = Vec::new();
    assert!(n.encode_payload_into(&mut buffer, 16).is_err());
}

#[test]
fn node_resources_round_trip_preserves_rpc_port() {
    let n = node("node-e", 12.0, 32.0, "8.6", None).with_rpc_port(50052);
    let encoded = n.encode_payload(64);
    let decoded = NodeResources::decode_payload(&encoded).expect("decode");
    assert_eq!(decoded.rpc_port, Some(50052));
}

#[test]
fn node_resources_round_trip_without_rpc_port_is_none() {
    let n = node("node-f", 8.0, 16.0, "7.5", None);
    let encoded = n.encode_payload(64);
    let decoded = NodeResources::decode_payload(&encoded).expect("decode");
    assert_eq!(decoded.rpc_port, None);
}

#[test]
fn node_resources_round_trip_with_gpu_name_and_rpc_port_together() {
    let n = node("node-g", 24.0, 64.0, "8.9", Some("RTX 4090")).with_rpc_port(50053);
    let encoded = n.encode_payload(128);
    let decoded = NodeResources::decode_payload(&encoded).expect("decode");
    assert_eq!(decoded.gpu_name, Some("RTX 4090".to_string()));
    assert_eq!(decoded.rpc_port, Some(50053));
}

#[test]
fn decode_payload_from_before_rpc_port_existed_defaults_to_none() {
    let n = node("node-h", 8.0, 16.0, "7.5", None);
    let mut encoded = n.encode_payload(64);
    assert!(encoded.len() >= 2);
    encoded.truncate(encoded.len() - 2);
    let decoded = NodeResources::decode_payload(&encoded).expect("decode");
    assert_eq!(decoded.rpc_port, None);
}

#[test]
fn encode_does_not_panic_when_combined_field_lengths_exceed_max_payload() {
    let big_id = "x".repeat(200);
    let big_cc = "y".repeat(200);
    let frame = DiscoveryFrame {
        kind: FrameKind::Discovery,
        node: NodeResources::new(big_id, 1.0f32.to_bits(), 1.0f32.to_bits(), big_cc, None),
    };
    let encoded = frame.encode();
    assert_eq!(encoded.len(), 8, "should fall back to header-only frame");
    let decoded_err = DiscoveryFrame::decode(&encoded).unwrap_err();
    assert!(decoded_err.contains("payload too short") || decoded_err.contains("truncated"));
}

#[test]
fn handles_gpu_name_field() {
    let frame = DiscoveryFrame {
        kind: FrameKind::Discovery,
        node: node("gpu-node-1", 24.0, 64.0, "9.0", Some("NVIDIA GeForce RTX 4090")),
    };
    let encoded = frame.encode();
    let decoded = DiscoveryFrame::decode(&encoded).unwrap();
    assert_eq!(decoded.node.gpu_name, Some("NVIDIA GeForce RTX 4090".to_string()));
}

#[test]
fn crc32_matches_the_ieee_check_value() {
    // The standard CRC-32 check value of "123456789".
    assert_eq!(crc32(b"123456789"), 0xCBF4_3926);
}

#[test]
fn header_round_trips_through_its_eight_bytes() {
    let payload = [1u8, 2, 3];
    let header = FrameHeader::new(GHOSTLINK_ETHERTYPE, 2, &payload);
    assert_eq!(header.version, PROTOCOL_VERSION);
    assert_eq!(header.crc, crc32(&payload));
    let mut buf = [0u8; 8];
    header.encode_into(&mut buf);
    assert_eq!(buf[0], 0xB5);
    assert_eq!(buf[1], 0x88);
    let decoded = FrameHeader::decode(&buf).expect("eight bytes decode");
    assert_eq!(decoded, header);
    assert!(FrameHeader::decode(&buf[..HEADER_SIZE - 1]).is_none());
}

#[test]
fn frame_kind_codes_round_trip_and_reject_unknown() {
    for kind in [FrameKind::Discovery, FrameKind::Join, FrameKind::Attestation, FrameKind::HealthCheck, FrameKind::ResourceAdvert] {
        assert_eq!(FrameKind::from_u8(kind.as_u8()), Ok(kind));
    }
    assert_eq!(FrameKind::Discovery.as_u8(), 1);
    assert_eq!(FrameKind::ResourceAdvert.as_u8(), 5);
    assert_eq!(FrameKind::from_u8(0), Err("unknown frame kind"));
    assert_eq!(FrameKind::from_u8(6), Err("unknown frame kind"));
}

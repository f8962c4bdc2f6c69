//! Binary discovery protocol: a fixed 8-byte header carrying a CRC32 of the
//! payload, followed by a length-prefixed description of a node.

use vstd::prelude::*;
use vstd::bytes::*;
use vstd::string::StringSliceAdditionalSpecFns;
use vstd::utf8::*;
use crate::text::{append_bytes, utf8_string};
use crate::fmt::{decimal, hex, push_decimal, push_hex, zero_pad};
use vstd::string::StringExecFns;

verus! {

/// Ghost-Link EtherType.
pub const GHOSTLINK_ETHERTYPE: u16 = 0x88B5;

/// Protocol version.
pub const PROTOCOL_VERSION: u8 = 1;

/// Maximum payload size for discovery frames.
pub const MAX_PAYLOAD_SIZE: usize = 256;

/// Maximum frame size (header + max payload).
pub const MAX_FRAME_SIZE: usize = 264;

/// Size of the fixed frame header in bytes.
pub const HEADER_SIZE: usize = 8;

/// One bit step of the reflected CRC-32 register (IEEE polynomial,
/// reversed: `0xEDB88320`).
pub open spec fn crc32_shift(c: u32) -> u32 {
    if c & 1 == 1 { (c >> 1) ^ 0xEDB8_8320 } else { c >> 1 }
}

/// `n` bit steps of the register.
pub open spec fn crc32_shifts(c: u32, n: nat) -> u32
    decreases n,
{
    if n == 0 { c } else { crc32_shift(crc32_shifts(c, (n - 1) as nat)) }
}

/// The register after the bytes of `data`, starting from all ones: each
/// byte is folded into the low bits and followed by eight bit steps.
pub open spec fn crc32_register(data: Seq<u8>) -> u32
    decreases data.len(),
{
    if data.len() == 0 {
        0xFFFF_FFFF
    } else {
        crc32_shifts(crc32_register(data.drop_last()) ^ (data.last() as u32), 8)
    }
}

/// The CRC-32 (IEEE) checksum of `data`: the final register complemented.
pub open spec fn crc32_of(data: Seq<u8>) -> u32 {
    !crc32_register(data)
}

/// Compute the CRC32 checksum of `data` with `crc32fast`.
///
/// Trusted: `crc32fast::Hasher::new`, `update` and `finalize`; the contract
/// claims that the result is the CRC-32 (IEEE) of the bytes as
/// [`crc32_of`] states it.
#[verifier::external_body]
pub fn crc32(data: &[u8]) -> (c: u32)
    ensures
        c == crc32_of(data@),
{
    let mut hasher = crc32fast::Hasher::new();
    hasher.update(data);
    hasher.finalize()
}


/// Frame header (fixed width, 8 bytes on the wire).
#[derive(Clone, Copy, Debug, PartialEq, Eq)]
pub struct FrameHeader {
    /// EtherType identifying the protocol.
    pub ether_type: u16,
    /// Frame kind (see [`FrameKind`]).
    pub kind: u8,
    /// Protocol version.
    pub version: u8,
    /// CRC32 checksum of the payload.
    pub crc: u32,
}

/// Wire image of a header: ether type (LE), kind, version, CRC (LE).
pub open spec fn header_bytes(ether_type: u16, kind: u8, version: u8, crc: u32) -> Seq<u8> {
    spec_u16_to_le_bytes(ether_type) + seq![kind, version] + spec_u32_to_le_bytes(crc)
}

/// The header that the first eight bytes of `buf` describe.
pub open spec fn parse_header(buf: Seq<u8>) -> FrameHeader {
    FrameHeader {
        ether_type: spec_u16_from_le_bytes(buf.subrange(0, 2)),
        kind: buf[2],
        version: buf[3],
        crc: spec_u32_from_le_bytes(buf.subrange(4, 8)),
    }
}

impl FrameHeader {
    /// Create a header for `payload`, carrying its CRC32 and the current
    /// protocol version.
    pub fn new(ether_type: u16, kind: u8, payload: &[u8]) -> (h: FrameHeader)
        ensures
            h == (FrameHeader { ether_type, kind, version: PROTOCOL_VERSION, crc: crc32_of(payload@) }),
    {
        let crc = crc32(payload);
        FrameHeader { ether_type, kind, version: PROTOCOL_VERSION, crc }
    }

    /// Encode the header into an 8-byte buffer.
    pub fn encode_into(&self, buf: &mut [u8; 8])
        ensures
            final(buf)@ == header_bytes(self.ether_type, self.kind, self.version, self.crc),
    {
        let et = u16_to_le_bytes(self.ether_type);
        let crc = u32_to_le_bytes(self.crc);
        *buf = [et[0], et[1], self.kind, self.version, crc[0], crc[1], crc[2], crc[3]];
        proof {
            assert(buf@ =~= header_bytes(self.ether_type, self.kind, self.version, self.crc));
        }
    }

    /// Decode a header from the start of `buf`; `None` when fewer than
    /// eight bytes are given.
    pub fn decode(buf: &[u8]) -> (r: Option<FrameHeader>)
        ensures
            buf@.len() < HEADER_SIZE ==> r is None,
            buf@.len() >= HEADER_SIZE ==> r == Some(parse_header(buf@)),
    {
        if buf.len() < HEADER_SIZE {
            return None;
        }
        let ether_type = u16_from_le_bytes(&buf[0..2]);
        let kind = buf[2];
        let version = buf[3];
        let crc = u32_from_le_bytes(&buf[4..8]);
        Some(FrameHeader { ether_type, kind, version, crc })
    }
}

/// Decoding the wire image of a header gives the header back.
pub proof fn lemma_header_round_trip(h: FrameHeader)
    ensures
        header_bytes(h.ether_type, h.kind, h.version, h.crc).len() == HEADER_SIZE,
        parse_header(header_bytes(h.ether_type, h.kind, h.version, h.crc)) == h,
{
    lemma_auto_spec_u16_to_from_le_bytes();
    lemma_auto_spec_u32_to_from_le_bytes();
    let b = header_bytes(h.ether_type, h.kind, h.version, h.crc);
    assert(b.subrange(0, 2) =~= spec_u16_to_le_bytes(h.ether_type));
    assert(b.subrange(4, 8) =~= spec_u32_to_le_bytes(h.crc));
}


/// Frame kind.
#[derive(Clone, Copy, Debug, PartialEq, Eq)]
pub enum FrameKind {
    /// Discovery frame: announces node presence.
    Discovery,
    /// Join frame: requests to join the cluster.
    Join,
    /// Attestation frame: resource verification.
    Attestation,
    /// Health check frame: periodic liveness probe.
    HealthCheck,
    /// Resource advertisement frame: capability update.
    ResourceAdvert,
}

/// Wire code of a frame kind.
pub open spec fn kind_code(k: FrameKind) -> u8 {
    match k {
        FrameKind::Discovery => 1,
        FrameKind::Join => 2,
        FrameKind::Attestation => 3,
        FrameKind::HealthCheck => 4,
        FrameKind::ResourceAdvert => 5,
    }
}

/// The frame kind with wire code `code`, if any.
pub open spec fn kind_of_code(code: u8) -> Option<FrameKind> {
    if code == 1 {
        Some(FrameKind::Discovery)
    } else if code == 2 {
        Some(FrameKind::Join)
    } else if code == 3 {
        Some(FrameKind::Attestation)
    } else if code == 4 {
        Some(FrameKind::HealthCheck)
    } else if code == 5 {
        Some(FrameKind::ResourceAdvert)
    } else {
        None
    }
}

impl FrameKind {
    /// Wire code of this kind.
    pub fn as_u8(&self) -> (c: u8)
        ensures
            c == kind_code(*self),
    {
        match self {
            FrameKind::Discovery => 1,
            FrameKind::Join => 2,
            FrameKind::Attestation => 3,
            FrameKind::HealthCheck => 4,
            FrameKind::ResourceAdvert => 5,
        }
    }

    /// The kind with wire code `value`; `Err("unknown frame kind")` for any
    /// code outside `1..=5`.
    pub fn from_u8(value: u8) -> (r: Result<FrameKind, &'static str>)
        ensures
            kind_of_code(value) matches Some(k) ==> r == Ok::<FrameKind, &'static str>(k),
            kind_of_code(value) is None ==> (r matches Err(msg) && msg@ == "unknown frame kind"@),
    {
        match value {
            1 => Ok(FrameKind::Discovery),
            2 => Ok(FrameKind::Join),
            3 => Ok(FrameKind::Attestation),
            4 => Ok(FrameKind::HealthCheck),
            5 => Ok(FrameKind::ResourceAdvert),
            _ => Err("unknown frame kind"),
        }
    }
}

/// Every kind's code maps back to that kind.
pub proof fn lemma_kind_code_round_trip(k: FrameKind)
    ensures
        kind_of_code(kind_code(k)) == Some(k),
{
}


/// Resources a node advertises in discovery frames.
///
/// The two sizes are carried as the IEEE-754 bit patterns of the `f32`
/// gigabyte figures that travel on the wire; the codec moves them as opaque
/// 32-bit words.
#[derive(Clone, Debug)]
pub struct NodeResources {
    /// Unique node identifier.
    pub id: String,
    /// Bits of the GPU VRAM in GB (`f32::to_bits`).
    pub vram_gb_bits: u32,
    /// Bits of the system memory in GB (`f32::to_bits`).
    pub system_memory_gb_bits: u32,
    /// Compute capability string (e.g. "8.9").
    pub compute_capability: String,
    /// GPU name/model.
    pub gpu_name: Option<String>,
    /// Port of this node's RPC server when it contributes compute;
    /// `None` when it does not (or the sender predates the field).
    pub rpc_port: Option<u16>,
}

/// Abstract value of [`NodeResources`]: strings as character sequences.
pub struct NodeView {
    pub id: Seq<char>,
    pub vram_gb_bits: u32,
    pub system_memory_gb_bits: u32,
    pub compute_capability: Seq<char>,
    pub gpu_name: Option<Seq<char>>,
    pub rpc_port: Option<u16>,
}

/// The character view of an optional string.
pub open spec fn opt_view(o: Option<String>) -> Option<Seq<char>> {
    match o {
        Some(s) => Some(s@),
        None => None,
    }
}

impl View for NodeResources {
    type V = NodeView;

    open spec fn view(&self) -> NodeView {
        NodeView {
            id: self.id@,
            vram_gb_bits: self.vram_gb_bits,
            system_memory_gb_bits: self.system_memory_gb_bits,
            compute_capability: self.compute_capability@,
            gpu_name: opt_view(self.gpu_name),
            rpc_port: self.rpc_port,
        }
    }
}

/// Number of UTF-8 bytes of a string.
pub open spec fn byte_len(s: Seq<char>) -> nat {
    encode_utf8(s).len()
}

/// The identifier and compute capability each fit a one-byte length.
pub open spec fn fixed_fields_fit(n: NodeView) -> bool {
    byte_len(n.id) <= 255 && byte_len(n.compute_capability) <= 255
}

/// The GPU name, if any, fits a one-byte length.
pub open spec fn gpu_name_fits(n: NodeView) -> bool {
    match n.gpu_name {
        Some(g) => byte_len(g) <= 255,
        None => true,
    }
}

/// GPU section of the payload: flag `1`, length and name, or flag `0`.
pub open spec fn gpu_section(g: Option<Seq<char>>) -> Seq<u8> {
    match g {
        Some(name) => seq![1u8, byte_len(name) as u8] + encode_utf8(name),
        None => seq![0u8],
    }
}

/// The port word on the wire: `0` stands for "no RPC port".
pub open spec fn port_word(p: Option<u16>) -> u16 {
    match p {
        Some(v) => v,
        None => 0,
    }
}

/// Payload image of a node:
/// `[id_len, id, vram_le32, mem_le32, cc_len, cc, gpu section, port_le16]`.
pub open spec fn payload_bytes(n: NodeView) -> Seq<u8> {
    seq![byte_len(n.id) as u8] + encode_utf8(n.id) + spec_u32_to_le_bytes(n.vram_gb_bits)
        + spec_u32_to_le_bytes(n.system_memory_gb_bits) + seq![
        byte_len(n.compute_capability) as u8,
    ] + encode_utf8(n.compute_capability) + gpu_section(n.gpu_name) + spec_u16_to_le_bytes(
        port_word(n.rpc_port),
    )
}

/// A node can be encoded into a payload of at most `max_size` bytes.
pub open spec fn encodable(n: NodeView, max_size: nat) -> bool {
    fixed_fields_fit(n) && gpu_name_fits(n) && payload_bytes(n).len() <= max_size
}

/// Why a payload could not be decoded.
#[derive(Clone, Copy, Debug, PartialEq, Eq)]
pub enum PayloadError {
    TooShort,
    Truncated,
    InvalidId,
    InvalidComputeCapability,
    InvalidGpuName,
}

/// Message the decoder reports for each payload error.
pub open spec fn payload_error_text(e: PayloadError) -> Seq<char> {
    match e {
        PayloadError::TooShort => "payload too short"@,
        PayloadError::Truncated => "payload truncated"@,
        PayloadError::InvalidId => "invalid UTF-8 in ID"@,
        PayloadError::InvalidComputeCapability => "invalid UTF-8 in CC"@,
        PayloadError::InvalidGpuName => "invalid UTF-8 in GPU name"@,
    }
}

/// Optional trailing port at `pos`: absent when fewer than two bytes remain,
/// and a zero word also means "no port".
pub open spec fn trailing_port(p: Seq<u8>, pos: int) -> Option<u16> {
    if pos + 2 <= p.len() {
        let v = spec_u16_from_le_bytes(p.subrange(pos, pos + 2));
        if v == 0 {
            None
        } else {
            Some(v)
        }
    } else {
        None
    }
}

/// Meaning of a payload, read field by field from the front.
pub open spec fn parse_payload(p: Seq<u8>) -> Result<NodeView, PayloadError> {
    let len = p.len() as int;
    if len < 11 {
        Err(PayloadError::TooShort)
    } else {
        let id_end = 1 + p[0] as int;
        if id_end > len {
            Err(PayloadError::Truncated)
        } else if !valid_utf8(p.subrange(1, id_end)) {
            Err(PayloadError::InvalidId)
        } else if id_end + 8 >= len {
            Err(PayloadError::Truncated)
        } else {
            let cc_start = id_end + 9;
            let cc_end = cc_start + p[id_end + 8] as int;
            if cc_end > len {
                Err(PayloadError::Truncated)
            } else if !valid_utf8(p.subrange(cc_start, cc_end)) {
                Err(PayloadError::InvalidComputeCapability)
            } else if cc_end >= len {
                Err(PayloadError::Truncated)
            } else {
                let base = NodeView {
                    id: decode_utf8(p.subrange(1, id_end)),
                    vram_gb_bits: spec_u32_from_le_bytes(p.subrange(id_end, id_end + 4)),
                    system_memory_gb_bits: spec_u32_from_le_bytes(p.subrange(id_end + 4, id_end + 8)),
                    compute_capability: decode_utf8(p.subrange(cc_start, cc_end)),
                    gpu_name: None,
                    rpc_port: None,
                };
                if p[cc_end] == 1 {
                    if cc_end + 1 >= len {
                        Err(PayloadError::Truncated)
                    } else {
                        let g_start = cc_end + 2;
                        let g_end = g_start + p[cc_end + 1] as int;
                        if g_end > len {
                            Err(PayloadError::Truncated)
                        } else if !valid_utf8(p.subrange(g_start, g_end)) {
                            Err(PayloadError::InvalidGpuName)
                        } else {
                            Ok(
                                NodeView {
                                    gpu_name: Some(decode_utf8(p.subrange(g_start, g_end))),
                                    rpc_port: trailing_port(p, g_end),
                                    ..base
                                },
                            )
                        }
                    }
                } else {
                    Ok(NodeView { rpc_port: trailing_port(p, cc_end + 1), ..base })
                }
            }
        }
    }
}

impl NodeResources {
    /// Create node resources with no RPC port.
    pub fn new(
        id: String,
        vram_gb_bits: u32,
        system_memory_gb_bits: u32,
        compute_capability: String,
        gpu_name: Option<String>,
    ) -> (n: NodeResources)
        ensures
            n@ == (NodeView {
                id: id@,
                vram_gb_bits,
                system_memory_gb_bits,
                compute_capability: compute_capability@,
                gpu_name: opt_view(gpu_name),
                rpc_port: None,
            }),
    {
        NodeResources { id, vram_gb_bits, system_memory_gb_bits, compute_capability, gpu_name, rpc_port: None }
    }

    /// The same resources, advertising `port` as the RPC port.
    pub fn with_rpc_port(self, port: u16) -> (n: NodeResources)
        ensures
            n@ == (NodeView { rpc_port: Some(port), ..self@ }),
    {
        let mut n = self;
        n.rpc_port = Some(port);
        n
    }

    /// Append the payload image of this node to `buffer`.
    ///
    /// Errors, leaving `buffer` unchanged: a field longer than 255 bytes, or
    /// a payload longer than `max_size`. On success returns the payload
    /// length.
    pub fn encode_payload_into(&self, buffer: &mut Vec<u8>, max_size: usize) -> (r: Result<usize, &'static str>)
        ensures
            !fixed_fields_fit(self@) ==> final(buffer)@ == old(buffer)@
                && (r matches Err(m) && m@ == "field length exceeds u8::MAX"@),
            fixed_fields_fit(self@) && !gpu_name_fits(self@) ==> final(buffer)@ == old(buffer)@
                && (r matches Err(m) && m@ == "GPU name length exceeds u8::MAX"@),
            fixed_fields_fit(self@) && gpu_name_fits(self@) && payload_bytes(self@).len() > max_size
                ==> final(buffer)@ == old(buffer)@
                && (r matches Err(m) && m@ == "payload length exceeds max_size"@),
            encodable(self@, max_size as nat) ==> final(buffer)@ == old(buffer)@ + payload_bytes(self@)
                && r == Ok::<usize, &'static str>(payload_bytes(self@).len() as usize),
    {
        let id_bytes = self.id.as_str().as_bytes();
        let cc_bytes = self.compute_capability.as_str().as_bytes();
        if id_bytes.len() > 255 || cc_bytes.len() > 255 {
            return Err("field length exceeds u8::MAX");
        }
        let gpu_len: usize = match &self.gpu_name {
            Some(g) => {
                let gb = g.as_str().as_bytes();
                if gb.len() > 255 {
                    return Err("GPU name length exceeds u8::MAX");
                }
                1 + gb.len()
            },
            None => 0,
        };
        let payload_len = 11 + id_bytes.len() + cc_bytes.len() + gpu_len + 2;
        proof {
            lemma_auto_spec_u32_to_from_le_bytes();
            lemma_auto_spec_u16_to_from_le_bytes();
            assert(payload_len == payload_bytes(self@).len());
        }
        if payload_len > max_size {
            return Err("payload length exceeds max_size");
        }
        let ghost start = buffer@;
        buffer.push(id_bytes.len() as u8);
        append_bytes(buffer, id_bytes);
        let vram = u32_to_le_bytes(self.vram_gb_bits);
        append_bytes(buffer, vram.as_slice());
        let mem = u32_to_le_bytes(self.system_memory_gb_bits);
        append_bytes(buffer, mem.as_slice());
        buffer.push(cc_bytes.len() as u8);
        append_bytes(buffer, cc_bytes);
        match &self.gpu_name {
            Some(g) => {
                let gb = g.as_str().as_bytes();
                buffer.push(1);
                buffer.push(gb.len() as u8);
                append_bytes(buffer, gb);
            },
            None => {
                buffer.push(0);
            },
        }
        let port: u16 = match self.rpc_port {
            Some(v) => v,
            None => 0,
        };
        let pb = u16_to_le_bytes(port);
        append_bytes(buffer, pb.as_slice());
        proof {
            assert(buffer@ =~= start + payload_bytes(self@));
        }
        Ok(payload_len)
    }

    /// The payload image of this node, or an empty vector when it cannot be
    /// encoded within `max_size` bytes.
    pub fn encode_payload(&self, max_size: usize) -> (v: Vec<u8>)
        ensures
            encodable(self@, max_size as nat) ==> v@ == payload_bytes(self@),
            !encodable(self@, max_size as nat) ==> v@.len() == 0,
    {
        let mut payload: Vec<u8> = Vec::new();
        match self.encode_payload_into(&mut payload, max_size) {
            Ok(_) => {
                proof {
                    assert(payload@ =~= payload_bytes(self@));
                }
                payload
            },
            Err(_) => Vec::new(),
        }
    }

    /// Decode a payload produced by [`NodeResources::encode_payload_into`].
    ///
    /// Bytes after the recognised fields are ignored; a payload without the
    /// trailing port (from an older peer) decodes with `rpc_port == None`.
    pub fn decode_payload(payload: &[u8]) -> (r: Result<NodeResources, String>)
        ensures
            r is Ok <==> parse_payload(payload@) is Ok,
            r matches Ok(n) ==> parse_payload(payload@) == Ok::<NodeView, PayloadError>(n@),
            r matches Err(m) ==> (parse_payload(payload@) matches Err(e) && m@ == payload_error_text(e)),
    {
        let len = payload.len();
        if len < 11 {
            return Err("payload too short".to_owned());
        }
        let mut cursor: usize = 0;
        let id_len = payload[cursor] as usize;
        cursor += 1;
        let id_end = cursor + id_len;
        if id_end > len {
            return Err("payload truncated".to_owned());
        }
        let id = match utf8_string(&payload[cursor..id_end]) {
            Some(s) => s,
            None => {
                return Err("invalid UTF-8 in ID".to_owned());
            },
        };
        cursor = id_end;
        let vram_end = cursor + 8;
        if vram_end > len {
            return Err("payload truncated".to_owned());
        }
        let vram_gb_bits = u32_from_le_bytes(&payload[cursor..cursor + 4]);
        let system_memory_gb_bits = u32_from_le_bytes(&payload[cursor + 4..cursor + 8]);
        cursor = vram_end;
        if cursor >= len {
            return Err("payload truncated".to_owned());
        }
        let cc_len = payload[cursor] as usize;
        cursor += 1;
        let cc_end = cursor + cc_len;
        if cc_end > len {
            return Err("payload truncated".to_owned());
        }
        let compute_capability = match utf8_string(&payload[cursor..cc_end]) {
            Some(s) => s,
            None => {
                return Err("invalid UTF-8 in CC".to_owned());
            },
        };
        cursor = cc_end;
        if cursor >= len {
            return Err("payload truncated".to_owned());
        }
        let has_gpu = payload[cursor] == 1;
        cursor += 1;
        let gpu_name = if has_gpu {
            if cursor >= len {
                return Err("payload truncated".to_owned());
            }
            let gpu_len = payload[cursor] as usize;
            cursor += 1;
            let gpu_end = cursor + gpu_len;
            if gpu_end > len {
                return Err("payload truncated".to_owned());
            }
            let name = match utf8_string(&payload[cursor..gpu_end]) {
                Some(s) => s,
                None => {
                    return Err("invalid UTF-8 in GPU name".to_owned());
                },
            };
            cursor = gpu_end;
            Some(name)
        } else {
            None
        };
        let rpc_port = if cursor + 2 <= len {
            let port = u16_from_le_bytes(&payload[cursor..cursor + 2]);
            if port == 0 {
                None
            } else {
                Some(port)
            }
        } else {
            None
        };
        Ok(NodeResources { id, vram_gb_bits, system_memory_gb_bits, compute_capability, gpu_name, rpc_port })
    }
}


/// The port a receiver reads back: `Some(0)` is written as the "no port"
/// word, so it arrives as `None`; any other value arrives as sent.
pub open spec fn announced_port(p: Option<u16>) -> Option<u16> {
    if p == Some(0u16) {
        None
    } else {
        p
    }
}

/// The node a receiver decodes from the payload image of `n`.
pub open spec fn as_received(n: NodeView) -> NodeView {
    NodeView { rpc_port: announced_port(n.rpc_port), ..n }
}

/// Decoding the payload image of a node whose fields fit gives the node
/// back, with a port of `Some(0)` read as `None`.
pub proof fn lemma_payload_round_trip(node: NodeView)
    requires
        fixed_fields_fit(node),
        gpu_name_fits(node),
    ensures
        parse_payload(payload_bytes(node)) == Ok::<NodeView, PayloadError>(as_received(node)),
{
    broadcast use vstd::utf8::encode_utf8_valid_utf8, vstd::utf8::encode_utf8_decode_utf8;

    lemma_auto_spec_u32_to_from_le_bytes();
    lemma_auto_spec_u16_to_from_le_bytes();
    let n = as_received(node);
    assert(payload_bytes(node) =~= payload_bytes(n));
    let p = payload_bytes(n);
    let id = encode_utf8(n.id);
    let cc = encode_utf8(n.compute_capability);
    let id_end: int = 1 + id.len() as int;
    let cc_start: int = id_end + 9;
    let cc_end: int = cc_start + cc.len();
    assert(p[0] as int == id.len());
    assert(p.subrange(1, id_end as int) =~= id);
    assert(p.subrange(id_end as int, id_end + 4) =~= spec_u32_to_le_bytes(n.vram_gb_bits));
    assert(p.subrange(id_end + 4, id_end + 8) =~= spec_u32_to_le_bytes(n.system_memory_gb_bits));
    assert(p[id_end + 8] as int == cc.len());
    assert(p.subrange(cc_start as int, cc_end as int) =~= cc);
    let port_bytes = spec_u16_to_le_bytes(port_word(n.rpc_port));
    match n.gpu_name {
        Some(g) => {
            let gb = encode_utf8(g);
            let g_start: int = cc_end + 2;
            let g_end: int = g_start + gb.len();
            assert(p[cc_end as int] == 1);
            assert(p[cc_end + 1] as int == gb.len());
            assert(p.subrange(g_start as int, g_end as int) =~= gb);
            assert(p.len() == g_end + 2);
            assert(p.subrange(g_end as int, g_end + 2) =~= port_bytes);
        },
        None => {
            assert(p[cc_end as int] == 0);
            assert(p.len() == cc_end + 3);
            assert(p.subrange(cc_end + 1, cc_end + 3) =~= port_bytes);
        },
    }
    assert(parse_payload(p) =~= Ok::<NodeView, PayloadError>(n));
}


/// Discovery frame: a header followed by a node payload.
#[derive(Clone, Debug)]
pub struct DiscoveryFrame {
    pub kind: FrameKind,
    pub node: NodeResources,
}

/// Abstract value of a discovery frame.
pub struct FrameView {
    pub kind: FrameKind,
    pub node: NodeView,
}

impl View for DiscoveryFrame {
    type V = FrameView;

    open spec fn view(&self) -> FrameView {
        FrameView { kind: self.kind, node: self.node@ }
    }
}

/// Wire image of a discovery frame. A node that does not fit the
/// `MAX_PAYLOAD_SIZE` payload is sent as a bare header over an empty payload.
pub open spec fn frame_bytes(f: FrameView) -> Seq<u8> {
    let payload = if encodable(f.node, MAX_PAYLOAD_SIZE as nat) {
        payload_bytes(f.node)
    } else {
        Seq::<u8>::empty()
    };
    header_bytes(GHOSTLINK_ETHERTYPE, kind_code(f.kind), PROTOCOL_VERSION, crc32_of(payload)) + payload
}

/// Why a frame was rejected.
#[derive(Clone, Copy, Debug, PartialEq, Eq)]
pub enum FrameError {
    TooShort,
    WrongEtherType(u16),
    WrongVersion(u8),
    CrcMismatch { expected: u32, actual: u32 },
    Payload(PayloadError),
    UnknownKind,
}

/// Message the frame decoder reports for each error.
pub open spec fn frame_error_text(e: FrameError) -> Seq<char> {
    match e {
        FrameError::TooShort => "frame too short"@,
        FrameError::WrongEtherType(et) => "unexpected EtherType 0x"@ + zero_pad(hex(et as nat), 4),
        FrameError::WrongVersion(v) => "unsupported protocol version "@ + decimal(v as nat),
        FrameError::CrcMismatch { expected, actual } => "CRC mismatch: expected 0x"@ + zero_pad(
            hex(expected as nat),
            8,
        ) + ", got 0x"@ + zero_pad(hex(actual as nat), 8),
        FrameError::Payload(pe) => payload_error_text(pe),
        FrameError::UnknownKind => "unknown frame kind"@,
    }
}

/// Meaning of received frame bytes: header checks, CRC check over
/// everything after the header, payload decoding, then the kind.
pub open spec fn parse_frame(b: Seq<u8>) -> Result<FrameView, FrameError> {
    if b.len() < HEADER_SIZE {
        Err(FrameError::TooShort)
    } else {
        let h = parse_header(b);
        let payload = b.subrange(HEADER_SIZE as int, b.len() as int);
        if h.ether_type != GHOSTLINK_ETHERTYPE {
            Err(FrameError::WrongEtherType(h.ether_type))
        } else if h.version != PROTOCOL_VERSION {
            Err(FrameError::WrongVersion(h.version))
        } else if crc32_of(payload) != h.crc {
            Err(FrameError::CrcMismatch { expected: h.crc, actual: crc32_of(payload) })
        } else {
            match parse_payload(payload) {
                Err(pe) => Err(FrameError::Payload(pe)),
                Ok(n) => match kind_of_code(h.kind) {
                    Some(k) => Ok(FrameView { kind: k, node: n }),
                    None => Err(FrameError::UnknownKind),
                },
            }
        }
    }
}

impl DiscoveryFrame {
    /// Encode the frame: header with the payload's CRC32, then the payload.
    pub fn encode(&self) -> (v: Vec<u8>)
        ensures
            v@ == frame_bytes(self@),
    {
        let mut v: Vec<u8> = Vec::new();
        self.encode_into(&mut v);
        v
    }

    /// Encode the frame into `buf` (replacing its contents) and return the
    /// number of bytes written.
    pub fn encode_into(&self, buf: &mut Vec<u8>) -> (n: usize)
        ensures
            final(buf)@ == frame_bytes(self@),
            n == final(buf)@.len(),
    {
        let payload = self.node.encode_payload(MAX_PAYLOAD_SIZE);
        let header = FrameHeader::new(GHOSTLINK_ETHERTYPE, self.kind.as_u8(), payload.as_slice());
        let mut head: [u8; 8] = [0u8; 8];
        header.encode_into(&mut head);
        buf.clear();
        append_bytes(buf, head.as_slice());
        append_bytes(buf, payload.as_slice());
        proof {
            if !encodable(self.node@, MAX_PAYLOAD_SIZE as nat) {
                assert(payload@ =~= Seq::<u8>::empty());
            }
            assert(buf@ =~= frame_bytes(self@));
        }
        buf.len()
    }

    /// Decode a frame: checks length, EtherType, version and CRC, then
    /// decodes the payload and finally the kind.
    pub fn decode(bytes: &[u8]) -> (r: Result<DiscoveryFrame, String>)
        ensures
            r is Ok <==> parse_frame(bytes@) is Ok,
            r matches Ok(f) ==> parse_frame(bytes@) == Ok::<FrameView, FrameError>(f@),
            r matches Err(m) ==> (parse_frame(bytes@) matches Err(e) && m@ == frame_error_text(e)),
    {
        if bytes.len() < HEADER_SIZE {
            return Err("frame too short".to_owned());
        }
        let header = match FrameHeader::decode(bytes) {
            Some(h) => h,
            None => {
                return Err("invalid header".to_owned());
            },
        };
        if header.ether_type != GHOSTLINK_ETHERTYPE {
            let mut m = "unexpected EtherType 0x".to_owned();
            push_hex(&mut m, header.ether_type as u64, 4);
            return Err(m);
        }
        if header.version != PROTOCOL_VERSION {
            let mut m = "unsupported protocol version ".to_owned();
            push_decimal(&mut m, header.version as u64);
            return Err(m);
        }
        let payload = &bytes[HEADER_SIZE..bytes.len()];
        let computed_crc = crc32(payload);
        if computed_crc != header.crc {
            let mut m = "CRC mismatch: expected 0x".to_owned();
            push_hex(&mut m, header.crc as u64, 8);
            m.append(", got 0x");
            push_hex(&mut m, computed_crc as u64, 8);
            return Err(m);
        }
        let node = match NodeResources::decode_payload(payload) {
            Ok(n) => n,
            Err(e) => {
                return Err(e);
            },
        };
        match FrameKind::from_u8(header.kind) {
            Ok(kind) => Ok(DiscoveryFrame { kind, node }),
            Err(e) => Err(e.to_owned()),
        }
    }
}

/// The frame a receiver decodes from the image of `f`.
pub open spec fn frame_as_received(f: FrameView) -> FrameView {
    FrameView { kind: f.kind, node: as_received(f.node) }
}

/// What a frame encodes is what decoding it gives back, whenever the node
/// fits the payload limit (a port of `Some(0)` read as `None`, as for
/// payloads).
pub proof fn lemma_frame_round_trip(f: FrameView)
    requires
        encodable(f.node, MAX_PAYLOAD_SIZE as nat),
    ensures
        parse_frame(frame_bytes(f)) == Ok::<FrameView, FrameError>(frame_as_received(f)),
{
    let payload = payload_bytes(f.node);
    let h = FrameHeader {
        ether_type: GHOSTLINK_ETHERTYPE,
        kind: kind_code(f.kind),
        version: PROTOCOL_VERSION,
        crc: crc32_of(payload),
    };
    lemma_header_round_trip(h);
    lemma_payload_round_trip(f.node);
    let b = frame_bytes(f);
    let hb = header_bytes(h.ether_type, h.kind, h.version, h.crc);
    assert(b.subrange(0, 8) =~= hb);
    assert(b.subrange(8, b.len() as int) =~= payload);
    assert(parse_header(b) == parse_header(hb)) by {
        assert(b.subrange(0, 2) =~= hb.subrange(0, 2));
        assert(b.subrange(4, 8) =~= hb.subrange(4, 8));
    }
}

/// A frame is only accepted when the CRC32 of its payload equals the CRC its
/// header carries.
pub proof fn lemma_accepted_frame_checksum(b: Seq<u8>)
    requires
        parse_frame(b) is Ok,
    ensures
        b.len() >= HEADER_SIZE,
        crc32_of(b.subrange(HEADER_SIZE as int, b.len() as int)) == parse_header(b).crc,
{
}

} // verus!

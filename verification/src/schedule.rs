//! Pipeline vocabulary: device kinds, transport settings, and the
//! steady-state token schedule across pipeline stages.

use vstd::prelude::*;

verus! {

/// Execution target selected for a pipeline stage.
#[derive(Clone, Copy, Debug, PartialEq, Eq, Structural)]
pub enum DeviceKind {
    Npu,
    Gpu,
    Cpu,
}

/// Label of a device kind.
pub open spec fn device_label(d: DeviceKind) -> Seq<char> {
    match d {
        DeviceKind::Npu => "NPU"@,
        DeviceKind::Gpu => "GPU"@,
        DeviceKind::Cpu => "CPU"@,
    }
}

impl DeviceKind {
    /// Human-friendly label.
    pub fn as_str(self) -> (s: &'static str)
        ensures
            s@ == device_label(self),
    {
        match self {
            DeviceKind::Npu => "NPU",
            DeviceKind::Gpu => "GPU",
            DeviceKind::Cpu => "CPU",
        }
    }
}

/// Transport protocol selection for inter-stage bridges.
#[derive(Clone, Copy, Debug, PartialEq, Eq, Structural)]
pub enum TransportKind {
    /// Standard TCP transport (works across machines).
    Tcp,
    /// Unix domain socket transport (loopback only, lower overhead).
    Unix,
}

impl Default for TransportKind {
    fn default() -> (k: TransportKind)
        ensures
            k == TransportKind::Tcp,
    {
        TransportKind::Tcp
    }
}

/// Runtime controls for TCP/Unix transport execution.
#[derive(Clone, Debug)]
pub struct TcpTransportConfig {
    pub max_inflight_batches: usize,
    pub reconnect_attempts: usize,
    pub reconnect_backoff_ms: u64,
    /// Per-batch HMAC auth token (legacy).
    pub auth_token: Option<String>,
    /// Session-level auth token (one handshake, then sequence numbers).
    pub auth_session_token: Option<String>,
    pub use_mtls: bool,
    pub cert_chain_path: Option<String>,
    /// Transport protocol.
    pub transport: TransportKind,
    /// Socket send buffer size (0 = system default).
    pub send_buffer_size: usize,
    /// Socket receive buffer size (0 = system default).
    pub recv_buffer_size: usize,
    /// Use vectored I/O for header and payload writes.
    pub use_vectored_io: bool,
}

impl Default for TcpTransportConfig {
    fn default() -> (c: TcpTransportConfig)
        ensures
            c.max_inflight_batches == 512,
            c.reconnect_attempts == 3,
            c.reconnect_backoff_ms == 25,
            c.auth_token is None,
            c.auth_session_token is None,
            !c.use_mtls,
            c.cert_chain_path is None,
            c.transport == TransportKind::Tcp,
            c.send_buffer_size == 262144,
            c.recv_buffer_size == 262144,
            c.use_vectored_io,
    {
        TcpTransportConfig {
            max_inflight_batches: 512,
            reconnect_attempts: 3,
            reconnect_backoff_ms: 25,
            auth_token: None,
            auth_session_token: None,
            use_mtls: false,
            cert_chain_path: None,
            transport: TransportKind::Tcp,
            send_buffer_size: 256 * 1024,
            recv_buffer_size: 256 * 1024,
            use_vectored_io: true,
        }
    }
}

/// One scheduled operation in steady-state token generation.
#[derive(Clone, Copy, Debug, PartialEq, Eq, Structural)]
pub struct TokenStep {
    pub token_idx: usize,
    pub stage_idx: usize,
}

/// The token-major schedule: step `k` runs stage `k % stages` of token
/// `k / stages`.
pub open spec fn schedule_spec(stage_count: nat, token_count: nat) -> Seq<TokenStep> {
    Seq::new(
        stage_count * token_count,
        |k: int| TokenStep { token_idx: (k / stage_count as int) as usize, stage_idx: (k % stage_count as int) as usize },
    )
}

/// Steady-state pipeline schedule: for each token, every stage in order.
pub fn build_token_schedule(stage_count: usize, token_count: usize) -> (v: Vec<TokenStep>)
    requires
        stage_count * token_count <= usize::MAX,
    ensures
        v@ == schedule_spec(stage_count as nat, token_count as nat),
{
    let mut schedule: Vec<TokenStep> = Vec::new();
    let mut token_idx: usize = 0;
    while token_idx < token_count
        invariant
            token_idx <= token_count,
            stage_count * token_count <= usize::MAX,
            schedule@.len() == token_idx * stage_count,
            forall|k: int|
                0 <= k < schedule@.len() ==> #[trigger] schedule@[k] == (TokenStep {
                    token_idx: (k / stage_count as int) as usize,
                    stage_idx: (k % stage_count as int) as usize,
                }),
        decreases token_count - token_idx,
    {
        let mut stage_idx: usize = 0;
        while stage_idx < stage_count
            invariant
                token_idx < token_count,
                stage_idx <= stage_count,
                stage_count * token_count <= usize::MAX,
                schedule@.len() == token_idx * stage_count + stage_idx,
                forall|k: int|
                    0 <= k < schedule@.len() ==> #[trigger] schedule@[k] == (TokenStep {
                        token_idx: (k / stage_count as int) as usize,
                        stage_idx: (k % stage_count as int) as usize,
                    }),
            decreases stage_count - stage_idx,
        {
            proof {
                let k = token_idx * stage_count + stage_idx;
                assert(k / stage_count as int == token_idx && k % stage_count as int == stage_idx)
                    by (nonlinear_arith)
                    requires
                        k == token_idx * stage_count + stage_idx,
                        0 <= stage_idx < stage_count,
                        0 <= token_idx,
                ;
                assert(token_idx * stage_count + stage_idx < stage_count * token_count) by (nonlinear_arith)
                    requires
                        token_idx < token_count,
                        stage_idx < stage_count,
                ;
            }
            schedule.push(TokenStep { token_idx, stage_idx });
            stage_idx += 1;
        }
        proof {
            assert((token_idx + 1) * stage_count == token_idx * stage_count + stage_count) by (nonlinear_arith);
        }
        token_idx += 1;
    }
    proof {
        assert(schedule@ =~= schedule_spec(stage_count as nat, token_count as nat)) by {
            assert(token_count * stage_count == stage_count * token_count) by (nonlinear_arith);
        }
    }
    schedule
}

} // verus!

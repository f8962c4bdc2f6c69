//! The runtime profile of a host and the settings derived from it: the
//! execution backend, planning chunk sizes, TCP transport and worker-pool
//! sizing; plus the small status vocabularies of the cluster.

use vstd::prelude::*;
use crate::host::{acceleration_label, AccelerationMode, GpuBackend, ProbeMode};
use crate::protocol::NodeResources;

verus! {

/// Runtime profile of the local host.
#[derive(Clone, Debug)]
pub struct RuntimeProfile {
    /// Node resources advertised to the cluster.
    pub node_resources: NodeResources,
    /// Logical CPU cores detected on the host.
    pub logical_cores: usize,
    /// Recommended worker count for network and scheduling tasks.
    pub recommended_workers: usize,
    /// Preferred acceleration path.
    pub acceleration_mode: AccelerationMode,
    /// Detected GPU backend technology.
    pub gpu_backend: GpuBackend,
    /// Whether AF_XDP can plausibly be used on this host.
    pub xdp_supported: bool,
    /// Best-effort hardware probe source.
    pub detection_source: String,
    /// Probe mode used to build this profile.
    pub probe_mode: ProbeMode,
}

/// Concrete execution backend derived from the runtime profile.
#[derive(Clone, Copy, Debug, PartialEq, Eq, Structural)]
pub struct ExecutionBackend {
    /// Selected acceleration mode.
    pub mode: AccelerationMode,
    /// Number of worker slices used for execution.
    pub worker_count: usize,
    /// Preferred batch size per worker.
    pub preferred_batch_size: usize,
    /// Logical vector width used when chunking the inner loop.
    pub vector_width_bits: usize,
}

/// Preferred batch size of each acceleration mode.
pub open spec fn batch_size_for(mode: AccelerationMode) -> usize {
    match mode {
        AccelerationMode::Gpu => 4096,
        AccelerationMode::Avx512 => 2048,
        AccelerationMode::Avx2 => 1024,
        AccelerationMode::Neon => 1024,
        AccelerationMode::Generic => 512,
    }
}

/// Vector width, in bits, of each acceleration mode.
pub open spec fn vector_bits_for(mode: AccelerationMode) -> usize {
    match mode {
        AccelerationMode::Gpu => 512,
        AccelerationMode::Avx512 => 512,
        AccelerationMode::Avx2 => 256,
        AccelerationMode::Neon => 128,
        AccelerationMode::Generic => 64,
    }
}

/// At least one.
pub open spec fn at_least_one(n: usize) -> usize {
    if n == 0 {
        1
    } else {
        n
    }
}

impl ExecutionBackend {
    /// Select an execution backend from the detected runtime profile.
    pub fn from_runtime_profile(profile: &RuntimeProfile) -> (b: ExecutionBackend)
        ensures
            b == (ExecutionBackend {
                mode: profile.acceleration_mode,
                worker_count: at_least_one(profile.recommended_workers),
                preferred_batch_size: batch_size_for(profile.acceleration_mode),
                vector_width_bits: vector_bits_for(profile.acceleration_mode),
            }),
    {
        let (preferred_batch_size, vector_width_bits): (usize, usize) = match profile.acceleration_mode {
            AccelerationMode::Gpu => (4096, 512),
            AccelerationMode::Avx512 => (2048, 512),
            AccelerationMode::Avx2 => (1024, 256),
            AccelerationMode::Neon => (1024, 128),
            AccelerationMode::Generic => (512, 64),
        };
        let worker_count = if profile.recommended_workers == 0 {
            1
        } else {
            profile.recommended_workers
        };
        ExecutionBackend {
            mode: profile.acceleration_mode,
            worker_count,
            preferred_batch_size,
            vector_width_bits,
        }
    }

    /// Human-readable backend name.
    pub fn name(&self) -> (s: &'static str)
        ensures
            s@ == acceleration_label(self.mode),
    {
        self.mode.as_str()
    }
}

/// Quantization mode.
#[derive(Clone, Copy, Debug, PartialEq, Eq, Structural)]
pub enum QuantizationMode {
    /// No quantization: full precision.
    FullPrecision,
    /// 8-bit quantization.
    Int8,
    /// 4-bit quantization.
    Int4,
}

impl Default for QuantizationMode {
    fn default() -> (q: QuantizationMode)
        ensures
            q == QuantizationMode::FullPrecision,
    {
        QuantizationMode::FullPrecision
    }
}

/// Runtime-aware planning hints derived from host auto-detection.
#[derive(Clone, Copy, Debug, PartialEq, Eq, Structural)]
pub struct PlanningTuning {
    /// Preferred maximum chunk size to expose parallel work to workers.
    pub max_layers_per_assignment: usize,
}

/// Extra chunks an accelerator earns.
pub open spec fn accelerator_bias(mode: AccelerationMode) -> int {
    match mode {
        AccelerationMode::Gpu => 2,
        AccelerationMode::Avx512 => 1,
        _ => 0,
    }
}

/// How many chunks the planner aims for: one per worker, plus the
/// accelerator's extra chunks, plus one per 256 vector bits beyond the
/// first.
pub open spec fn target_chunks(mode: AccelerationMode, recommended_workers: usize) -> int {
    let vb = vector_bits_for(mode) / 256;
    let vector_bias = if vb == 0 { 1int } else { vb as int };
    at_least_one(recommended_workers) + accelerator_bias(mode) + vector_bias - 1
}

/// Smallest integer at least `a / b`.
pub open spec fn ceil_div(a: int, b: int) -> int {
    (a + b - 1) / b
}

/// Rounding a quotient up adds one exactly when the division leaves a
/// remainder.
proof fn lemma_ceil_div(a: int, b: int)
    requires
        a >= 0,
        b >= 1,
    ensures
        ceil_div(a, b) == a / b + (if a % b == 0 { 0int } else { 1int }),
{
    let q = a / b;
    let r = a % b;
    vstd::arithmetic::div_mod::lemma_fundamental_div_mod(a, b);
    if r == 0 {
        vstd::arithmetic::div_mod::lemma_fundamental_div_mod_converse(a + b - 1, b, q, b - 1);
    } else {
        assert(a + b - 1 == (q + 1) * b + (r - 1)) by (nonlinear_arith)
            requires
                a == b * q + r,
        ;
        vstd::arithmetic::div_mod::lemma_fundamental_div_mod_converse(a + b - 1, b, q + 1, r - 1);
    }
}

impl PlanningTuning {
    /// Planning hints for `total_layers` layers on this host: the layers
    /// split evenly (rounding up) into the target number of chunks, and at
    /// least one layer per chunk.
    pub fn from_runtime_profile(profile: &RuntimeProfile, total_layers: usize) -> (t: PlanningTuning)
        requires
            profile.recommended_workers + 4 <= usize::MAX,
        ensures
            t.max_layers_per_assignment == (if total_layers == 0 {
                1int
            } else {
                let c = ceil_div(total_layers as int, target_chunks(profile.acceleration_mode, profile.recommended_workers));
                if c == 0 { 1int } else { c }
            }),
    {
        let backend = ExecutionBackend::from_runtime_profile(profile);
        let worker_count = backend.worker_count;
        let bias: usize = match profile.acceleration_mode {
            AccelerationMode::Gpu => 2,
            AccelerationMode::Avx512 => 1,
            _ => 0,
        };
        let vb = backend.vector_width_bits / 256;
        let vector_bias: usize = if vb == 0 { 1 } else { vb };
        let chunks = worker_count + bias + vector_bias - 1;
        let target: usize = if chunks == 0 { 1 } else { chunks };
        let chunk_size: usize = if total_layers == 0 {
            1
        } else {
            proof {
                if total_layers % target != 0 {
                    if target == 1 {
                        vstd::arithmetic::div_mod::lemma_mod_self_0(1);
                        vstd::arithmetic::div_mod::lemma_mod_multiples_basic(total_layers as int, 1);
                    }
                    assert(total_layers / target < total_layers) by (nonlinear_arith)
                        requires
                            target > 1,
                            total_layers > 0,
                    ;
                }
            }
            let c = total_layers / target + if total_layers % target == 0 { 0 } else { 1 };
            proof {
                lemma_ceil_div(total_layers as int, target as int);
            }
            if c == 0 { 1 } else { c }
        };
        PlanningTuning { max_layers_per_assignment: chunk_size }
    }
}

/// TCP transport settings derived from the system profile.
#[derive(Clone, Copy, Debug, PartialEq, Eq, Structural)]
pub struct TcpAutoConfig {
    pub max_inflight_batches: usize,
    pub reconnect_attempts: usize,
    pub reconnect_backoff_ms: u64,
}

/// Worker pool sizing derived from the system profile.
#[derive(Clone, Copy, Debug, PartialEq, Eq, Structural)]
pub struct WorkerPoolConfig {
    pub compute_workers: usize,
    pub io_workers: usize,
    pub total_workers: usize,
}

/// Per-GPU in-flight batches of each acceleration mode.
pub open spec fn inflight_per_gpu(mode: AccelerationMode) -> int {
    match mode {
        AccelerationMode::Gpu => 256,
        AccelerationMode::Avx512 => 128,
        _ => 64,
    }
}

/// TCP settings: in-flight batches scale with the GPUs that report VRAM
/// (at least one); a GPU host reconnects faster and more persistently.
pub fn tune_tcp(mode: AccelerationMode, gpus_with_vram: usize) -> (c: TcpAutoConfig)
    requires
        256 * gpus_with_vram <= usize::MAX,
    ensures
        c.max_inflight_batches == inflight_per_gpu(mode) * at_least_one(gpus_with_vram),
        c.reconnect_attempts == (if mode == AccelerationMode::Gpu { 5usize } else { 3usize }),
        c.reconnect_backoff_ms == (if mode == AccelerationMode::Gpu { 5u64 } else { 10u64 }),
{
    let (max_inflight, reconnect_attempts, reconnect_backoff_ms): (usize, usize, u64) = match mode {
        AccelerationMode::Gpu => (256, 5, 5),
        AccelerationMode::Avx512 => (128, 3, 10),
        _ => (64, 3, 10),
    };
    let gpu_count = if gpus_with_vram == 0 { 1 } else { gpus_with_vram };
    TcpAutoConfig {
        max_inflight_batches: max_inflight * gpu_count,
        reconnect_attempts,
        reconnect_backoff_ms,
    }
}

/// Worker pool: compute workers are the recommended workers (at least
/// one); I/O workers are half of them on a GPU host and a quarter
/// elsewhere (at least one).
pub fn tune_worker_pool(mode: AccelerationMode, recommended_workers: usize) -> (w: WorkerPoolConfig)
    requires
        recommended_workers <= usize::MAX / 2,
    ensures
        w.compute_workers == at_least_one(recommended_workers),
        w.io_workers == at_least_one(
            (if mode == AccelerationMode::Gpu { w.compute_workers / 2 } else { w.compute_workers / 4 }) as usize,
        ),
        w.total_workers == w.compute_workers + w.io_workers,
{
    let compute = if recommended_workers == 0 { 1 } else { recommended_workers };
    let io0 = match mode {
        AccelerationMode::Gpu => compute / 2,
        _ => compute / 4,
    };
    let io = if io0 == 0 { 1 } else { io0 };
    WorkerPoolConfig { compute_workers: compute, io_workers: io, total_workers: compute + io }
}

/// Health status of a node.
#[derive(Clone, Copy, Debug, PartialEq, Eq, Structural)]
pub enum HealthStatus {
    /// Node is healthy.
    Healthy,
    /// Node is degraded (performance issues).
    Degraded,
    /// Node has failed.
    Failed,
    /// No health data available yet.
    Unknown,
}

impl Default for HealthStatus {
    fn default() -> (s: HealthStatus)
        ensures
            s == HealthStatus::Unknown,
    {
        HealthStatus::Unknown
    }
}

/// Status of a node in the cluster.
#[derive(Clone, Copy, Debug, PartialEq, Eq, Structural)]
pub enum NodeStatus {
    /// Node is healthy and accepting traffic.
    Active,
    /// Node is degraded (below threshold).
    Degraded,
    /// Node has failed or timed out.
    Failed,
}

impl Default for NodeStatus {
    fn default() -> (s: NodeStatus)
        ensures
            s == NodeStatus::Active,
    {
        NodeStatus::Active
    }
}

/// Status of a model in the registry.
#[derive(Clone, Copy, Debug, PartialEq, Eq, Structural)]
pub enum ModelStatus {
    Downloaded,
    Loading,
    Loaded,
    Unloading,
}

/// Settings of the cluster heartbeat loop.
#[derive(Clone, Debug)]
pub struct ClusterLoopConfig {
    pub multicast_group: String,
    /// Local bind address for receiving heartbeats (`"0.0.0.0"` listens on
    /// all interfaces).
    pub local_bind_addr: Option<String>,
    pub discovery_timeout_ms: u64,
}

/// A ping outcome as a liveness flag: a successful ping means alive, any
/// error means not alive; the conversion itself never fails.
pub fn ping_result_to_status(result: &Result<(), String>) -> (r: Result<bool, ()>)
    ensures
        r == Ok::<bool, ()>(result is Ok),
{
    match result {
        Ok(_) => Ok(true),
        Err(_) => Ok(false),
    }
}

} // verus!

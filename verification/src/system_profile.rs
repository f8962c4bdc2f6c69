//! Decisions drawn from a detected system profile: which backend a GPU
//! belongs to, which acceleration path to prefer, and how many workers to
//! run. Probing the hardware itself happens outside the library; what the
//! decisions read of it is held here as plain values.

use vstd::prelude::*;
use vstd::string::StringSliceAdditionalSpecFns;
use crate::host::{AccelerationMode, GpuBackend, compute_capability_for};
use crate::text::{lower_bytes, lower_contains, lower_has};

verus! {

/// CPU SIMD / accelerator features.
#[derive(Clone, Copy, Debug, Default, PartialEq, Eq, Structural, Hash)]
pub struct CpuFeatures {
    pub avx2: bool,
    pub avx_512: bool,
    pub neon: bool,
    pub sve: bool,
    pub amx: bool,
    pub sme: bool,
}

/// CPU topology and feature-set information.
#[derive(Clone, Debug, Hash)]
pub struct CpuInfo {
    /// Human-readable brand string.
    pub brand: String,
    /// Number of logical cores (hyperthreads).
    pub logical_cores: usize,
    /// Number of physical cores (approximate).
    pub physical_cores: usize,
    /// Architecture family (x86_64, aarch64, ...).
    pub arch: String,
    /// Detected CPU features.
    pub features: CpuFeatures,
}

/// Network interface information relevant to cluster tuning.
#[derive(Clone, Debug, Hash)]
pub struct NetworkInfo {
    pub xdp_supported: bool,
    pub interfaces: Vec<String>,
}

/// What the acceleration and sizing decisions read of one detected GPU.
#[derive(Clone, Debug)]
pub struct GpuTraits {
    /// Backend the GPU was classified under.
    pub backend: GpuBackend,
    /// Whether the name is non-empty and not the "cpu" placeholder.
    pub named: bool,
    /// Whether it reports any VRAM.
    pub has_vram: bool,
    /// Whether it reports at least 16 GB of VRAM.
    pub large_vram: bool,
}

/// The compute-capability string starts with an ASCII digit.
pub open spec fn starts_with_digit(cc: Seq<u8>) -> bool {
    cc.len() > 0 && 48 <= cc[0] <= 57
}

/// Backend inferred from a GPU name `n` and compute capability `cc` (both
/// as UTF-8 bytes, matched ASCII-case-insensitively), first match wins:
/// ROCm, Metal, DirectML, NPU, CUDA (by vendor/model names or a numeric
/// capability), else Vulkan.
pub open spec fn backend_for(n: Seq<u8>, cc: Seq<u8>) -> GpuBackend {
    if lower_contains(cc, "rocm") || lower_contains(n, "amd") || lower_contains(n, "radeon")
        || lower_contains(n, "instinct") || lower_contains(n, "mi250") || lower_contains(n, "mi300")
        || lower_contains(n, "mi350") {
        GpuBackend::Rocm
    } else if lower_contains(cc, "metal") || lower_contains(n, "apple") || lower_contains(n, "m1")
        || lower_contains(n, "m2") || lower_contains(n, "m3") || lower_contains(n, "m4") {
        GpuBackend::Metal
    } else if lower_contains(cc, "directml") || lower_contains(n, "directml") {
        GpuBackend::Directml
    } else if lower_contains(cc, "npu") || lower_contains(n, "npu") || lower_contains(n, "xdna")
        || lower_contains(n, "neural") {
        GpuBackend::Npu
    } else if lower_contains(n, "nvidia") || lower_contains(n, "rtx") || lower_contains(n, "gtx")
        || lower_contains(n, "tesla") || lower_contains(n, "a100") || lower_contains(n, "h100")
        || lower_contains(n, "b100") || lower_contains(n, "b200") || starts_with_digit(cc) {
        GpuBackend::Cuda
    } else {
        GpuBackend::Vulkan
    }
}

/// Infer the backend technology of a GPU from its name and compute
/// capability.
pub fn infer_backend(name: &str, compute_capability: &str) -> (b: GpuBackend)
    ensures
        b == backend_for(name.spec_bytes(), compute_capability.spec_bytes()),
{
    let n = lower_bytes(name);
    let n = n.as_slice();
    let c = lower_bytes(compute_capability);
    let c = c.as_slice();
    if lower_has(c, "rocm") || lower_has(n, "amd") || lower_has(n, "radeon") || lower_has(n, "instinct")
        || lower_has(n, "mi250") || lower_has(n, "mi300") || lower_has(n, "mi350") {
        return GpuBackend::Rocm;
    }
    if lower_has(c, "metal") || lower_has(n, "apple") || lower_has(n, "m1") || lower_has(n, "m2")
        || lower_has(n, "m3") || lower_has(n, "m4") {
        return GpuBackend::Metal;
    }
    if lower_has(c, "directml") || lower_has(n, "directml") {
        return GpuBackend::Directml;
    }
    if lower_has(c, "npu") || lower_has(n, "npu") || lower_has(n, "xdna") || lower_has(n, "neural") {
        return GpuBackend::Npu;
    }
    let digit_first = c.len() > 0 && 48 <= c[0] && c[0] <= 57;
    proof {
        let raw = compute_capability.spec_bytes();
        if raw.len() > 0 {
            assert(c@[0] == crate::text::ascii_lower_byte(raw[0]));
        }
    }
    if lower_has(n, "nvidia") || lower_has(n, "rtx") || lower_has(n, "gtx") || lower_has(n, "tesla")
        || lower_has(n, "a100") || lower_has(n, "h100") || lower_has(n, "b100") || lower_has(n, "b200")
        || digit_first {
        return GpuBackend::Cuda;
    }
    GpuBackend::Vulkan
}

/// The GPU reports VRAM or belongs to a real accelerator backend.
pub open spec fn signals_gpu(g: GpuTraits) -> bool {
    g.has_vram || (g.backend != GpuBackend::Cpu && g.backend != GpuBackend::Vulkan)
}

/// The GPU is a named Vulkan device (detected, driver pending).
pub open spec fn named_vulkan(g: GpuTraits) -> bool {
    g.backend == GpuBackend::Vulkan && g.named
}

/// Acceleration path for the detected GPUs and CPU features: GPU when any
/// GPU reports VRAM or has a backend other than CPU/Vulkan, or is a named
/// Vulkan device; otherwise the best CPU feature (AVX-512, AVX2,
/// NEON/SVE), else generic.
pub open spec fn acceleration_for(gpus: Seq<GpuTraits>, f: CpuFeatures) -> AccelerationMode {
    if exists|i: int| 0 <= i < gpus.len() && #[trigger] signals_gpu(gpus[i]) {
        AccelerationMode::Gpu
    } else if exists|i: int| 0 <= i < gpus.len() && #[trigger] named_vulkan(gpus[i]) {
        AccelerationMode::Gpu
    } else if f.avx_512 {
        AccelerationMode::Avx512
    } else if f.avx2 {
        AccelerationMode::Avx2
    } else if f.neon || f.sve {
        AccelerationMode::Neon
    } else {
        AccelerationMode::Generic
    }
}

/// Choose the acceleration path.
pub fn pick_acceleration_mode(gpus: &[GpuTraits], cpu: &CpuInfo) -> (m: AccelerationMode)
    ensures
        m == acceleration_for(gpus@, cpu.features),
{
    let mut i: usize = 0;
    while i < gpus.len()
        invariant
            i <= gpus@.len(),
            forall|j: int| 0 <= j < i ==> !#[trigger] signals_gpu(gpus@[j]),
        decreases gpus@.len() - i,
    {
        let g = &gpus[i];
        proof {
            assert(signals_gpu(gpus@[i as int]) == (g.has_vram || (g.backend != GpuBackend::Cpu
                && g.backend != GpuBackend::Vulkan)));
        }
        if g.has_vram || (g.backend != GpuBackend::Cpu && g.backend != GpuBackend::Vulkan) {
            return AccelerationMode::Gpu;
        }
        i += 1;
    }
    let mut j: usize = 0;
    while j < gpus.len()
        invariant
            j <= gpus@.len(),
            forall|k: int| 0 <= k < gpus@.len() ==> !#[trigger] signals_gpu(gpus@[k]),
            forall|k: int| 0 <= k < j ==> !#[trigger] named_vulkan(gpus@[k]),
        decreases gpus@.len() - j,
    {
        let g = &gpus[j];
        proof {
            assert(named_vulkan(gpus@[j as int]) == (g.backend == GpuBackend::Vulkan && g.named));
        }
        if g.backend == GpuBackend::Vulkan && g.named {
            return AccelerationMode::Gpu;
        }
        j += 1;
    }
    if cpu.features.avx_512 {
        AccelerationMode::Avx512
    } else if cpu.features.avx2 {
        AccelerationMode::Avx2
    } else if cpu.features.neon || cpu.features.sve {
        AccelerationMode::Neon
    } else {
        AccelerationMode::Generic
    }
}

/// Number of GPUs in `gpus` (the first `k`) that report VRAM.
pub open spec fn vram_gpu_count(gpus: Seq<GpuTraits>, k: int) -> nat
    decreases k,
{
    if k <= 0 {
        0
    } else {
        vram_gpu_count(gpus, k - 1) + if gpus[k - 1].has_vram {
            1nat
        } else {
            0nat
        }
    }
}

/// Recommended worker count: one core is kept free (at least one worker),
/// bounded by `memory_quarters` (a quarter of system memory in GB, at
/// least one), plus an accelerator bonus: in GPU mode 2 if any GPU has at
/// least 16 GB (else 1) and one more per extra GPU with VRAM; 1 for
/// AVX-512; else 0.
pub open spec fn recommended_workers(
    logical_cores: usize,
    memory_quarters: usize,
    gpus: Seq<GpuTraits>,
    accel: AccelerationMode,
) -> int {
    let cores = if logical_cores < 1 { 1 } else { logical_cores as int };
    let memory_bound = if memory_quarters < 1 { 1 } else { memory_quarters as int };
    let reserved = if cores - 1 < 1 { 1 } else { cores - 1 };
    let count = vram_gpu_count(gpus, gpus.len() as int) as int;
    let bonus = match accel {
        AccelerationMode::Gpu => (if exists|i: int| 0 <= i < gpus.len() && #[trigger] gpus[i].large_vram {
            2int
        } else {
            1int
        }) + if count >= 1 { count - 1 } else { 0 },
        AccelerationMode::Avx512 => 1,
        _ => 0,
    };
    let base = if reserved < memory_bound { reserved } else { memory_bound };
    if base + bonus > usize::MAX { usize::MAX as int } else { base + bonus }
}

/// Recommend a worker count for scheduling and pipelines.
pub fn compute_recommended_workers(
    cpu: &CpuInfo,
    memory_quarters: usize,
    gpus: &[GpuTraits],
    accel: AccelerationMode,
) -> (n: usize)
    requires
        gpus@.len() < usize::MAX,
    ensures
        n == recommended_workers(cpu.logical_cores, memory_quarters, gpus@, accel),
{
    let cores: usize = if cpu.logical_cores < 1 { 1 } else { cpu.logical_cores };
    let memory_bound: usize = if memory_quarters < 1 { 1 } else { memory_quarters };
    let reserved: usize = if cores - 1 < 1 { 1 } else { cores - 1 };
    let mut count: usize = 0;
    let mut large = false;
    let mut i: usize = 0;
    while i < gpus.len()
        invariant
            i <= gpus@.len(),
            count == vram_gpu_count(gpus@, i as int),
            count <= i,
            large == exists|j: int| 0 <= j < i && #[trigger] gpus@[j].large_vram,
        decreases gpus@.len() - i,
    {
        if gpus[i].has_vram {
            count += 1;
        }
        if gpus[i].large_vram {
            large = true;
        }
        i += 1;
        proof {
            if !large {
                assert forall|j: int| 0 <= j < i implies !#[trigger] gpus@[j].large_vram by {
                    if j < i - 1 {
                    }
                }
            }
        }
    }
    let bonus: usize = match accel {
        AccelerationMode::Gpu => (if large { 2 } else { 1 }) + if count >= 1 { count - 1 } else { 0 },
        AccelerationMode::Avx512 => 1,
        _ => 0,
    };
    let base = if reserved < memory_bound { reserved } else { memory_bound };
    base.saturating_add(bonus)
}

/// Re-exported GPU-name inference (see [`crate::host`]).
pub fn infer_compute_capability_from_name(name: &str) -> (cc: String)
    ensures
        cc@ == compute_capability_for(name.spec_bytes()),
{
    crate::host::infer_compute_capability_from_name(name)
}


/// No GPU asks for the GPU path: none reports VRAM, each is classified as a
/// plain CPU device or as an unnamed Vulkan device.
pub open spec fn no_gpu_acceleration(gpus: Seq<GpuTraits>) -> bool {
    forall|i: int|
        0 <= i < gpus.len() ==> !(#[trigger] gpus[i]).has_vram && (gpus[i].backend == GpuBackend::Cpu || (
        gpus[i].backend == GpuBackend::Vulkan && !gpus[i].named))
}

/// Without a GPU asking for acceleration, the mode is the best CPU feature:
/// AVX-512 over AVX2 over NEON/SVE, and generic only when the CPU has none
/// of them.
pub proof fn lemma_cpu_acceleration_without_gpu(gpus: Seq<GpuTraits>, f: CpuFeatures)
    requires
        no_gpu_acceleration(gpus),
    ensures
        f.avx_512 ==> acceleration_for(gpus, f) == AccelerationMode::Avx512,
        !f.avx_512 && f.avx2 ==> acceleration_for(gpus, f) == AccelerationMode::Avx2,
        !f.avx_512 && !f.avx2 && (f.neon || f.sve) ==> acceleration_for(gpus, f) == AccelerationMode::Neon,
        !f.avx_512 && !f.avx2 && !f.neon && !f.sve ==> acceleration_for(gpus, f) == AccelerationMode::Generic,
{
    assert(!exists|i: int| 0 <= i < gpus.len() && #[trigger] signals_gpu(gpus[i])) by {
        assert forall|i: int| 0 <= i < gpus.len() implies !#[trigger] signals_gpu(gpus[i]) by {
            assert(!gpus[i].has_vram);
        }
    }
    assert(!exists|i: int| 0 <= i < gpus.len() && #[trigger] named_vulkan(gpus[i])) by {
        assert forall|i: int| 0 <= i < gpus.len() implies !#[trigger] named_vulkan(gpus[i]) by {
            assert(!gpus[i].has_vram);
        }
    }
}

/// One GPU that reports VRAM, belongs to a real accelerator backend (not
/// CPU, not Vulkan) or is a named Vulkan device selects the GPU path,
/// whatever the CPU offers.
pub proof fn lemma_gpu_selects_gpu_mode(gpus: Seq<GpuTraits>, f: CpuFeatures, i: int)
    requires
        0 <= i < gpus.len(),
        gpus[i].has_vram || (gpus[i].backend != GpuBackend::Cpu && gpus[i].backend != GpuBackend::Vulkan) || (
        gpus[i].backend == GpuBackend::Vulkan && gpus[i].named),
    ensures
        acceleration_for(gpus, f) == AccelerationMode::Gpu,
{
    if !signals_gpu(gpus[i]) {
        assert(named_vulkan(gpus[i]));
    }
}

/// Without an accelerator bonus (neither the GPU nor the AVX-512 path), the
/// recommended worker count is at least one and is the smaller of the two
/// bounds: one core kept free (at least one) and `memory_quarters` (at
/// least one).
pub proof fn lemma_workers_without_bonus(
    logical_cores: usize,
    memory_quarters: usize,
    gpus: Seq<GpuTraits>,
    accel: AccelerationMode,
)
    requires
        accel != AccelerationMode::Gpu,
        accel != AccelerationMode::Avx512,
    ensures
        ({
            let r = recommended_workers(logical_cores, memory_quarters, gpus, accel);
            let mem = if memory_quarters >= 1 { memory_quarters as int } else { 1 };
            let cpu = if logical_cores >= 2 { logical_cores - 1 } else { 1 };
            &&& 1 <= r
            &&& r <= mem
            &&& r <= cpu
            &&& (r == mem || r == cpu)
        }),
{
}

/// An accelerator never lowers the recommendation: the count in any mode is
/// at least the count with no acceleration, and the AVX-512 path adds
/// exactly one worker (saturating at the largest count).
pub proof fn lemma_acceleration_adds_workers(
    logical_cores: usize,
    memory_quarters: usize,
    gpus: Seq<GpuTraits>,
    accel: AccelerationMode,
)
    ensures
        recommended_workers(logical_cores, memory_quarters, gpus, accel) >= recommended_workers(
            logical_cores,
            memory_quarters,
            gpus,
            AccelerationMode::Generic,
        ),
        ({
            let g = recommended_workers(logical_cores, memory_quarters, gpus, AccelerationMode::Generic);
            let a = recommended_workers(logical_cores, memory_quarters, gpus, AccelerationMode::Avx512);
            a == if g < usize::MAX { g + 1 } else { g }
        }),
{
}


/// In GPU mode at least one worker is added to the smaller of the core and
/// memory bounds, and at least two when some GPU has 16 GB of VRAM or more
/// (saturating at the largest count).
pub proof fn lemma_gpu_mode_adds_workers(logical_cores: usize, memory_quarters: usize, gpus: Seq<GpuTraits>)
    ensures
        ({
            let r = recommended_workers(logical_cores, memory_quarters, gpus, AccelerationMode::Gpu);
            let mem = if memory_quarters >= 1 { memory_quarters as int } else { 1 };
            let cpu = if logical_cores >= 2 { logical_cores - 1 } else { 1 };
            let base = if mem < cpu { mem } else { cpu };
            &&& r >= (if base + 1 > usize::MAX { usize::MAX as int } else { base + 1 })
            &&& (exists|i: int| 0 <= i < gpus.len() && #[trigger] gpus[i].large_vram) ==> r >= (if base + 2
                > usize::MAX { usize::MAX as int } else { base + 2 })
        }),
{
}

} // verus!

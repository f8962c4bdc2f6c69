//! Host capability vocabulary (acceleration modes, GPU backends, probe
//! modes) and classification of GPUs by their marketing names.

use vstd::prelude::*;
use vstd::string::StringSliceAdditionalSpecFns;
use crate::text::{lower_bytes, lower_contains, lower_has};
use crate::probe_text::{contains_text, has_chars};

verus! {

/// Selected acceleration path for the current host.
#[derive(Clone, Copy, Debug, PartialEq, Eq, Structural, Hash)]
pub enum AccelerationMode {
    /// GPU-backed execution is available.
    Gpu,
    /// AVX-512 optimized CPU path is preferred.
    Avx512,
    /// AVX2 optimized CPU path is preferred.
    Avx2,
    /// ARM NEON optimized CPU path is preferred.
    Neon,
    /// Generic scalar fallback.
    Generic,
}

impl Default for AccelerationMode {
    fn default() -> (m: AccelerationMode)
        ensures
            m == AccelerationMode::Gpu,
    {
        AccelerationMode::Gpu
    }
}

/// Backend technology hint for the detected accelerator path.
#[derive(Clone, Copy, Debug, PartialEq, Eq, Structural, Hash)]
pub enum GpuBackend {
    Cuda,
    Rocm,
    Vulkan,
    Directml,
    Metal,
    Npu,
    Cpu,
}

/// Hardware probe mode.
#[derive(Clone, Copy, Debug, PartialEq, Eq, Structural)]
pub enum ProbeMode {
    /// Fast path: env, sysfs and visible-device hints only.
    Fast,
    /// Full path: also cached external probes.
    Full,
}

/// Label of a GPU backend.
pub open spec fn gpu_backend_label(b: GpuBackend) -> Seq<char> {
    match b {
        GpuBackend::Cuda => "cuda"@,
        GpuBackend::Rocm => "rocm"@,
        GpuBackend::Vulkan => "vulkan"@,
        GpuBackend::Directml => "directml"@,
        GpuBackend::Metal => "metal"@,
        GpuBackend::Npu => "npu"@,
        GpuBackend::Cpu => "cpu"@,
    }
}

/// Label of a probe mode.
pub open spec fn probe_mode_label(m: ProbeMode) -> Seq<char> {
    match m {
        ProbeMode::Fast => "fast"@,
        ProbeMode::Full => "full"@,
    }
}

/// Display label of an acceleration mode.
pub open spec fn acceleration_label(m: AccelerationMode) -> Seq<char> {
    match m {
        AccelerationMode::Gpu => "GPU"@,
        AccelerationMode::Avx512 => "AVX-512"@,
        AccelerationMode::Avx2 => "AVX2"@,
        AccelerationMode::Neon => "NEON"@,
        AccelerationMode::Generic => "Generic CPU"@,
    }
}

impl GpuBackend {
    /// Human-readable backend label.
    pub fn as_str(self) -> (s: &'static str)
        ensures
            s@ == gpu_backend_label(self),
    {
        match self {
            GpuBackend::Cuda => "cuda",
            GpuBackend::Rocm => "rocm",
            GpuBackend::Vulkan => "vulkan",
            GpuBackend::Directml => "directml",
            GpuBackend::Metal => "metal",
            GpuBackend::Npu => "npu",
            GpuBackend::Cpu => "cpu",
        }
    }
}

impl ProbeMode {
    /// Human-readable label.
    pub fn as_str(self) -> (s: &'static str)
        ensures
            s@ == probe_mode_label(self),
    {
        match self {
            ProbeMode::Fast => "fast",
            ProbeMode::Full => "full",
        }
    }
}

impl AccelerationMode {
    /// Human-readable label for display.
    pub fn as_str(self) -> (s: &'static str)
        ensures
            s@ == acceleration_label(self),
    {
        match self {
            AccelerationMode::Gpu => "GPU",
            AccelerationMode::Avx512 => "AVX-512",
            AccelerationMode::Avx2 => "AVX2",
            AccelerationMode::Neon => "NEON",
            AccelerationMode::Generic => "Generic CPU",
        }
    }
}

/// Compute capability inferred from a GPU marketing name `n` (its UTF-8
/// bytes), matching case-insensitively (ASCII) in this order: RTX 50 /
/// B100 / B200 → "9.0"; RTX 40 → "8.9"; RTX 30 → "8.6"; Arc → "xe"; AMD
/// parts → "gpu" (this build has no ROCm support); Intel → "xe"; Apple →
/// "apple_metal"; otherwise "gpu".
pub open spec fn compute_capability_for(n: Seq<u8>) -> Seq<char> {
    if lower_contains(n, "rtx 50") || lower_contains(n, "rtx50") || lower_contains(n, "b100")
        || lower_contains(n, "b200") {
        "9.0"@
    } else if lower_contains(n, "rtx 40") || lower_contains(n, "rtx40") {
        "8.9"@
    } else if lower_contains(n, "rtx 30") || lower_contains(n, "rtx30") {
        "8.6"@
    } else if lower_contains(n, "arc") {
        "xe"@
    } else if lower_contains(n, "radeon") || lower_contains(n, "amd") || lower_contains(
        n,
        "advanced micro",
    ) || lower_contains(n, "rx ") || lower_contains(n, "w7900") || lower_contains(n, "w6800")
        || lower_contains(n, "mi250") || lower_contains(n, "mi300") || lower_contains(n, "mi350")
        || lower_contains(n, "instinct") {
        "gpu"@
    } else if lower_contains(n, "intel") || lower_contains(n, "iris") || lower_contains(n, "uhd") {
        "xe"@
    } else if lower_contains(n, "apple") || lower_contains(n, "m1") || lower_contains(n, "m2")
        || lower_contains(n, "m3") || lower_contains(n, "m4") {
        "apple_metal"@
    } else {
        "gpu"@
    }
}

/// Infer GPU compute capability from its marketing name.
pub fn infer_compute_capability_from_name(name: &str) -> (cc: String)
    ensures
        cc@ == compute_capability_for(name.spec_bytes()),
{
    let l = lower_bytes(name);
    let l = l.as_slice();
    if lower_has(l, "rtx 50") || lower_has(l, "rtx50") || lower_has(l, "b100") || lower_has(l, "b200") {
        "9.0".to_owned()
    } else if lower_has(l, "rtx 40") || lower_has(l, "rtx40") {
        "8.9".to_owned()
    } else if lower_has(l, "rtx 30") || lower_has(l, "rtx30") {
        "8.6".to_owned()
    } else if lower_has(l, "arc") {
        "xe".to_owned()
    } else if lower_has(l, "radeon") || lower_has(l, "amd") || lower_has(l, "advanced micro")
        || lower_has(l, "rx ") || lower_has(l, "w7900") || lower_has(l, "w6800") || lower_has(
        l,
        "mi250",
    ) || lower_has(l, "mi300") || lower_has(l, "mi350") || lower_has(l, "instinct") {
        "gpu".to_owned()
    } else if lower_has(l, "intel") || lower_has(l, "iris") || lower_has(l, "uhd") {
        "xe".to_owned()
    } else if lower_has(l, "apple") || lower_has(l, "m1") || lower_has(l, "m2") || lower_has(l, "m3")
        || lower_has(l, "m4") {
        "apple_metal".to_owned()
    } else {
        "gpu".to_owned()
    }
}

/// Whether the host is Apple Silicon, decided from what
/// `sysctl hw.optional.arm64` printed: the flag is set when the output holds
/// a `1`. Where the probe could not run (or the host is not a Mac) there is
/// no output and the answer is `false`.
pub fn is_apple_silicon(sysctl_output: Option<&str>) -> (b: bool)
    ensures
        b == (match sysctl_output {
            Some(out) => has_chars(out@, seq!['1']),
            None => false,
        }),
{
    match sysctl_output {
        Some(out) => {
            let one = "1";
            proof {
                reveal_strlit("1");
                assert(one@ =~= seq!['1']);
            }
            contains_text(out, one)
        },
        None => false,
    }
}


/// A name with an RTX 50-series, B100 or B200 marker (in any case) has
/// compute capability 9.0.
pub proof fn lemma_blackwell_capability(n: Seq<u8>)
    requires
        lower_contains(n, "rtx 50") || lower_contains(n, "rtx50") || lower_contains(n, "b100") || lower_contains(
            n,
            "b200",
        ),
    ensures
        compute_capability_for(n) == "9.0"@,
{
}

/// A name with an RTX 40-series marker (in any case) and no Blackwell
/// marker has compute capability 8.9.
pub proof fn lemma_ada_capability(n: Seq<u8>)
    requires
        lower_contains(n, "rtx 40") || lower_contains(n, "rtx40"),
        !lower_contains(n, "rtx 50"),
        !lower_contains(n, "rtx50"),
        !lower_contains(n, "b100"),
        !lower_contains(n, "b200"),
    ensures
        compute_capability_for(n) == "8.9"@,
{
}

/// A name with an RTX 30-series marker (in any case) and none of the
/// RTX 50, B100, B200 or RTX 40 markers has compute capability 8.6.
pub proof fn lemma_ampere_capability(n: Seq<u8>)
    requires
        lower_contains(n, "rtx 30") || lower_contains(n, "rtx30"),
        !lower_contains(n, "rtx 50"),
        !lower_contains(n, "rtx50"),
        !lower_contains(n, "b100"),
        !lower_contains(n, "b200"),
        !lower_contains(n, "rtx 40"),
        !lower_contains(n, "rtx40"),
    ensures
        compute_capability_for(n) == "8.6"@,
{
}


/// A name with an Arc marker and none of the NVIDIA series markers is an
/// Intel Arc device: capability `xe`.
pub proof fn lemma_arc_capability(n: Seq<u8>)
    requires
        lower_contains(n, "arc"),
        !lower_contains(n, "rtx 50"),
        !lower_contains(n, "rtx50"),
        !lower_contains(n, "b100"),
        !lower_contains(n, "b200"),
        !lower_contains(n, "rtx 40"),
        !lower_contains(n, "rtx40"),
        !lower_contains(n, "rtx 30"),
        !lower_contains(n, "rtx30"),
    ensures
        compute_capability_for(n) == "xe"@,
{
}

/// A name with none of the NVIDIA series, Arc or AMD markers that names an
/// Intel GPU (`intel`, `iris`, `uhd`) gets `xe`; one that names none of
/// these but an Apple chip (`apple`, `m1` to `m4`) gets `apple_metal`;
/// with no marker at all the capability is the generic `gpu`.
pub proof fn lemma_other_vendor_capability(n: Seq<u8>)
    requires
        !lower_contains(n, "rtx 50"),
        !lower_contains(n, "rtx50"),
        !lower_contains(n, "b100"),
        !lower_contains(n, "b200"),
        !lower_contains(n, "rtx 40"),
        !lower_contains(n, "rtx40"),
        !lower_contains(n, "rtx 30"),
        !lower_contains(n, "rtx30"),
        !lower_contains(n, "arc"),
        !lower_contains(n, "radeon"),
        !lower_contains(n, "amd"),
        !lower_contains(n, "advanced micro"),
        !lower_contains(n, "rx "),
        !lower_contains(n, "w7900"),
        !lower_contains(n, "w6800"),
        !lower_contains(n, "mi250"),
        !lower_contains(n, "mi300"),
        !lower_contains(n, "mi350"),
        !lower_contains(n, "instinct"),
    ensures
        lower_contains(n, "intel") || lower_contains(n, "iris") || lower_contains(n, "uhd")
            ==> compute_capability_for(n) == "xe"@,
        !(lower_contains(n, "intel") || lower_contains(n, "iris") || lower_contains(n, "uhd")) && (
        lower_contains(n, "apple") || lower_contains(n, "m1") || lower_contains(n, "m2") || lower_contains(n, "m3")
            || lower_contains(n, "m4")) ==> compute_capability_for(n) == "apple_metal"@,
        !(lower_contains(n, "intel") || lower_contains(n, "iris") || lower_contains(n, "uhd")) && !(
        lower_contains(n, "apple") || lower_contains(n, "m1") || lower_contains(n, "m2") || lower_contains(n, "m3")
            || lower_contains(n, "m4")) ==> compute_capability_for(n) == "gpu"@,
{
}

/// A name with an AMD marker (and none of the NVIDIA series or Arc
/// markers) gets the generic `gpu` capability.
pub proof fn lemma_amd_capability(n: Seq<u8>)
    requires
        lower_contains(n, "radeon") || lower_contains(n, "amd") || lower_contains(n, "advanced micro")
            || lower_contains(n, "rx ") || lower_contains(n, "w7900") || lower_contains(n, "w6800")
            || lower_contains(n, "mi250") || lower_contains(n, "mi300") || lower_contains(n, "mi350")
            || lower_contains(n, "instinct"),
        !lower_contains(n, "rtx 50"),
        !lower_contains(n, "rtx50"),
        !lower_contains(n, "b100"),
        !lower_contains(n, "b200"),
        !lower_contains(n, "rtx 40"),
        !lower_contains(n, "rtx40"),
        !lower_contains(n, "rtx 30"),
        !lower_contains(n, "rtx30"),
        !lower_contains(n, "arc"),
    ensures
        compute_capability_for(n) == "gpu"@,
{
}

} // verus!

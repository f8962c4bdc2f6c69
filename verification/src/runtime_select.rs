//! Inference runtimes: their names, how user-supplied names are parsed, and
//! how the primary runtime is chosen from an override and the runtimes
//! detected on the host.

use vstd::prelude::*;
use vstd::string::StringExecFns;
use crate::text::{ascii_lower_chars, str_eq, to_ascii_lowercase, trim, trimmed};

verus! {

/// Inference runtime.
#[allow(clippy::upper_case_acronyms)]
#[derive(Debug, Clone, Copy, PartialEq, Eq, Structural)]
pub enum Runtime {
    /// NVIDIA GPUs.
    CUDA,
    /// Apple Silicon / Apple GPUs.
    Metal,
    /// AMD GPUs.
    ROCm,
    /// DirectML on Windows (any DirectX 12 GPU).
    DirectML,
    /// Neural processing units.
    NPU,
    /// CPU fallback.
    CPU,
}

/// Expected response speed of a model.
#[derive(Debug, Clone, Copy, PartialEq, Eq, Structural)]
pub enum ModelSpeed {
    Fast,
    Standard,
    Slow,
}

/// Quality tier of a model.
#[derive(Debug, Clone, Copy, PartialEq, Eq, Structural)]
pub enum QualityTier {
    Lightweight,
    Standard,
    Premium,
    Specialized,
}

/// The runtime a lower-cased name stands for.
pub open spec fn runtime_for_name(l: Seq<char>) -> Option<Runtime> {
    if l == "cuda"@ || l == "nvidia"@ || l == "nvidia-gpu"@ || l == "nvidia gpu"@ {
        Some(Runtime::CUDA)
    } else if l == "metal"@ || l == "apple"@ || l == "apple-metal"@ {
        Some(Runtime::Metal)
    } else if l == "rocm"@ || l == "amd"@ || l == "amd-gpu"@ || l == "amd gpu"@ {
        Some(Runtime::ROCm)
    } else if l == "directml"@ || l == "dml"@ || l == "directml-gpu"@ {
        Some(Runtime::DirectML)
    } else if l == "npu"@ || l == "neural"@ || l == "neural-processor"@ {
        Some(Runtime::NPU)
    } else if l == "cpu"@ || l == "default"@ {
        Some(Runtime::CPU)
    } else {
        None
    }
}

/// Meaning of a runtime name as written by a user: trimmed, lower-cased.
pub open spec fn parse_runtime_spec(s: Seq<char>) -> Option<Runtime> {
    runtime_for_name(ascii_lower_chars(trimmed(s)))
}

/// Display label of a runtime.
pub open spec fn runtime_label(r: Runtime) -> Seq<char> {
    match r {
        Runtime::CUDA => "CUDA (NVIDIA GPU)"@,
        Runtime::Metal => "Metal (Apple Silicon)"@,
        Runtime::ROCm => "ROCm (AMD GPU)"@,
        Runtime::DirectML => "DirectML (DirectX 12 GPU)"@,
        Runtime::NPU => "NPU (Neural Processor)"@,
        Runtime::CPU => "CPU (Default)"@,
    }
}

impl Runtime {
    /// Display label.
    pub fn label(&self) -> (s: &'static str)
        ensures
            s@ == runtime_label(*self),
    {
        match self {
            Runtime::CUDA => "CUDA (NVIDIA GPU)",
            Runtime::Metal => "Metal (Apple Silicon)",
            Runtime::ROCm => "ROCm (AMD GPU)",
            Runtime::DirectML => "DirectML (DirectX 12 GPU)",
            Runtime::NPU => "NPU (Neural Processor)",
            Runtime::CPU => "CPU (Default)",
        }
    }

    /// Parse a runtime name (case-insensitive, surrounding white space
    /// ignored). Unknown names give `unknown runtime '<name>'` with the
    /// trimmed, lower-cased name.
    pub fn parse(value: &str) -> (r: Result<Runtime, String>)
        ensures
            parse_runtime_spec(value@) matches Some(rt) ==> r == Ok::<Runtime, String>(rt),
            parse_runtime_spec(value@) is None ==> (r matches Err(m) && m@ == "unknown runtime '"@
                + ascii_lower_chars(trimmed(value@)) + "'"@),
    {
        let t = trim(value);
        let l = to_ascii_lowercase(t);
        let s = l.as_str();
        if str_eq(s, "cuda") || str_eq(s, "nvidia") || str_eq(s, "nvidia-gpu") || str_eq(s, "nvidia gpu") {
            Ok(Runtime::CUDA)
        } else if str_eq(s, "metal") || str_eq(s, "apple") || str_eq(s, "apple-metal") {
            Ok(Runtime::Metal)
        } else if str_eq(s, "rocm") || str_eq(s, "amd") || str_eq(s, "amd-gpu") || str_eq(s, "amd gpu") {
            Ok(Runtime::ROCm)
        } else if str_eq(s, "directml") || str_eq(s, "dml") || str_eq(s, "directml-gpu") {
            Ok(Runtime::DirectML)
        } else if str_eq(s, "npu") || str_eq(s, "neural") || str_eq(s, "neural-processor") {
            Ok(Runtime::NPU)
        } else if str_eq(s, "cpu") || str_eq(s, "default") {
            Ok(Runtime::CPU)
        } else {
            let mut m = "unknown runtime '".to_owned();
            m.append(s);
            m.append("'");
            Err(m)
        }
    }
}

impl std::str::FromStr for Runtime {
    type Err = String;

    fn from_str(value: &str) -> (r: Result<Runtime, String>)
        ensures
            parse_runtime_spec(value@) matches Some(rt) ==> r == Ok::<Runtime, String>(rt),
            parse_runtime_spec(value@) is None ==> (r matches Err(m) && m@ == "unknown runtime '"@
                + ascii_lower_chars(trimmed(value@)) + "'"@),
    {
        Runtime::parse(value)
    }
}

/// Whether a force-flag value turns forcing on: `1`, `true`, `yes` or `on`
/// in any ASCII case.
pub open spec fn force_flag_on(v: Seq<char>) -> bool {
    let l = ascii_lower_chars(v);
    l == "1"@ || l == "true"@ || l == "yes"@ || l == "on"@
}

/// The primary runtime: a parseable override is taken when forced or when
/// it is among the detected runtimes; otherwise the first detected runtime,
/// or CPU when none was detected.
pub open spec fn primary_runtime_spec(
    override_name: Option<Seq<char>>,
    force: Option<Seq<char>>,
    detected: Seq<Runtime>,
) -> Runtime {
    let chosen = match override_name {
        Some(name) => match parse_runtime_spec(name) {
            Some(rt) => if (force matches Some(f) && force_flag_on(f)) || detected.contains(rt) {
                Some(rt)
            } else {
                None
            },
            None => None,
        },
        None => None,
    };
    match chosen {
        Some(rt) => rt,
        None => if detected.len() > 0 {
            detected[0]
        } else {
            Runtime::CPU
        },
    }
}

/// Runtime detection system: probing is done by the caller; the decision
/// lives here.
pub struct RuntimeDetector;

/// The character view of an optional string slice.
pub open spec fn opt_str(o: Option<&str>) -> Option<Seq<char>> {
    match o {
        Some(s) => Some(s@),
        None => None,
    }
}

impl RuntimeDetector {
    /// Choose the primary runtime from an override name, a force flag and
    /// the runtimes detected in order of preference.
    pub fn detect_primary(override_name: Option<&str>, force: Option<&str>, detected: &[Runtime]) -> (r: Runtime)
        ensures
            r == primary_runtime_spec(opt_str(override_name), opt_str(force), detected@),
    {
        if let Some(name) = override_name {
            if let Ok(rt) = Runtime::parse(name) {
                let forced = match force {
                    Some(f) => {
                        let l = to_ascii_lowercase(f);
                        let s = l.as_str();
                        str_eq(s, "1") || str_eq(s, "true") || str_eq(s, "yes") || str_eq(s, "on")
                    },
                    None => false,
                };
                if forced {
                    return rt;
                }
                let mut i: usize = 0;
                while i < detected.len()
                    invariant
                        i <= detected@.len(),
                        override_name == Some(name),
                        parse_runtime_spec(name@) == Some(rt),
                        forall|j: int| 0 <= j < i ==> detected@[j] != rt,
                    decreases detected@.len() - i,
                {
                    if detected[i] == rt {
                        proof {
                            assert(detected@.contains(rt));
                        }
                        return rt;
                    }
                    i += 1;
                }
            }
        }
        if detected.len() > 0 {
            detected[0]
        } else {
            Runtime::CPU
        }
    }
}

} // verus!

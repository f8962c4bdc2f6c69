//! Backend switching configuration: which environment variables each
//! compute backend needs, and the record of a completed switch.

use vstd::prelude::*;
use crate::str_map::{StrMap, text_map};

verus! {

/// Compute backend the inference server can run on.
#[derive(Clone, Copy, Debug, PartialEq, Eq, Structural)]
pub enum ComputeBackend {
    Cuda,
    Rocm,
    Metal,
    OneApi,
    DirectMl,
    Vulkan,
    Npu,
    Cpu,
}

/// Name of a backend (the key of its environment table).
pub open spec fn backend_name(b: ComputeBackend) -> Seq<char> {
    match b {
        ComputeBackend::Cuda => "cuda"@,
        ComputeBackend::Rocm => "rocm"@,
        ComputeBackend::Metal => "metal"@,
        ComputeBackend::OneApi => "oneapi"@,
        ComputeBackend::DirectMl => "directml"@,
        ComputeBackend::Vulkan => "vulkan"@,
        ComputeBackend::Npu => "npu"@,
        ComputeBackend::Cpu => "cpu"@,
    }
}

impl ComputeBackend {
    /// Backend name.
    pub fn as_str(&self) -> (s: &'static str)
        ensures
            s@ == backend_name(*self),
    {
        match self {
            ComputeBackend::Cuda => "cuda",
            ComputeBackend::Rocm => "rocm",
            ComputeBackend::Metal => "metal",
            ComputeBackend::OneApi => "oneapi",
            ComputeBackend::DirectMl => "directml",
            ComputeBackend::Vulkan => "vulkan",
            ComputeBackend::Npu => "npu",
            ComputeBackend::Cpu => "cpu",
        }
    }
}

/// Configuration for runtime switching behaviour.
#[derive(Debug)]
pub struct SwitchingConfig {
    /// Maximum time to wait for in-flight requests, in seconds.
    pub request_drain_timeout_secs: u64,
    /// Whether to restart the inference client automatically.
    pub auto_restart_client: bool,
    /// Environment variables to set per backend name.
    pub backend_env_vars: StrMap<StrMap<String>>,
}

/// Default environment for ROCm.
pub open spec fn rocm_env() -> Map<Seq<char>, Seq<char>> {
    map![
        "HSA_OVERRIDE_GFX_VERSION"@ => "gfx906"@,
        "HIP_PLATFORM"@ => "amd"@,
        "OLLAMA_NUM_THREAD"@ => "16"@,
        "OLLAMA_GPU_MEMORY"@ => "3276"@
    ]
}

/// Default environment for CUDA.
pub open spec fn cuda_env() -> Map<Seq<char>, Seq<char>> {
    map!["CUDA_VISIBLE_DEVICES"@ => "0"@, "TF_CPP_MIN_LOG_LEVEL"@ => "2"@, "OLLAMA_NUM_THREAD"@ => "16"@]
}

/// Default environment for the CPU backend.
pub open spec fn cpu_env() -> Map<Seq<char>, Seq<char>> {
    map!["OLLAMA_NUM_THREAD"@ => "16"@, "OLLAMA_GPU_MEMORY"@ => "0"@]
}

/// Every backend's environment table is well formed, and the table of
/// tables is too.
pub open spec fn env_table_wf(t: StrMap<StrMap<String>>) -> bool {
    t.wf() && forall|k: Seq<char>| #[trigger] t.map().contains_key(k) ==> t.map()[k].wf()
}

impl Default for SwitchingConfig {
    fn default() -> (c: SwitchingConfig)
        ensures
            c.request_drain_timeout_secs == 30,
            c.auto_restart_client,
            env_table_wf(c.backend_env_vars),
            c.backend_env_vars.map().dom() == set!["rocm"@, "cuda"@, "cpu"@],
            text_map(c.backend_env_vars.map()["rocm"@].map()) == rocm_env(),
            text_map(c.backend_env_vars.map()["cuda"@].map()) == cuda_env(),
            text_map(c.backend_env_vars.map()["cpu"@].map()) == cpu_env(),
    {
        let mut rocm: StrMap<String> = StrMap::new();
        rocm.insert("HSA_OVERRIDE_GFX_VERSION".to_owned(), "gfx906".to_owned());
        rocm.insert("HIP_PLATFORM".to_owned(), "amd".to_owned());
        rocm.insert("OLLAMA_NUM_THREAD".to_owned(), "16".to_owned());
        rocm.insert("OLLAMA_GPU_MEMORY".to_owned(), "3276".to_owned());
        let mut cuda: StrMap<String> = StrMap::new();
        cuda.insert("CUDA_VISIBLE_DEVICES".to_owned(), "0".to_owned());
        cuda.insert("TF_CPP_MIN_LOG_LEVEL".to_owned(), "2".to_owned());
        cuda.insert("OLLAMA_NUM_THREAD".to_owned(), "16".to_owned());
        let mut cpu: StrMap<String> = StrMap::new();
        cpu.insert("OLLAMA_NUM_THREAD".to_owned(), "16".to_owned());
        cpu.insert("OLLAMA_GPU_MEMORY".to_owned(), "0".to_owned());
        let mut table: StrMap<StrMap<String>> = StrMap::new();
        let ghost rocm_m = rocm.map();
        let ghost cuda_m = cuda.map();
        let ghost cpu_m = cpu.map();
        proof {
            reveal_strlit("HSA_OVERRIDE_GFX_VERSION");
            reveal_strlit("HIP_PLATFORM");
            reveal_strlit("OLLAMA_NUM_THREAD");
            reveal_strlit("OLLAMA_GPU_MEMORY");
            reveal_strlit("CUDA_VISIBLE_DEVICES");
            reveal_strlit("TF_CPP_MIN_LOG_LEVEL");
            reveal_strlit("rocm");
            reveal_strlit("cuda");
            reveal_strlit("cpu");
            assert(text_map(rocm_m) =~= rocm_env());
            assert(text_map(cuda_m) =~= cuda_env());
            assert(text_map(cpu_m) =~= cpu_env());
        }
        let ghost rocm_v = rocm;
        let ghost cuda_v = cuda;
        let ghost cpu_v = cpu;
        table.insert("rocm".to_owned(), rocm);
        table.insert("cuda".to_owned(), cuda);
        table.insert("cpu".to_owned(), cpu);
        proof {
            reveal_strlit("rocm");
            reveal_strlit("cuda");
            reveal_strlit("cpu");
            assert("rocm"@[0] != "cuda"@[0]);
            assert("rocm"@ != "cuda"@);
            assert("rocm"@.len() != "cpu"@.len());
            assert("cuda"@.len() != "cpu"@.len());
            assert(table.map()["rocm"@] == rocm_v);
            assert(table.map()["cuda"@] == cuda_v);
            assert(table.map()["cpu"@] == cpu_v);
            assert(table.map().dom() =~= set!["rocm"@, "cuda"@, "cpu"@]);
        }
        SwitchingConfig { request_drain_timeout_secs: 30, auto_restart_client: true, backend_env_vars: table }
    }
}

/// Environment variable manager: looks up what each backend needs.
#[derive(Debug)]
pub struct EnvironmentManager {
    config: SwitchingConfig,
}

impl EnvironmentManager {
    /// The configuration the manager works from.
    pub closed spec fn spec_config(&self) -> &SwitchingConfig {
        &self.config
    }

    /// Create a manager over `config`.
    pub fn new(config: SwitchingConfig) -> (m: EnvironmentManager)
        ensures
            m.spec_config() == config,
    {
        EnvironmentManager { config }
    }

    /// The environment variables for `backend`, or `None` when it needs
    /// none.
    pub fn get_backend_env(&self, backend: &ComputeBackend) -> (r: Option<StrMap<String>>)
        requires
            env_table_wf(self.spec_config().backend_env_vars),
        ensures
            self.spec_config().backend_env_vars.map().contains_key(backend_name(*backend)) ==> (r matches Some(
                m,
            ) && m.wf() && m.map() == self.spec_config().backend_env_vars.map()[backend_name(*backend)].map()),
            !self.spec_config().backend_env_vars.map().contains_key(backend_name(*backend)) ==> r is None,
    {
        match self.config.backend_env_vars.get(backend.as_str()) {
            Some(env) => Some(env.duplicate()),
            None => None,
        }
    }
}

/// Result of a successful backend switch.
#[derive(Debug, Clone)]
pub struct SwitchResult {
    pub backend: String,
    pub in_flight_drained: usize,
    pub env_vars_updated: usize,
    pub restart_required: bool,
    pub message: String,
}

/// Message of a completed switch.
pub open spec fn switch_message(b: ComputeBackend, restart_required: bool) -> Seq<char> {
    "Successfully switched to "@ + backend_name(b) + " backend"@ + (if restart_required {
        " (restart required)"@
    } else {
        ""@
    })
}

impl SwitchResult {
    /// The result of switching to `target`, after `env_vars_updated`
    /// environment variables were set.
    pub fn switched(target: ComputeBackend, env_vars_updated: usize, restart_required: bool) -> (r: SwitchResult)
        ensures
            r.backend@ == backend_name(target),
            r.in_flight_drained == 0,
            r.env_vars_updated == env_vars_updated,
            r.restart_required == restart_required,
            r.message@ == switch_message(target, restart_required),
    {
        let mut message = "Successfully switched to ".to_owned();
        message.append(target.as_str());
        message.append(" backend");
        if restart_required {
            message.append(" (restart required)");
        }
        proof {
            reveal_strlit("");
            assert(message@ =~= switch_message(target, restart_required));
        }
        SwitchResult {
            backend: target.as_str().to_owned(),
            in_flight_drained: 0,
            env_vars_updated,
            restart_required,
            message,
        }
    }
}

/// Error for a switch to a backend the registry does not offer.
pub fn unavailable_backend_error(target: ComputeBackend) -> (m: String)
    ensures
        m@ == "Target backend "@ + backend_name(target) + " not available"@,
{
    let mut m = "Target backend ".to_owned();
    m.append(target.as_str());
    m.append(" not available");
    m
}

} // verus!

//! Ghost-Link core: verified wire formats, buffers and control logic for a
//! zero-config LAN fabric that pools spare GPUs for inference.

pub mod api_response_cache;
pub mod autotune;
pub mod calendar;
pub mod circuit_breaker;
pub mod cluster;
pub mod crypto;
pub mod discovery;
pub mod fmt;
pub mod health;
pub mod host;
pub mod kv_cache;
pub mod mdns;
pub mod models;
pub mod number;
pub mod pipeline;
pub mod planning;
pub mod probe_text;
pub mod protocol;
pub mod request_tracker;
pub mod ring;
pub mod rpc_access;
pub mod rpc_peers;
pub mod runtime_select;
pub mod schedule;
pub mod str_map;
pub mod switcher;
pub mod sys;
pub mod system_profile;
pub mod text;
pub mod transport;
pub mod tuning;
pub mod vllm;

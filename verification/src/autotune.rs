//! Tuned configuration for the health checks, the load balancer, planning,
//! the TCP transport and the worker pool, as one value that can be cached
//! and restored.
//!
//! Fractional settings are `f32` values held as their bit patterns
//! (`f32::to_bits`); durations are milliseconds.

use vstd::prelude::*;
use crate::host::AccelerationMode;
use crate::models::{f32_bits_le, f32_bits_le_exec};
use crate::tuning::{HealthStatus, PlanningTuning, RuntimeProfile, TcpAutoConfig, WorkerPoolConfig};

verus! {

/// `f32` 6.0.
pub const F32_6: u32 = 0x40c0_0000;
/// `f32` 8.0.
pub const F32_8: u32 = 0x4100_0000;
/// `f32` 10.0.
pub const F32_10: u32 = 0x4120_0000;
/// `f32` 14.0.
pub const F32_14: u32 = 0x4160_0000;
/// `f32` 18.0.
pub const F32_18: u32 = 0x4190_0000;
/// `f32` 20.0.
pub const F32_20: u32 = 0x41a0_0000;
/// `f32` 0.97.
pub const F32_0_97: u32 = 0x3f78_51ec;
/// `f32` 0.95.
pub const F32_0_95: u32 = 0x3f73_3333;
/// `f32` 0.88.
pub const F32_0_88: u32 = 0x3f61_47ae;
/// `f32` 0.80.
pub const F32_0_80: u32 = 0x3f4c_cccd;

/// `x > 0.0` on the `f32` whose bit pattern is `x`.
pub open spec fn f32_bits_positive(x: u32) -> bool {
    f32_bits_le(0, x) && !f32_bits_le(x, 0)
}

/// Health check configuration.
#[derive(Clone, Copy, Debug, PartialEq, Eq, Structural)]
pub struct HealthConfig {
    /// Interval between health checks, in milliseconds.
    pub check_interval_ms: u64,
    /// Timeout for a health check response, in milliseconds.
    pub timeout_ms: u64,
    /// Successful checks before a node counts as healthy.
    pub min_successes: usize,
    /// Failures allowed before a node counts as degraded.
    pub max_failures: usize,
    /// Bits of the upper latency bound for a healthy node (µs).
    pub healthy_latency_us_bits: u32,
    /// Bits of the upper latency bound for a degraded-but-usable node (µs).
    pub degraded_latency_us_bits: u32,
    /// Bits of the minimum delivery ratio for a healthy node.
    pub healthy_delivery_ratio_bits: u32,
    /// Bits of the minimum delivery ratio for a degraded node.
    pub degraded_delivery_ratio_bits: u32,
}

impl Default for HealthConfig {
    fn default() -> (c: HealthConfig)
        ensures
            c == (HealthConfig {
                check_interval_ms: 5000,
                timeout_ms: 3000,
                min_successes: 2,
                max_failures: 3,
                healthy_latency_us_bits: F32_10,
                degraded_latency_us_bits: F32_20,
                healthy_delivery_ratio_bits: F32_0_95,
                degraded_delivery_ratio_bits: F32_0_80,
            }),
    {
        HealthConfig {
            check_interval_ms: 5000,
            timeout_ms: 3000,
            min_successes: 2,
            max_failures: 3,
            healthy_latency_us_bits: F32_10,
            degraded_latency_us_bits: F32_20,
            healthy_delivery_ratio_bits: F32_0_95,
            degraded_delivery_ratio_bits: F32_0_80,
        }
    }
}

/// Health thresholds tuned to a runtime profile: tighter latency bounds
/// for faster hosts, a third success for hosts with many workers, and
/// higher delivery ratios for hosts with VRAM.
pub open spec fn tuned_health(mode: AccelerationMode, recommended_workers: usize, vram_bits: u32) -> HealthConfig {
    let (healthy, degraded, timeout, max_failures) = match mode {
        AccelerationMode::Gpu => (F32_6, F32_14, 2000u64, 4usize),
        AccelerationMode::Avx512 => (F32_8, F32_18, 2000u64, 3usize),
        _ => (F32_10, F32_20, 3000u64, 3usize),
    };
    HealthConfig {
        check_interval_ms: 5000,
        timeout_ms: timeout,
        min_successes: if recommended_workers >= 8 { 3 } else { 2 },
        max_failures,
        healthy_latency_us_bits: healthy,
        degraded_latency_us_bits: degraded,
        healthy_delivery_ratio_bits: if f32_bits_positive(vram_bits) { F32_0_97 } else { F32_0_95 },
        degraded_delivery_ratio_bits: if f32_bits_positive(vram_bits) { F32_0_88 } else { F32_0_80 },
    }
}

impl HealthConfig {
    /// Tune the health thresholds from the detected runtime profile.
    pub fn autotuned(profile: &RuntimeProfile) -> (c: HealthConfig)
        ensures
            c == tuned_health(profile.acceleration_mode, profile.recommended_workers, profile.node_resources.vram_gb_bits),
    {
        let (healthy, degraded, timeout, max_failures): (u32, u32, u64, usize) = match profile.acceleration_mode {
            AccelerationMode::Gpu => (F32_6, F32_14, 2000, 4),
            AccelerationMode::Avx512 => (F32_8, F32_18, 2000, 3),
            _ => (F32_10, F32_20, 3000, 3),
        };
        let vram = profile.node_resources.vram_gb_bits;
        let has_vram = f32_bits_le_exec(0, vram) && !f32_bits_le_exec(vram, 0);
        HealthConfig {
            check_interval_ms: 5000,
            timeout_ms: timeout,
            min_successes: if profile.recommended_workers >= 8 { 3 } else { 2 },
            max_failures,
            healthy_latency_us_bits: healthy,
            degraded_latency_us_bits: degraded,
            healthy_delivery_ratio_bits: if has_vram { F32_0_97 } else { F32_0_95 },
            degraded_delivery_ratio_bits: if has_vram { F32_0_88 } else { F32_0_80 },
        }
    }
}

/// The health a check result shows under `c`: healthy when the delivery
/// ratio reaches the healthy ratio and the latency stays within the
/// healthy bound; degraded when the ratio reaches the degraded ratio or
/// the latency stays within the degraded bound; failed otherwise.
/// (Comparisons are those of `f32`: a NaN meets no bound.)
pub open spec fn health_status_of(c: HealthConfig, latency_us_bits: u32, delivery_ratio_bits: u32) -> HealthStatus {
    if f32_bits_le(c.healthy_delivery_ratio_bits, delivery_ratio_bits) && f32_bits_le(latency_us_bits, c.healthy_latency_us_bits) {
        HealthStatus::Healthy
    } else if f32_bits_le(c.degraded_delivery_ratio_bits, delivery_ratio_bits) || f32_bits_le(latency_us_bits, c.degraded_latency_us_bits) {
        HealthStatus::Degraded
    } else {
        HealthStatus::Failed
    }
}

impl HealthConfig {
    /// Classify a check result (latency in µs and delivery ratio, as `f32`
    /// bit patterns) against these thresholds (see [`health_status_of`]).
    pub fn status_for(&self, latency_us_bits: u32, delivery_ratio_bits: u32) -> (s: HealthStatus)
        ensures
            s == health_status_of(*self, latency_us_bits, delivery_ratio_bits),
    {
        if f32_bits_le_exec(self.healthy_delivery_ratio_bits, delivery_ratio_bits)
            && f32_bits_le_exec(latency_us_bits, self.healthy_latency_us_bits) {
            HealthStatus::Healthy
        } else if f32_bits_le_exec(self.degraded_delivery_ratio_bits, delivery_ratio_bits)
            || f32_bits_le_exec(latency_us_bits, self.degraded_latency_us_bits) {
            HealthStatus::Degraded
        } else {
            HealthStatus::Failed
        }
    }
}

/// Load balancer configuration.
#[derive(Clone, Copy, Debug, PartialEq, Eq, Structural)]
pub struct LoadBalanceConfig {
    /// Maximum time to wait for lock acquisition (µs).
    pub lock_timeout_us: u64,
    /// Bits of the minimum load threshold for rebalancing.
    pub min_load_threshold_bits: u32,
    /// Maximum layers per node for a single assignment.
    pub max_layers_per_assignment: usize,
}

impl Default for LoadBalanceConfig {
    fn default() -> (c: LoadBalanceConfig)
        ensures
            c == (LoadBalanceConfig { lock_timeout_us: 1000, min_load_threshold_bits: F32_0_80, max_layers_per_assignment: 100 }),
    {
        LoadBalanceConfig { lock_timeout_us: 1000, min_load_threshold_bits: F32_0_80, max_layers_per_assignment: 100 }
    }
}

/// Pre-computed tuning parameters for all subsystems.
#[derive(Clone, Debug)]
pub struct AutoTuner {
    /// System fingerprint used for cache invalidation.
    pub fingerprint: u64,
    /// Time of the last full re-tune (ISO 8601).
    pub tuned_at: String,
    /// Tuned health-check configuration.
    pub health_config: HealthConfig,
    /// Tuned load-balancing configuration.
    pub load_balance_config: LoadBalanceConfig,
    /// Tuned planning hints (layer chunking).
    pub planning_tuning: PlanningTuning,
    /// Recommended TCP transport settings.
    pub tcp_config: TcpAutoConfig,
    /// Recommended worker-pool sizing.
    pub worker_pool: WorkerPoolConfig,
}

impl AutoTuner {
    /// Rebuild a tuner from the fields a cache keeps of it: the health
    /// latency bounds, the lock timeout, the in-flight batch limit and the
    /// compute worker count. Everything else takes its default; the I/O
    /// workers are half the compute workers, and planning chunks hold at
    /// most as many layers as there are compute workers (at least one).
    pub fn from_cached_fields(
        fingerprint: u64,
        tuned_at: String,
        healthy_latency_us_bits: u32,
        degraded_latency_us_bits: u32,
        lock_timeout_us: u64,
        max_inflight_batches: usize,
        compute_workers: usize,
    ) -> (t: AutoTuner)
        requires
            compute_workers + compute_workers / 2 <= usize::MAX,
        ensures
            t.fingerprint == fingerprint,
            t.tuned_at@ == tuned_at@,
            t.health_config == (HealthConfig {
                healthy_latency_us_bits,
                degraded_latency_us_bits,
                ..HealthConfig {
                    check_interval_ms: 5000,
                    timeout_ms: 3000,
                    min_successes: 2,
                    max_failures: 3,
                    healthy_latency_us_bits: F32_10,
                    degraded_latency_us_bits: F32_20,
                    healthy_delivery_ratio_bits: F32_0_95,
                    degraded_delivery_ratio_bits: F32_0_80,
                }
            }),
            t.load_balance_config == (LoadBalanceConfig { lock_timeout_us, min_load_threshold_bits: F32_0_80, max_layers_per_assignment: 100 }),
            t.planning_tuning.max_layers_per_assignment == if compute_workers == 0 { 1 } else { compute_workers },
            t.tcp_config == (TcpAutoConfig { max_inflight_batches, reconnect_attempts: 3, reconnect_backoff_ms: 10 }),
            t.worker_pool.compute_workers == compute_workers,
            t.worker_pool.io_workers == compute_workers / 2,
            t.worker_pool.total_workers == compute_workers + compute_workers / 2,
    {
        let mut health_config = HealthConfig::default();
        health_config.healthy_latency_us_bits = healthy_latency_us_bits;
        health_config.degraded_latency_us_bits = degraded_latency_us_bits;
        let mut load_balance_config = LoadBalanceConfig::default();
        load_balance_config.lock_timeout_us = lock_timeout_us;
        AutoTuner {
            fingerprint,
            tuned_at,
            health_config,
            load_balance_config,
            planning_tuning: PlanningTuning {
                max_layers_per_assignment: if compute_workers == 0 { 1 } else { compute_workers },
            },
            tcp_config: TcpAutoConfig { max_inflight_batches, reconnect_attempts: 3, reconnect_backoff_ms: 10 },
            worker_pool: WorkerPoolConfig {
                compute_workers,
                io_workers: compute_workers / 2,
                total_workers: compute_workers + compute_workers / 2,
            },
        }
    }

    /// Run the TCP transport benchmark and update the TCP settings. The
    /// measurement belongs to the node binary; here the profile-derived
    /// settings stand, so the tuner is left as it is.
    pub fn benchmark_tcp(&mut self)
        ensures
            final(self).fingerprint == old(self).fingerprint,
            final(self).tuned_at@ == old(self).tuned_at@,
            final(self).health_config == old(self).health_config,
            final(self).load_balance_config == old(self).load_balance_config,
            final(self).planning_tuning == old(self).planning_tuning,
            final(self).tcp_config == old(self).tcp_config,
            final(self).worker_pool == old(self).worker_pool,
    {
    }
}

} // verus!

# ghostlink

Verified core of a zero-configuration LAN fabric that pools spare GPUs for
inference. The library (`src/`) holds the wire formats, buffers and control
decisions, each with a contract checked by Verus; `app/` holds the
process-level glue (sockets, threads, environment, child processes, serde)
and the floating-point parts (VRAM-based placement and load balancing,
running averages, synthetic stage compute, dashboards).

Modules of the library:

- `protocol` — discovery frames: header, node payload, CRC32.
- `discovery` — authenticated UDP discovery datagrams, replay cache,
  responder bookkeeping.
- `transport` — the stage-to-stage batch wire format and stage handshake.
- `pipeline` — the plan of a pipeline run: micro-batches, one node's
  stages merged, a bridge's connection policy and authentication.
- `ring` — single-producer/single-consumer ring buffer.
- `kv_cache` — per-layer KV cache.
- `circuit_breaker` — per-node circuit breaker and jittered backoff.
- `api_response_cache` — response cache with entity tags.
- `rpc_access` — IPv4 allowlists, admission registry, handshake MAC.
- `rpc_peers` — the peers that lend compute over RPC and the tensor split
  that weights them.
- `cluster` — node registry with status and heartbeats, health monitor
  and fault detector.
- `health`, `planning`, `autotune` — health-check history, placement
  plans, quantization choice and the cached tuning of all subsystems.
- `models`, `runtime_select`, `switcher`, `tuning`, `host`,
  `system_profile`, `schedule` — model catalogue, runtime choice and the
  settings derived from a host profile.
- `probe_text` — reading the output of hardware probes (`nvidia-smi`,
  WMI, `system_profiler`, `lspci`, `/proc/cpuinfo`, ...).
- `calendar`, `fmt`, `text`, `str_map`, `vllm`, `mdns` — supporting pieces.
- `crypto`, `sys` — the trusted boundary to the `hmac`/`sha2`, clock and
  randomness sources.

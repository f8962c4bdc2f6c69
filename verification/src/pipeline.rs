//! The plan of a pipeline run: how the tokens are cut into micro-batches,
//! how one node's stages merge into one placement, and when a transport
//! bridge stops trying to connect and passes batches through.
//!
//! Running the plan (threads, channels, sockets, timing) is the caller's.

use vstd::prelude::*;
use crate::schedule::{DeviceKind, TcpTransportConfig};
use crate::transport::{SessionAuth, session_id_of};
use vstd::utf8::*;
use crate::text::str_eq;
use vstd::string::StringExecFns;

verus! {

/// One micro-batch of a run.
#[derive(Clone, Copy, Debug, PartialEq, Eq, Structural)]
pub struct BatchSpec {
    /// Position of the batch in the run.
    pub batch_id: usize,
    /// Tokens packaged in the batch.
    pub tokens_in_batch: usize,
    /// Number of payload elements carried for the batch.
    pub payload_len: usize,
}

/// The micro-batch size in effect: values below 1 count as 1.
pub open spec fn effective_micro_batch(micro_batch: usize) -> nat {
    if micro_batch < 1 { 1 } else { micro_batch as nat }
}

/// Number of micro-batches: the token count divided by the micro-batch
/// size, rounded up.
pub open spec fn batch_count(token_count: usize, micro_batch: usize) -> nat {
    let m = effective_micro_batch(micro_batch);
    ((token_count + m - 1) / (m as int)) as nat
}

/// Batch `i` of the run: the tokens left from `i * mb` on, at most `mb`,
/// and a payload of 16 elements per token (at least one token's worth),
/// never fewer than 32.
pub open spec fn batch_at(token_count: usize, micro_batch: usize, i: int) -> BatchSpec {
    let m = effective_micro_batch(micro_batch);
    let left = token_count - i * m;
    let tokens = if left < m { left } else { m as int };
    let per_token = if tokens < 1 { 1 } else { tokens };
    let payload = if per_token * 16 < 32 { 32 } else { per_token * 16 };
    BatchSpec { batch_id: i as usize, tokens_in_batch: tokens as usize, payload_len: payload as usize }
}

/// The payload of the largest batch fits in a `usize`.
pub open spec fn payload_fits(token_count: usize, micro_batch: usize) -> bool {
    let m = effective_micro_batch(micro_batch);
    (if token_count < m { token_count as nat } else { m }) * 16 <= usize::MAX
}

proof fn lemma_ceil_div(tc: int, m: int, i: int)
    requires
        m > 0,
        tc >= 0,
        i >= 0,
        i * m >= tc,
        i == 0 || (i - 1) * m < tc,
    ensures
        i == (tc + m - 1) / m,
{
    let q = (tc + m - 1) / m;
    let r = (tc + m - 1) % m;
    vstd::arithmetic::div_mod::lemma_fundamental_div_mod(tc + m - 1, m);
    assert(0 <= r < m);
    assert(q * m + r == tc + m - 1);
    if i < q {
        assert(i + 1 <= q);
        vstd::arithmetic::mul::lemma_mul_inequality(i + 1, q, m);
        assert((i + 1) * m == i * m + m) by (nonlinear_arith);
    } else if i > q {
        assert(q + 1 <= i);
        vstd::arithmetic::mul::lemma_mul_inequality(q + 1, i, m);
        assert((q + 1) * m == q * m + m) by (nonlinear_arith);
        assert(i - 1 >= q);
        vstd::arithmetic::mul::lemma_mul_inequality(q, i - 1, m);
    }
}

/// Cut `token_count` tokens into micro-batches of `micro_batch` tokens
/// (values below 1 count as 1), the last one taking what is left.
pub fn plan_micro_batches(token_count: usize, micro_batch: usize) -> (v: Vec<BatchSpec>)
    requires
        payload_fits(token_count, micro_batch),
    ensures
        v@.len() == batch_count(token_count, micro_batch),
        forall|i: int| 0 <= i < v@.len() ==> #[trigger] v@[i] == batch_at(token_count, micro_batch, i),
{
    let m: usize = if micro_batch < 1 { 1 } else { micro_batch };
    let ghost mm = m as int;
    let mut v: Vec<BatchSpec> = Vec::new();
    let mut start: usize = 0;
    let mut i: usize = 0;
    while start < token_count
        invariant
            mm == effective_micro_batch(micro_batch),
            m as int == mm,
            payload_fits(token_count, micro_batch),
            start as int == i * mm,
            start <= token_count,
            v@.len() == i,
            i == 0 || (i - 1) * mm < token_count,
            forall|j: int| 0 <= j < i ==> #[trigger] v@[j] == batch_at(token_count, micro_batch, j),
        decreases token_count - start,
    {
        assert(i as int <= start as int) by (nonlinear_arith)
            requires
                start as int == i * mm,
                mm >= 1,
                i >= 0,
        ;
        let left = token_count - start;
        let tokens = if left < m { left } else { m };
        let per_token = if tokens < 1 { 1 } else { tokens };
        proof {
            assert(tokens <= token_count && tokens <= m);
            if token_count < mm {
                vstd::arithmetic::mul::lemma_mul_inequality(per_token as int, token_count as int, 16);
            } else {
                vstd::arithmetic::mul::lemma_mul_inequality(per_token as int, mm, 16);
            }
        }
        let payload = if per_token * 16 < 32 { 32 } else { per_token * 16 };
        v.push(BatchSpec { batch_id: i, tokens_in_batch: tokens, payload_len: payload });
        proof {
            assert(v@[i as int] == batch_at(token_count, micro_batch, i as int));
            assert((i + 1) * mm == i * mm + mm) by (nonlinear_arith);
        }
        if tokens == left {
            i = i + 1;
            proof {
                assert(i * mm >= token_count);
                lemma_ceil_div(token_count as int, mm, i as int);
            }
            return v;
        }
        start = start + m;
        i = i + 1;
    }
    proof {
        lemma_ceil_div(token_count as int, mm, i as int);
    }
    v
}

/// Where one stage of a pipeline runs.
#[derive(Clone, Debug)]
pub struct StagePlacement {
    /// Node running the stage.
    pub node_id: String,
    /// First layer (inclusive).
    pub start_layer: usize,
    /// End layer (exclusive).
    pub end_layer: usize,
    /// Device the stage runs on.
    pub device: DeviceKind,
    /// Bits of the estimated compute latency of one step, in milliseconds.
    pub est_latency_ms_bits: u32,
}

impl StagePlacement {
    /// Number of layers of the stage (zero for an inverted range).
    pub fn num_layers(&self) -> (n: usize)
        ensures
            n == (if self.end_layer >= self.start_layer { self.end_layer - self.start_layer } else { 0 }),
    {
        self.end_layer.saturating_sub(self.start_layer)
    }
}

/// The stages of one node merged into one placement: the smallest first
/// layer, the largest end layer, the device of the node's first stage, and
/// the latency of each of its stages (bit patterns, in order), whose total
/// is the merged stage's latency.
#[derive(Clone, Debug)]
pub struct MergedStage {
    pub node_id: String,
    pub start_layer: usize,
    pub end_layer: usize,
    pub device: DeviceKind,
    pub latency_parts_ms_bits: Vec<u32>,
}

impl MergedStage {
    /// Number of layers of the merged range (zero for an inverted range).
    pub fn num_layers(&self) -> (n: usize)
        ensures
            n == (if self.end_layer >= self.start_layer { self.end_layer - self.start_layer } else { 0 }),
    {
        self.end_layer.saturating_sub(self.start_layer)
    }
}

/// Whether a stage runs on node `id`.
pub open spec fn on_node(id: Seq<char>) -> spec_fn(StagePlacement) -> bool {
    |s: StagePlacement| s.node_id@ == id
}

/// The message for a node with no stage.
pub open spec fn no_stage_message(id: Seq<char>) -> Seq<char> {
    "no pipeline stages assigned to node '"@ + id + "'"@
}

/// The merge of the stages of node `id` that `m` is.
pub open spec fn merged_from(m: MergedStage, stages: Seq<StagePlacement>, id: Seq<char>) -> bool {
    let mine = stages.filter(on_node(id));
    &&& m.node_id@ == id
    &&& mine.len() > 0
    &&& m.device == mine[0].device
    &&& (exists|j: int| 0 <= j < mine.len() && #[trigger] mine[j].start_layer == m.start_layer)
    &&& (forall|j: int| 0 <= j < mine.len() ==> m.start_layer <= #[trigger] mine[j].start_layer)
    &&& (exists|j: int| 0 <= j < mine.len() && #[trigger] mine[j].end_layer == m.end_layer)
    &&& (forall|j: int| 0 <= j < mine.len() ==> #[trigger] mine[j].end_layer <= m.end_layer)
    &&& m.latency_parts_ms_bits@ == mine.map_values(|s: StagePlacement| s.est_latency_ms_bits)
}

/// Merge the stages of node `node_id` into one placement; an error when no
/// stage runs on that node.
pub fn merge_stages_for_node(node_id: &str, stages: &[StagePlacement]) -> (r: Result<MergedStage, String>)
    ensures
        r is Err <==> stages@.filter(on_node(node_id@)).len() == 0,
        r matches Err(e) ==> e@ == no_stage_message(node_id@),
        r matches Ok(m) ==> merged_from(m, stages@, node_id@),
{
    let ghost p = on_node(node_id@);
    let mut found = false;
    let mut start: usize = 0;
    let mut end: usize = 0;
    let mut device = DeviceKind::Cpu;
    let mut parts: Vec<u32> = Vec::new();
    let mut i: usize = 0;
    proof {
        assert(stages@.take(0) =~= Seq::<StagePlacement>::empty());
    }
    while i < stages.len()
        invariant
            i <= stages@.len(),
            p == on_node(node_id@),
            found == (stages@.take(i as int).filter(p).len() > 0),
            found ==> {
                let mine = stages@.take(i as int).filter(p);
                &&& device == mine[0].device
                &&& (exists|j: int| 0 <= j < mine.len() && #[trigger] mine[j].start_layer == start)
                &&& (forall|j: int| 0 <= j < mine.len() ==> start <= #[trigger] mine[j].start_layer)
                &&& (exists|j: int| 0 <= j < mine.len() && #[trigger] mine[j].end_layer == end)
                &&& (forall|j: int| 0 <= j < mine.len() ==> #[trigger] mine[j].end_layer <= end)
            },
            parts@ == stages@.take(i as int).filter(p).map_values(|s: StagePlacement| s.est_latency_ms_bits),
        decreases stages@.len() - i,
    {
        let ghost before = stages@.take(i as int).filter(p);
        proof {
            reveal(Seq::filter);
            assert(stages@.take(i as int + 1).drop_last() =~= stages@.take(i as int));
            assert(stages@.take(i as int + 1).last() == stages@[i as int]);
        }
        let st = &stages[i];
        if str_eq(st.node_id.as_str(), node_id) {
            let ghost after = before.push(stages@[i as int]);
            proof {
                assert(stages@.take(i as int + 1).filter(p) == after);
            }
            if !found {
                start = st.start_layer;
                end = st.end_layer;
                device = st.device;
                found = true;
                proof {
                    assert(before.len() == 0);
                    assert(after[0] == stages@[i as int]);
                }
            } else {
                let ghost old_start = start;
                let ghost old_end = end;
                if st.start_layer < start {
                    start = st.start_layer;
                }
                if st.end_layer > end {
                    end = st.end_layer;
                }
                proof {
                    assert(after[0] == before[0]);
                    assert forall|j: int| 0 <= j < after.len() implies start <= #[trigger] after[j].start_layer by {
                        if j < before.len() {
                            assert(after[j] == before[j]);
                        }
                    }
                    assert forall|j: int| 0 <= j < after.len() implies #[trigger] after[j].end_layer <= end by {
                        if j < before.len() {
                            assert(after[j] == before[j]);
                        }
                    }
                    if start == old_start {
                        let j = choose|j: int| 0 <= j < before.len() && #[trigger] before[j].start_layer == old_start;
                        assert(after[j] == before[j]);
                    } else {
                        assert(after[before.len() as int].start_layer == start);
                    }
                    if end == old_end {
                        let j = choose|j: int| 0 <= j < before.len() && #[trigger] before[j].end_layer == old_end;
                        assert(after[j] == before[j]);
                    } else {
                        assert(after[before.len() as int].end_layer == end);
                    }
                }
            }
            let ghost before_parts = parts@;
            parts.push(st.est_latency_ms_bits);
            proof {
                assert(parts@ =~= after.map_values(|s: StagePlacement| s.est_latency_ms_bits));
            }
        } else {
            proof {
                assert(stages@.take(i as int + 1).filter(p) == before);
            }
        }
        i += 1;
    }
    proof {
        assert(stages@.take(i as int) =~= stages@);
    }
    if found {
        Ok(MergedStage { node_id: node_id.to_owned(), start_layer: start, end_layer: end, device, latency_parts_ms_bits: parts })
    } else {
        let mut m = "no pipeline stages assigned to node '".to_owned();
        m.append(node_id);
        m.append("'");
        proof {
            reveal_strlit("no pipeline stages assigned to node '");
            reveal_strlit("'");
        }
        Err(m)
    }
}

/// How a bridge's connection attempt went.
#[derive(Clone, Copy, Debug, PartialEq, Eq, Structural)]
pub enum ConnectOutcome {
    Connected,
    Failed,
}

/// What a bridge does after a connection attempt.
#[derive(Clone, Copy, Debug, PartialEq, Eq, Structural)]
pub enum BridgeAction {
    /// Use the connection for the stage's traffic.
    UseStream,
    /// Wait `backoff_ms` and try again.
    Retry { backoff_ms: u64 },
    /// Wait `backoff_ms`, then give up on connecting and forward every
    /// batch unchanged to the next stage.
    Passthrough { backoff_ms: u64 },
}

/// Number of connection attempts a bridge makes: the configured number,
/// at least one.
pub open spec fn connect_attempts(reconnect_attempts: usize) -> nat {
    if reconnect_attempts < 1 { 1 } else { reconnect_attempts as nat }
}

/// The bridge's decision after its attempt number `failed` (counting from
/// zero, all earlier ones having failed) ended with `outcome`: use the
/// connection when it was made; otherwise retry after the configured
/// backoff while attempts remain, and pass batches through after the last.
pub open spec fn bridge_action(reconnect_attempts: usize, backoff_ms: u64, failed: nat, outcome: ConnectOutcome) -> BridgeAction {
    match outcome {
        ConnectOutcome::Connected => BridgeAction::UseStream,
        ConnectOutcome::Failed => if failed + 1 < connect_attempts(reconnect_attempts) {
            BridgeAction::Retry { backoff_ms }
        } else {
            BridgeAction::Passthrough { backoff_ms }
        },
    }
}

/// One step of a bridge's connection policy (see [`bridge_action`]).
pub fn bridge_connect_step(config: &TcpTransportConfig, failed: usize, outcome: ConnectOutcome) -> (a: BridgeAction)
    ensures
        a == bridge_action(config.reconnect_attempts, config.reconnect_backoff_ms, failed as nat, outcome),
{
    match outcome {
        ConnectOutcome::Connected => BridgeAction::UseStream,
        ConnectOutcome::Failed => {
            let attempts: usize = if config.reconnect_attempts < 1 { 1 } else { config.reconnect_attempts };
            if failed < attempts - 1 {
                BridgeAction::Retry { backoff_ms: config.reconnect_backoff_ms }
            } else {
                BridgeAction::Passthrough { backoff_ms: config.reconnect_backoff_ms }
            }
        },
    }
}

/// A bridge whose every attempt fails makes exactly
/// `max(reconnect_attempts, 1)` attempts: it retries after each of the
/// earlier ones and passes batches through after the last.
pub proof fn lemma_bridge_gives_up_after_all_attempts(reconnect_attempts: usize, backoff_ms: u64, failed: nat)
    requires
        failed < connect_attempts(reconnect_attempts),
    ensures
        failed + 1 < connect_attempts(reconnect_attempts) ==> bridge_action(reconnect_attempts, backoff_ms, failed, ConnectOutcome::Failed) == (BridgeAction::Retry { backoff_ms }),
        failed + 1 == connect_attempts(reconnect_attempts) ==> bridge_action(reconnect_attempts, backoff_ms, failed, ConnectOutcome::Failed) == (BridgeAction::Passthrough { backoff_ms }),
{
}

/// Rounds of synthetic work a stage does per batch: one per four layers
/// (at least one layer counted) plus one, doubled on a GPU and tripled on a
/// CPU.
pub open spec fn compute_rounds(num_layers: usize, device: DeviceKind) -> nat {
    let layers: nat = if num_layers < 1 { 1 } else { num_layers as nat };
    let base: nat = layers / 4 + 1;
    match device {
        DeviceKind::Npu => base,
        DeviceKind::Gpu => base * 2,
        DeviceKind::Cpu => base * 3,
    }
}

/// Rounds of synthetic work for a stage of `num_layers` layers on `device`.
pub fn stage_compute_rounds(num_layers: usize, device: DeviceKind) -> (r: usize)
    ensures
        r == compute_rounds(num_layers, device),
{
    let layers: usize = if num_layers < 1 { 1 } else { num_layers };
    let base = layers / 4 + 1;
    match device {
        DeviceKind::Npu => base,
        DeviceKind::Gpu => base * 2,
        DeviceKind::Cpu => base * 3,
    }
}

/// How a bridge authenticates its frames.
#[derive(Debug)]
pub enum BridgeAuth {
    /// Session authentication under the session derived from the session
    /// token.
    Session(SessionAuth),
    /// Per-frame tags under this token, or none.
    Token(Option<String>),
}

/// A bridge with a session token authenticates by session; otherwise it
/// tags each frame with the shared token, if one is configured.
pub fn bridge_auth(config: &TcpTransportConfig) -> (a: BridgeAuth)
    ensures
        match config.auth_session_token {
            Some(t) => a matches BridgeAuth::Session(s) && s.session_id == session_id_of(encode_utf8(t@))
                && s.seq == 0 && s.peer_seq == 0,
            None => match config.auth_token {
                Some(t) => a matches BridgeAuth::Token(Some(u)) && u@ == t@,
                None => a matches BridgeAuth::Token(None),
            },
        },
{
    match &config.auth_session_token {
        Some(t) => BridgeAuth::Session(SessionAuth::from_token(t.as_str())),
        None => match &config.auth_token {
            Some(t) => BridgeAuth::Token(Some(t.clone())),
            None => BridgeAuth::Token(None),
        },
    }
}

/// How often, in batches, a run checks whether to rebalance.
pub const REBALANCE_CHECK_EVERY_BATCHES: usize = 25;

/// Whether a run checks for rebalancing before batch `batch_idx`, checking
/// every `every` batches: on each multiple of `every` after the first batch,
/// and never when `every` is zero.
pub fn rebalance_check_due(batch_idx: usize, every: usize) -> (b: bool)
    ensures
        b == (batch_idx > 0 && every > 0 && batch_idx % every == 0),
{
    batch_idx > 0 && every > 0 && batch_idx % every == 0
}

} // verus!

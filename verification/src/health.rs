//! The recent health-check results of each node: the last few per node,
//! the latest one, and the summary of where the nodes stand.
//!
//! Latencies and delivery ratios are `f32` values held as their bit
//! patterns.

use vstd::prelude::*;
use crate::fmt::{decimal, push_decimal};
use crate::autotune::{health_status_of, HealthConfig};
use crate::models::{f32_bits_le, f32_bits_le_exec};
use crate::tuning::HealthStatus;
use vstd::string::StringExecFns;

verus! {

/// How many results are kept per node.
pub const HEALTH_HISTORY_CAP: usize = 10;

/// One health-check result.
#[derive(Clone, Debug)]
pub struct HealthCheckResult {
    /// Node identifier.
    pub node_id: String,
    /// Bits of the latency in µs.
    pub latency_us_bits: u32,
    /// Bits of the delivery ratio (0.0 to 1.0).
    pub delivery_ratio_bits: u32,
    /// Status the check found.
    pub status: HealthStatus,
    /// Time of the check, in milliseconds.
    pub timestamp_ms: u64,
}

/// Abstract value of [`HealthCheckResult`].
pub struct CheckView {
    pub node_id: Seq<char>,
    pub latency_us_bits: u32,
    pub delivery_ratio_bits: u32,
    pub status: HealthStatus,
    pub timestamp_ms: u64,
}

impl View for HealthCheckResult {
    type V = CheckView;

    open spec fn view(&self) -> CheckView {
        CheckView {
            node_id: self.node_id@,
            latency_us_bits: self.latency_us_bits,
            delivery_ratio_bits: self.delivery_ratio_bits,
            status: self.status,
            timestamp_ms: self.timestamp_ms,
        }
    }
}

impl HealthCheckResult {
    /// A copy of this result.
    pub fn duplicate(&self) -> (r: HealthCheckResult)
        ensures
            r@ == self@,
    {
        HealthCheckResult {
            node_id: self.node_id.clone(),
            latency_us_bits: self.latency_us_bits,
            delivery_ratio_bits: self.delivery_ratio_bits,
            status: self.status,
            timestamp_ms: self.timestamp_ms,
        }
    }
}

/// The last `n` elements of `s` (all of them when there are fewer).
pub open spec fn keep_last<A>(s: Seq<A>, n: nat) -> Seq<A> {
    if s.len() > n {
        s.skip(s.len() - n)
    } else {
        s
    }
}

/// The history after recording `r`: the node's results with `r` appended,
/// of which the last [`HEALTH_HISTORY_CAP`] are kept.
pub open spec fn recorded(m: Map<Seq<char>, Seq<CheckView>>, r: CheckView) -> Map<Seq<char>, Seq<CheckView>> {
    let before = if m.contains_key(r.node_id) { m[r.node_id] } else { Seq::empty() };
    m.insert(r.node_id, keep_last(before.push(r), HEALTH_HISTORY_CAP as nat))
}

/// The identifiers of the nodes whose latest result has status `s`.
pub open spec fn latest_with(m: Map<Seq<char>, Seq<CheckView>>, s: HealthStatus) -> Set<Seq<char>> {
    m.dom().filter(|k: Seq<char>| m[k].len() > 0 && m[k].last().status == s)
}

/// The summary text of a history with `total` nodes, of which the latest
/// results are healthy, degraded and failed for the given counts.
pub open spec fn summary_text(total: nat, healthy: nat, degraded: nat, failed: nat) -> Seq<char> {
    "Network Health Summary\n=================\nTotal nodes: "@ + decimal(total) + "\nHealthy: "@ + decimal(healthy)
        + "\nDegraded: "@ + decimal(degraded) + "\nFailed: "@ + decimal(failed) + "\n"@
}

/// One node's results.
pub struct NodeChecks {
    pub id: Seq<char>,
    pub checks: Seq<CheckView>,
}

/// No two entries share a node identifier.
pub open spec fn node_ids_unique(s: Seq<NodeChecks>) -> bool {
    forall|i: int, j: int| 0 <= i < s.len() && 0 <= j < s.len() && i != j ==> #[trigger] s[i].id != #[trigger] s[j].id
}

/// The entries keyed by node identifier.
pub open spec fn checks_map(s: Seq<NodeChecks>) -> Map<Seq<char>, Seq<CheckView>> {
    Map::new(
        |k: Seq<char>| exists|i: int| 0 <= i < s.len() && s[i].id == k,
        |k: Seq<char>| s[choose|i: int| 0 <= i < s.len() && s[i].id == k].checks,
    )
}

proof fn lemma_checks_at(s: Seq<NodeChecks>, i: int)
    requires
        node_ids_unique(s),
        0 <= i < s.len(),
    ensures
        checks_map(s).contains_key(s[i].id),
        checks_map(s)[s[i].id] == s[i].checks,
{
    let k = s[i].id;
    assert(checks_map(s).contains_key(k));
    let j = choose|j: int| 0 <= j < s.len() && s[j].id == k;
    if j != i {
        assert(s[j].id != s[i].id);
    }
}

proof fn lemma_checks_update(s: Seq<NodeChecks>, i: int, e: NodeChecks)
    requires
        node_ids_unique(s),
        0 <= i < s.len(),
        e.id == s[i].id,
    ensures
        node_ids_unique(s.update(i, e)),
        checks_map(s.update(i, e)) == checks_map(s).insert(e.id, e.checks),
{
    let t = s.update(i, e);
    assert forall|a: int, b: int| 0 <= a < t.len() && 0 <= b < t.len() && a != b implies #[trigger] t[a].id != #[trigger] t[b].id by {
        assert(s[a].id != s[b].id);
    }
    let m = checks_map(s).insert(e.id, e.checks);
    assert forall|k: Seq<char>| #[trigger] checks_map(t).contains_key(k) <==> m.contains_key(k) by {
        if checks_map(s).contains_key(k) {
            let j = choose|j: int| 0 <= j < s.len() && s[j].id == k;
            assert(t[j].id == k);
        }
        if checks_map(t).contains_key(k) {
            let j = choose|j: int| 0 <= j < t.len() && t[j].id == k;
            if j != i {
                assert(s[j].id == k);
            }
        }
        if k == e.id {
            assert(t[i].id == k);
        }
    }
    assert forall|k: Seq<char>| #[trigger] checks_map(t).contains_key(k) implies checks_map(t)[k] == m[k] by {
        let j = choose|j: int| 0 <= j < t.len() && t[j].id == k;
        lemma_checks_at(t, j);
        if j != i {
            lemma_checks_at(s, j);
        }
    }
    assert(checks_map(t) =~= m);
}

proof fn lemma_checks_push(s: Seq<NodeChecks>, e: NodeChecks)
    requires
        node_ids_unique(s),
        !checks_map(s).contains_key(e.id),
    ensures
        node_ids_unique(s.push(e)),
        checks_map(s.push(e)) == checks_map(s).insert(e.id, e.checks),
{
    let t = s.push(e);
    assert forall|a: int, b: int| 0 <= a < t.len() && 0 <= b < t.len() && a != b implies #[trigger] t[a].id != #[trigger] t[b].id by {
        if a == s.len() {
            if t[b].id == e.id {
                assert(s[b].id == e.id);
            }
        } else if b == s.len() {
            if t[a].id == e.id {
                assert(s[a].id == e.id);
            }
        } else {
            assert(s[a].id != s[b].id);
        }
    }
    let m = checks_map(s).insert(e.id, e.checks);
    assert forall|k: Seq<char>| #[trigger] checks_map(t).contains_key(k) <==> m.contains_key(k) by {
        if checks_map(s).contains_key(k) {
            let j = choose|j: int| 0 <= j < s.len() && s[j].id == k;
            assert(t[j].id == k);
        }
        if checks_map(t).contains_key(k) {
            let j = choose|j: int| 0 <= j < t.len() && t[j].id == k;
            if j < s.len() {
                assert(s[j].id == k);
            }
        }
        if k == e.id {
            assert(t[s.len() as int].id == k);
        }
    }
    assert forall|k: Seq<char>| #[trigger] checks_map(t).contains_key(k) implies checks_map(t)[k] == m[k] by {
        let j = choose|j: int| 0 <= j < t.len() && t[j].id == k;
        lemma_checks_at(t, j);
        if j < s.len() {
            lemma_checks_at(s, j);
        }
    }
    assert(checks_map(t) =~= m);
}

/// Number of entries whose latest result has status `st`.
pub open spec fn count_latest(s: Seq<NodeChecks>, st: HealthStatus) -> nat
    decreases s.len(),
{
    if s.len() == 0 {
        0
    } else {
        count_latest(s.drop_last(), st) + if s.last().checks.len() > 0 && s.last().checks.last().status == st {
            1nat
        } else {
            0nat
        }
    }
}

proof fn lemma_count_latest(s: Seq<NodeChecks>, st: HealthStatus)
    requires
        node_ids_unique(s),
    ensures
        checks_map(s).dom().finite(),
        checks_map(s).len() == s.len(),
        latest_with(checks_map(s), st).finite(),
        latest_with(checks_map(s), st).len() == count_latest(s, st),
    decreases s.len(),
{
    if s.len() == 0 {
        assert(checks_map(s).dom() =~= Set::<Seq<char>>::empty());
        assert(latest_with(checks_map(s), st) =~= Set::<Seq<char>>::empty());
    } else {
        let p = s.drop_last();
        let e = s.last();
        assert(node_ids_unique(p)) by {
            assert forall|a: int, b: int| 0 <= a < p.len() && 0 <= b < p.len() && a != b implies #[trigger] p[a].id != #[trigger] p[b].id by {
                assert(s[a].id != s[b].id);
            }
        }
        lemma_count_latest(p, st);
        if checks_map(p).contains_key(e.id) {
            let j = choose|j: int| 0 <= j < p.len() && p[j].id == e.id;
            assert(s[j].id != s[s.len() - 1].id);
        }
        lemma_checks_push(p, e);
        assert(p.push(e) =~= s);
        let m = checks_map(p);
        assert(checks_map(s).dom() =~= m.dom().insert(e.id));
        if e.checks.len() > 0 && e.checks.last().status == st {
            assert(latest_with(checks_map(s), st) =~= latest_with(m, st).insert(e.id));
        } else {
            assert(latest_with(checks_map(s), st) =~= latest_with(m, st));
        }
    }
}

/// After recording `r`, the latest result of its node is `r`, and a node
/// never holds more than [`HEALTH_HISTORY_CAP`] results.
pub proof fn lemma_recorded_result_is_latest(m: Map<Seq<char>, Seq<CheckView>>, r: CheckView)
    requires
        m.contains_key(r.node_id) ==> m[r.node_id].len() <= HEALTH_HISTORY_CAP,
    ensures
        recorded(m, r).contains_key(r.node_id),
        recorded(m, r)[r.node_id].last() == r,
        0 < recorded(m, r)[r.node_id].len() <= HEALTH_HISTORY_CAP,
{
    let before = if m.contains_key(r.node_id) { m[r.node_id] } else { Seq::empty() };
    let p = before.push(r);
    let kept = keep_last(p, HEALTH_HISTORY_CAP as nat);
    assert(kept.last() == r);
}

#[derive(Debug)]
struct HistoryEntry {
    id: String,
    checks: Vec<HealthCheckResult>,
}

/// The recent health-check results of each node.
#[derive(Debug)]
pub struct HealthHistory {
    entries: Vec<HistoryEntry>,
}

impl View for HealthHistory {
    type V = Map<Seq<char>, Seq<CheckView>>;

    closed spec fn view(&self) -> Map<Seq<char>, Seq<CheckView>> {
        checks_map(self.nodes())
    }
}

/// The views of a list of results.
pub open spec fn check_views(v: Seq<HealthCheckResult>) -> Seq<CheckView> {
    v.map_values(|r: HealthCheckResult| r@)
}

impl HealthHistory {
    closed spec fn nodes(&self) -> Seq<NodeChecks> {
        Seq::new(
            self.entries@.len(),
            |i: int| NodeChecks { id: self.entries@[i].id@, checks: check_views(self.entries@[i].checks@) },
        )
    }

    /// Each node is held once, with between one and
    /// [`HEALTH_HISTORY_CAP`] results.
    pub closed spec fn wf(&self) -> bool {
        &&& node_ids_unique(self.nodes())
        &&& forall|i: int| 0 <= i < self.entries@.len() ==> 0 < (#[trigger] self.entries@[i]).checks@.len() <= HEALTH_HISTORY_CAP
    }

    /// A well-formed history holds between one and
    /// [`HEALTH_HISTORY_CAP`] results per node.
    pub proof fn lemma_bounded(&self)
        requires
            self.wf(),
        ensures
            forall|k: Seq<char>| #[trigger] self@.contains_key(k) ==> 0 < self@[k].len() <= HEALTH_HISTORY_CAP,
    {
        assert forall|k: Seq<char>| #[trigger] self@.contains_key(k) implies 0 < self@[k].len() <= HEALTH_HISTORY_CAP by {
            let j = choose|j: int| 0 <= j < self.nodes().len() && self.nodes()[j].id == k;
            lemma_checks_at(self.nodes(), j);
            assert(self.entries@[j].checks@.len() == check_views(self.entries@[j].checks@).len());
        }
    }

    /// An empty history.
    pub fn new() -> (h: HealthHistory)
        ensures
            h.wf(),
            h@ == Map::<Seq<char>, Seq<CheckView>>::empty(),
    {
        let h = HealthHistory { entries: Vec::new() };
        proof {
            assert(h@ =~= Map::<Seq<char>, Seq<CheckView>>::empty());
        }
        h
    }

    fn find(&self, id: &str) -> (r: Option<usize>)
        requires
            self.wf(),
        ensures
            r matches Some(i) ==> i < self.entries@.len() && self.entries@[i as int].id@ == id@
                && self@.contains_key(id@) && self@[id@] == check_views(self.entries@[i as int].checks@),
            r is None ==> !self@.contains_key(id@),
    {
        let key = id.to_owned();
        let mut i: usize = 0;
        while i < self.entries.len()
            invariant
                self.wf(),
                i <= self.entries@.len(),
                key@ == id@,
                forall|j: int| 0 <= j < i ==> self.entries@[j].id@ != key@,
            decreases self.entries@.len() - i,
        {
            if self.entries[i].id == key {
                proof {
                    lemma_checks_at(self.nodes(), i as int);
                }
                return Some(i);
            }
            i += 1;
        }
        proof {
            if self@.contains_key(id@) {
                let j = choose|j: int| 0 <= j < self.nodes().len() && self.nodes()[j].id == id@;
                assert(self.entries@[j].id@ != key@);
            }
        }
        None
    }

    /// Record a result under its node, keeping that node's last
    /// [`HEALTH_HISTORY_CAP`] results (see [`recorded`]).
    pub fn record(&mut self, result: HealthCheckResult)
        requires
            old(self).wf(),
        ensures
            final(self).wf(),
            final(self)@ == recorded(old(self)@, result@),
    {
        let ghost old_nodes = self.nodes();
        let ghost rv = result@;
        match self.find(result.node_id.as_str()) {
            Some(i) => {
                let ghost before = self.entries@[i as int].checks@;
                let entry = &mut self.entries[i];
                entry.checks.push(result);
                if entry.checks.len() > HEALTH_HISTORY_CAP {
                    entry.checks.remove(0);
                }
                proof {
                    let kept = keep_last(check_views(before).push(rv), HEALTH_HISTORY_CAP as nat);
                    assert(check_views(self.entries@[i as int].checks@) =~= kept);
                    let e = NodeChecks { id: rv.node_id, checks: kept };
                    lemma_checks_update(old_nodes, i as int, e);
                    assert(self.nodes() =~= old_nodes.update(i as int, e));
                }
            },
            None => {
                let id = result.node_id.clone();
                let mut checks: Vec<HealthCheckResult> = Vec::new();
                checks.push(result);
                self.entries.push(HistoryEntry { id, checks });
                proof {
                    let e = NodeChecks { id: rv.node_id, checks: seq![rv] };
                    assert(check_views(self.entries@[self.entries@.len() - 1].checks@) =~= seq![rv]);
                    assert(keep_last(Seq::<CheckView>::empty().push(rv), HEALTH_HISTORY_CAP as nat) =~= seq![rv]);
                    lemma_checks_push(old_nodes, e);
                    assert(self.nodes() =~= old_nodes.push(e));
                }
            },
        }
    }

    /// The latest result of node `id`, if it has any.
    pub fn latest(&self, id: &str) -> (r: Option<HealthCheckResult>)
        requires
            self.wf(),
        ensures
            match r {
                Some(x) => self@.contains_key(id@) && x@ == self@[id@].last(),
                None => !self@.contains_key(id@),
            },
    {
        match self.find(id) {
            Some(i) => {
                let checks = &self.entries[i].checks;
                let n = checks.len();
                proof {
                    assert(check_views(checks@)[n - 1] == checks@[n - 1]@);
                }
                Some(checks[n - 1].duplicate())
            },
            None => None,
        }
    }

    /// The recent results of node `id`, oldest first (none for an unknown
    /// node).
    pub fn recent(&self, id: &str) -> (v: Vec<HealthCheckResult>)
        requires
            self.wf(),
        ensures
            check_views(v@) == (if self@.contains_key(id@) { self@[id@] } else { Seq::<CheckView>::empty() }),
    {
        let mut v: Vec<HealthCheckResult> = Vec::new();
        match self.find(id) {
            Some(i) => {
                let checks = &self.entries[i].checks;
                let mut j: usize = 0;
                while j < checks.len()
                    invariant
                        j <= checks@.len(),
                        check_views(v@) == check_views(checks@).take(j as int),
                    decreases checks@.len() - j,
                {
                    let ghost before = v@;
                    let x = checks[j].duplicate();
                    v.push(x);
                    proof {
                        assert(check_views(v@) =~= check_views(before).push(x@));
                        assert(check_views(checks@)[j as int] == checks@[j as int]@);
                        assert(check_views(v@) =~= check_views(checks@).take(j as int + 1));
                    }
                    j += 1;
                }
                proof {
                    assert(check_views(checks@).take(j as int) =~= check_views(checks@));
                }
            },
            None => {
                proof {
                    assert(check_views(v@) =~= Seq::<CheckView>::empty());
                }
            },
        }
        v
    }

    /// Where the nodes stand: how many there are and how many of their
    /// latest results are healthy, degraded and failed.
    pub fn summary(&self) -> (s: String)
        requires
            self.wf(),
        ensures
            s@ == summary_text(
                self@.len(),
                latest_with(self@, HealthStatus::Healthy).len(),
                latest_with(self@, HealthStatus::Degraded).len(),
                latest_with(self@, HealthStatus::Failed).len(),
            ),
    {
        let ghost ns = self.nodes();
        let mut healthy: u64 = 0;
        let mut degraded: u64 = 0;
        let mut failed: u64 = 0;
        let mut i: usize = 0;
        while i < self.entries.len()
            invariant
                ns == self.nodes(),
                self.wf(),
                i <= self.entries@.len(),
                healthy == count_latest(ns.take(i as int), HealthStatus::Healthy),
                degraded == count_latest(ns.take(i as int), HealthStatus::Degraded),
                failed == count_latest(ns.take(i as int), HealthStatus::Failed),
                healthy <= i && degraded <= i && failed <= i,
            decreases self.entries@.len() - i,
        {
            let checks = &self.entries[i].checks;
            let n = checks.len();
            proof {
                assert(ns.take(i as int + 1).drop_last() =~= ns.take(i as int));
                assert(ns.take(i as int + 1).last() == ns[i as int]);
                assert(check_views(checks@).last() == checks@[n - 1]@);
            }
            match checks[n - 1].status {
                HealthStatus::Healthy => healthy += 1,
                HealthStatus::Degraded => degraded += 1,
                HealthStatus::Failed => failed += 1,
                HealthStatus::Unknown => {},
            }
            i += 1;
        }
        proof {
            assert(ns.take(i as int) =~= ns);
            lemma_count_latest(ns, HealthStatus::Healthy);
            lemma_count_latest(ns, HealthStatus::Degraded);
            lemma_count_latest(ns, HealthStatus::Failed);
        }
        let mut s = "Network Health Summary\n=================\nTotal nodes: ".to_owned();
        push_decimal(&mut s, self.entries.len() as u64);
        s.append("\nHealthy: ");
        push_decimal(&mut s, healthy);
        s.append("\nDegraded: ");
        push_decimal(&mut s, degraded);
        s.append("\nFailed: ");
        push_decimal(&mut s, failed);
        s.append("\n");
        s
    }
}

impl Default for HealthHistory {
    fn default() -> (h: HealthHistory)
        ensures
            h.wf(),
            h@ == Map::<Seq<char>, Seq<CheckView>>::empty(),
    {
        HealthHistory::new()
    }
}

/// Tracks the health checks of the cluster's nodes against its thresholds.
#[derive(Debug)]
pub struct NetworkHealthMonitor {
    /// Thresholds the checks are classified against.
    pub config: HealthConfig,
    /// Recent results per node.
    pub recent_checks: HealthHistory,
    /// Time of the last check, if any.
    pub last_check_ms: Option<u64>,
}

impl NetworkHealthMonitor {
    /// A monitor with no results yet.
    pub fn new(config: HealthConfig) -> (m: NetworkHealthMonitor)
        ensures
            m.config == config,
            m.recent_checks.wf(),
            m.recent_checks@ == Map::<Seq<char>, Seq<CheckView>>::empty(),
            m.last_check_ms is None,
    {
        NetworkHealthMonitor { config, recent_checks: HealthHistory::new(), last_check_ms: None }
    }

    /// Record a check of `node_id` made at `now_ms` (latency in µs and
    /// delivery ratio as `f32` bit patterns), classified against the
    /// thresholds.
    pub fn record_check(&mut self, node_id: String, latency_us_bits: u32, delivery_ratio_bits: u32, now_ms: u64)
        requires
            old(self).recent_checks.wf(),
        ensures
            final(self).recent_checks.wf(),
            final(self).config == old(self).config,
            final(self).last_check_ms == Some(now_ms),
            final(self).recent_checks@ == recorded(
                old(self).recent_checks@,
                CheckView {
                    node_id: node_id@,
                    latency_us_bits,
                    delivery_ratio_bits,
                    status: health_status_of(old(self).config, latency_us_bits, delivery_ratio_bits),
                    timestamp_ms: now_ms,
                },
            ),
    {
        let status = self.config.status_for(latency_us_bits, delivery_ratio_bits);
        self.recent_checks.record(HealthCheckResult { node_id, latency_us_bits, delivery_ratio_bits, status, timestamp_ms: now_ms });
        self.last_check_ms = Some(now_ms);
    }

    /// The latest result of node `node_id`, if any.
    pub fn get_node_health(&self, node_id: &str) -> (r: Option<HealthCheckResult>)
        requires
            self.recent_checks.wf(),
        ensures
            match r {
                Some(x) => self.recent_checks@.contains_key(node_id@) && x@ == self.recent_checks@[node_id@].last(),
                None => !self.recent_checks@.contains_key(node_id@),
            },
    {
        self.recent_checks.latest(node_id)
    }

    /// Where the nodes stand (see [`HealthHistory::summary`]).
    pub fn get_health_summary(&self) -> (s: String)
        requires
            self.recent_checks.wf(),
        ensures
            s@ == summary_text(
                self.recent_checks@.len(),
                latest_with(self.recent_checks@, HealthStatus::Healthy).len(),
                latest_with(self.recent_checks@, HealthStatus::Degraded).len(),
                latest_with(self.recent_checks@, HealthStatus::Failed).len(),
            ),
    {
        self.recent_checks.summary()
    }
}

/// Aggregated link measurements of the cluster. The running means are
/// kept by the caller, which owns the floating-point arithmetic; the
/// recommendation reads them.
#[derive(Clone, Copy, Debug)]
pub struct HealthMetrics {
    /// Bits of the average latency across the cluster.
    pub avg_latency_us_bits: u32,
    /// Bits of the least latency observed.
    pub min_latency_us_bits: u32,
    /// Bits of the greatest latency observed.
    pub max_latency_us_bits: u32,
    /// Bits of the average delivery ratio.
    pub avg_delivery_ratio_bits: u32,
    /// Bits of the least delivery ratio observed.
    pub min_delivery_ratio_bits: u32,
    /// Number of samples.
    pub sample_count: usize,
}

/// Bits of the `f32` 0.95: the least average delivery ratio of a healthy
/// cluster.
pub const RECOMMEND_HEALTHY_RATIO_BITS: u32 = 0x3f73_3333;
/// Bits of the `f32` 0.90: the least of a degraded one.
pub const RECOMMEND_DEGRADED_RATIO_BITS: u32 = 0x3f66_6666;
/// Bits of the `f32` 0.80: the least of a poorly performing one.
pub const RECOMMEND_POOR_RATIO_BITS: u32 = 0x3f4c_cccd;
/// Bits of the `f32` 10.0: the most least-latency (µs) of a healthy cluster.
pub const RECOMMEND_HEALTHY_LATENCY_BITS: u32 = 0x4120_0000;
/// Bits of the `f32` 20.0: the most of a degraded one.
pub const RECOMMEND_DEGRADED_LATENCY_BITS: u32 = 0x41a0_0000;
/// Bits of the `f32` 50.0: the most of a poorly performing one.
pub const RECOMMEND_POOR_LATENCY_BITS: u32 = 0x4248_0000;

/// The recommendation for aggregated metrics: none without samples, then
/// by the band the average delivery ratio and the least latency fall in.
pub open spec fn recommendation(m: HealthMetrics) -> Seq<char> {
    let ratio = m.avg_delivery_ratio_bits;
    let latency = m.min_latency_us_bits;
    if m.sample_count == 0 {
        "No data available"@
    } else if f32_bits_le(RECOMMEND_HEALTHY_RATIO_BITS, ratio) && f32_bits_le(latency, RECOMMEND_HEALTHY_LATENCY_BITS) {
        "Cluster is healthy. No action needed."@
    } else if f32_bits_le(RECOMMEND_DEGRADED_RATIO_BITS, ratio) && f32_bits_le(latency, RECOMMEND_DEGRADED_LATENCY_BITS) {
        "Cluster is degraded. Consider load balancing."@
    } else if f32_bits_le(RECOMMEND_POOR_RATIO_BITS, ratio) && f32_bits_le(latency, RECOMMEND_POOR_LATENCY_BITS) {
        "Cluster performance is poor. Recommend quantization fallback."@
    } else {
        "Cluster has failed nodes. Investigate and recover."@
    }
}

impl HealthMetrics {
    /// No samples yet.
    pub fn new() -> (m: HealthMetrics)
        ensures
            m == (HealthMetrics {
                avg_latency_us_bits: 0,
                min_latency_us_bits: 0,
                max_latency_us_bits: 0,
                avg_delivery_ratio_bits: 0,
                min_delivery_ratio_bits: 0,
                sample_count: 0,
            }),
    {
        HealthMetrics {
            avg_latency_us_bits: 0,
            min_latency_us_bits: 0,
            max_latency_us_bits: 0,
            avg_delivery_ratio_bits: 0,
            min_delivery_ratio_bits: 0,
            sample_count: 0,
        }
    }

    /// What to do about the cluster (see [`recommendation`]).
    pub fn get_recommendation(&self) -> (s: String)
        ensures
            s@ == recommendation(*self),
    {
        let ratio = self.avg_delivery_ratio_bits;
        let latency = self.min_latency_us_bits;
        let text = if self.sample_count == 0 {
            "No data available"
        } else if f32_bits_le_exec(RECOMMEND_HEALTHY_RATIO_BITS, ratio) && f32_bits_le_exec(latency, RECOMMEND_HEALTHY_LATENCY_BITS) {
            "Cluster is healthy. No action needed."
        } else if f32_bits_le_exec(RECOMMEND_DEGRADED_RATIO_BITS, ratio) && f32_bits_le_exec(latency, RECOMMEND_DEGRADED_LATENCY_BITS) {
            "Cluster is degraded. Consider load balancing."
        } else if f32_bits_le_exec(RECOMMEND_POOR_RATIO_BITS, ratio) && f32_bits_le_exec(latency, RECOMMEND_POOR_LATENCY_BITS) {
            "Cluster performance is poor. Recommend quantization fallback."
        } else {
            "Cluster has failed nodes. Investigate and recover."
        };
        text.to_owned()
    }
}

impl Default for HealthMetrics {
    fn default() -> (m: HealthMetrics)
        ensures
            m.sample_count == 0,
            m.avg_latency_us_bits == 0 && m.min_latency_us_bits == 0 && m.max_latency_us_bits == 0,
            m.avg_delivery_ratio_bits == 0 && m.min_delivery_ratio_bits == 0,
    {
        HealthMetrics::new()
    }
}

} // verus!

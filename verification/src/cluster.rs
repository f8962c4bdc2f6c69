//! Cluster membership: the registry of nodes with their advertised
//! resources, status and heartbeat times, the health monitor that fails
//! silent nodes and the fault detector that reports them.
//!
//! Times are milliseconds on a clock chosen by the caller; the `*_at`
//! methods take the current time as an argument, the others read the
//! registry's own monotonic clock, which counts milliseconds from the
//! moment the registry was made.

use vstd::prelude::*;
use vstd::utf8::*;
use crate::protocol::{NodeResources, NodeView, opt_view};
use crate::rpc_access::IpAddress;
use crate::tuning::NodeStatus;
use crate::sys::{elapsed_millis, instant_now};

verus! {

/// Heartbeat timeout given to every registered node, in milliseconds.
pub const HEARTBEAT_TIMEOUT_MS: u64 = 5000;

/// Bits of the `f32` 1.0, the delivery ratio of a node with no samples yet.
pub const FULL_DELIVERY_RATIO_BITS: u32 = 0x3f80_0000;

/// A node's socket address.
#[derive(Clone, Copy, Debug, PartialEq, Eq, Structural)]
pub struct SocketAddress {
    pub ip: IpAddress,
    pub port: u16,
}

/// What the cluster tracks of one node besides its advertised resources.
#[derive(Clone, Debug)]
pub struct NodeMetrics {
    /// Node display name (its identifier).
    pub name: String,
    /// Current status.
    pub status: NodeStatus,
    /// Bits of the VRAM in GB (`f32::to_bits`).
    pub vram_gb_bits: u32,
    /// Bits of the total VRAM in GB.
    pub total_vram_gb_bits: u32,
    /// Bits of the system memory in GB.
    pub system_memory_gb_bits: u32,
    /// Bits of the VRAM still available, in GB.
    pub available_vram_gb_bits: u32,
    /// Compute capability.
    pub compute_capability: String,
    /// GPU name/model.
    pub gpu_name: Option<String>,
    /// Address the node was reached at, when known.
    pub ip_address: Option<SocketAddress>,
    /// Time of the last heartbeat.
    pub last_heartbeat_ms: u64,
    /// Silence after which the node counts as timed out.
    pub heartbeat_timeout_ms: u64,
    /// Layer range streaming on this node.
    pub streaming_layers: Option<(usize, usize)>,
    /// Bits of the delivery ratio (0.0 to 1.0) of the node's traffic.
    pub delivery_ratio_bits: u32,
    /// Whether the delivery ratio has had a sample yet.
    pub delivery_ratio_initialized: bool,
    /// Bits of the average latency in microseconds.
    pub avg_latency_us_bits: u32,
    /// Number of latency samples.
    pub latency_samples: u64,
}

/// Abstract value of [`NodeMetrics`].
pub struct MetricsView {
    pub name: Seq<char>,
    pub status: NodeStatus,
    pub vram_gb_bits: u32,
    pub total_vram_gb_bits: u32,
    pub system_memory_gb_bits: u32,
    pub available_vram_gb_bits: u32,
    pub compute_capability: Seq<char>,
    pub gpu_name: Option<Seq<char>>,
    pub ip_address: Option<SocketAddress>,
    pub last_heartbeat_ms: u64,
    pub heartbeat_timeout_ms: u64,
    pub streaming_layers: Option<(usize, usize)>,
    pub delivery_ratio_bits: u32,
    pub delivery_ratio_initialized: bool,
    pub avg_latency_us_bits: u32,
    pub latency_samples: u64,
}

impl View for NodeMetrics {
    type V = MetricsView;

    open spec fn view(&self) -> MetricsView {
        MetricsView {
            name: self.name@,
            status: self.status,
            vram_gb_bits: self.vram_gb_bits,
            total_vram_gb_bits: self.total_vram_gb_bits,
            system_memory_gb_bits: self.system_memory_gb_bits,
            available_vram_gb_bits: self.available_vram_gb_bits,
            compute_capability: self.compute_capability@,
            gpu_name: opt_view(self.gpu_name),
            ip_address: self.ip_address,
            last_heartbeat_ms: self.last_heartbeat_ms,
            heartbeat_timeout_ms: self.heartbeat_timeout_ms,
            streaming_layers: self.streaming_layers,
            delivery_ratio_bits: self.delivery_ratio_bits,
            delivery_ratio_initialized: self.delivery_ratio_initialized,
            avg_latency_us_bits: self.avg_latency_us_bits,
            latency_samples: self.latency_samples,
        }
    }
}

/// Time elapsed since `since`, zero when `now` is earlier.
pub open spec fn elapsed(since: u64, now: u64) -> int {
    if now >= since { now - since } else { 0 }
}

/// Whether the node has been silent for at least its heartbeat timeout.
pub open spec fn timed_out(m: MetricsView, now: u64) -> bool {
    elapsed(m.last_heartbeat_ms, now) >= m.heartbeat_timeout_ms
}

fn copy_opt_string(o: &Option<String>) -> (r: Option<String>)
    ensures
        opt_view(r) == opt_view(*o),
{
    match o {
        Some(s) => Some(s.clone()),
        None => None,
    }
}

impl NodeMetrics {
    /// Metrics of a node that has just been seen: active, with all of its
    /// VRAM available, a full delivery ratio, no latency measured yet and
    /// the heartbeat clock started at `now_ms`.
    pub fn new(
        vram_gb_bits: u32,
        system_memory_gb_bits: u32,
        compute_capability: String,
        heartbeat_timeout_ms: u64,
        now_ms: u64,
    ) -> (m: NodeMetrics)
        ensures
            m@ == (MetricsView {
                name: Seq::empty(),
                status: NodeStatus::Active,
                vram_gb_bits,
                total_vram_gb_bits: vram_gb_bits,
                system_memory_gb_bits,
                available_vram_gb_bits: vram_gb_bits,
                compute_capability: compute_capability@,
                gpu_name: None,
                ip_address: None,
                last_heartbeat_ms: now_ms,
                heartbeat_timeout_ms,
                streaming_layers: None,
                delivery_ratio_bits: FULL_DELIVERY_RATIO_BITS,
                delivery_ratio_initialized: false,
                avg_latency_us_bits: 0,
                latency_samples: 0,
            }),
    {
        NodeMetrics {
            name: String::new(),
            status: NodeStatus::Active,
            vram_gb_bits,
            total_vram_gb_bits: vram_gb_bits,
            system_memory_gb_bits,
            available_vram_gb_bits: vram_gb_bits,
            compute_capability,
            gpu_name: None,
            ip_address: None,
            last_heartbeat_ms: now_ms,
            heartbeat_timeout_ms,
            streaming_layers: None,
            delivery_ratio_bits: FULL_DELIVERY_RATIO_BITS,
            delivery_ratio_initialized: false,
            avg_latency_us_bits: 0,
            latency_samples: 0,
        }
    }

    /// Record the layer range streaming on this node.
    pub fn set_streaming_layers(&mut self, start: usize, end: usize)
        ensures
            final(self)@ == (MetricsView { streaming_layers: Some((start, end)), ..old(self)@ }),
    {
        self.streaming_layers = Some((start, end));
    }

    /// Forget the layer range streaming on this node.
    pub fn clear_streaming_layers(&mut self)
        ensures
            final(self)@ == (MetricsView { streaming_layers: None, ..old(self)@ }),
    {
        self.streaming_layers = None;
    }

    /// Whether the node has been silent for at least its timeout at `now_ms`.
    pub fn has_timed_out(&self, now_ms: u64) -> (b: bool)
        ensures
            b == timed_out(self@, now_ms),
    {
        let elapsed = if now_ms >= self.last_heartbeat_ms { now_ms - self.last_heartbeat_ms } else { 0 };
        elapsed >= self.heartbeat_timeout_ms
    }

    /// A copy of these metrics.
    pub fn snapshot(&self) -> (m: NodeMetrics)
        ensures
            m@ == self@,
    {
        NodeMetrics {
            name: self.name.clone(),
            status: self.status,
            vram_gb_bits: self.vram_gb_bits,
            total_vram_gb_bits: self.total_vram_gb_bits,
            system_memory_gb_bits: self.system_memory_gb_bits,
            available_vram_gb_bits: self.available_vram_gb_bits,
            compute_capability: self.compute_capability.clone(),
            gpu_name: copy_opt_string(&self.gpu_name),
            ip_address: self.ip_address,
            last_heartbeat_ms: self.last_heartbeat_ms,
            heartbeat_timeout_ms: self.heartbeat_timeout_ms,
            streaming_layers: self.streaming_layers,
            delivery_ratio_bits: self.delivery_ratio_bits,
            delivery_ratio_initialized: self.delivery_ratio_initialized,
            avg_latency_us_bits: self.avg_latency_us_bits,
            latency_samples: self.latency_samples,
        }
    }
}

/// What the cluster knows of one node.
pub struct NodeRecord {
    pub node: NodeView,
    pub metrics: MetricsView,
}

/// Lexicographic order of byte strings, the order of `str` comparison.
pub open spec fn bytes_lt(a: Seq<u8>, b: Seq<u8>) -> bool
    decreases a.len(),
{
    if a.len() == 0 {
        b.len() > 0
    } else if b.len() == 0 {
        false
    } else if a[0] != b[0] {
        a[0] < b[0]
    } else {
        bytes_lt(a.drop_first(), b.drop_first())
    }
}

/// Order of node identifiers: that of their UTF-8 bytes.
pub open spec fn id_lt(a: Seq<char>, b: Seq<char>) -> bool {
    bytes_lt(encode_utf8(a), encode_utf8(b))
}

proof fn lemma_bytes_lt_irreflexive(a: Seq<u8>)
    ensures
        !bytes_lt(a, a),
    decreases a.len(),
{
    if a.len() > 0 {
        lemma_bytes_lt_irreflexive(a.drop_first());
    }
}

proof fn lemma_bytes_lt_transitive(a: Seq<u8>, b: Seq<u8>, c: Seq<u8>)
    requires
        bytes_lt(a, b),
        bytes_lt(b, c),
    ensures
        bytes_lt(a, c),
    decreases a.len(),
{
    if a.len() > 0 && b.len() > 0 && c.len() > 0 && a[0] == b[0] && b[0] == c[0] {
        lemma_bytes_lt_transitive(a.drop_first(), b.drop_first(), c.drop_first());
    }
}

proof fn lemma_bytes_lt_total(a: Seq<u8>, b: Seq<u8>)
    requires
        a != b,
    ensures
        bytes_lt(a, b) || bytes_lt(b, a),
    decreases a.len(),
{
    if a.len() > 0 && b.len() > 0 && a[0] == b[0] {
        if a.drop_first() == b.drop_first() {
            assert(a =~= seq![a[0]] + a.drop_first());
            assert(b =~= seq![b[0]] + b.drop_first());
        }
        lemma_bytes_lt_total(a.drop_first(), b.drop_first());
    } else if a.len() == 0 && b.len() == 0 {
        assert(a =~= b);
    }
}

/// Distinct identifiers are ordered one way or the other.
proof fn lemma_id_lt_total(a: Seq<char>, b: Seq<char>)
    requires
        a != b,
    ensures
        id_lt(a, b) || id_lt(b, a),
{
    if encode_utf8(a) == encode_utf8(b) {
        encode_utf8_decode_utf8(a);
        encode_utf8_decode_utf8(b);
    }
    lemma_bytes_lt_total(encode_utf8(a), encode_utf8(b));
}

fn bytes_less(a: &[u8], b: &[u8]) -> (r: bool)
    ensures
        r == bytes_lt(a@, b@),
{
    let mut i: usize = 0;
    proof {
        assert(a@.skip(0) =~= a@);
        assert(b@.skip(0) =~= b@);
    }
    while i < a.len() && i < b.len()
        invariant
            i <= a@.len(),
            i <= b@.len(),
            bytes_lt(a@, b@) == bytes_lt(a@.skip(i as int), b@.skip(i as int)),
        decreases a@.len() - i,
    {
        if a[i] != b[i] {
            return a[i] < b[i];
        }
        proof {
            assert(a@.skip(i as int).drop_first() =~= a@.skip(i as int + 1));
            assert(b@.skip(i as int).drop_first() =~= b@.skip(i as int + 1));
        }
        i += 1;
    }
    i < b.len()
}

fn id_less(a: &String, b: &String) -> (r: bool)
    ensures
        r == id_lt(a@, b@),
{
    bytes_less(a.as_str().as_bytes(), b.as_str().as_bytes())
}

/// The views are in strictly increasing identifier order.
#[verifier::opaque]
pub open spec fn ids_sorted(g: Seq<NodeView>) -> bool {
    forall|a: int, b: int| 0 <= a < b < g.len() ==> id_lt(#[trigger] g[a].id, #[trigger] g[b].id)
}

proof fn lemma_insert_keeps_sorted(g: Seq<NodeView>, pos: int, x: NodeView)
    requires
        ids_sorted(g),
        0 <= pos <= g.len(),
        forall|a: int| 0 <= a < pos ==> !id_lt(x.id, #[trigger] g[a].id),
        pos < g.len() ==> id_lt(x.id, g[pos].id),
        forall|a: int| 0 <= a < g.len() ==> (#[trigger] g[a]).id != x.id,
    ensures
        ids_sorted(g.insert(pos, x)),
{
    reveal(ids_sorted);
    let h = g.insert(pos, x);
    assert forall|a: int, b: int| 0 <= a < b < h.len() implies id_lt(#[trigger] h[a].id, #[trigger] h[b].id) by {
        if a < pos && b == pos {
            assert(!id_lt(x.id, g[a].id));
            assert(g[a].id != x.id);
            lemma_id_lt_total(x.id, g[a].id);
        } else if a == pos {
            assert(h[b] == g[b - 1]);
            if b - 1 > pos {
                assert(id_lt(g[pos].id, g[b - 1].id));
                lemma_bytes_lt_transitive(encode_utf8(x.id), encode_utf8(g[pos].id), encode_utf8(g[b - 1].id));
            }
        } else if a < pos && b > pos {
            assert(h[a] == g[a]);
            assert(h[b] == g[b - 1]);
        } else if b < pos {
            assert(h[a] == g[a]);
            assert(h[b] == g[b]);
        } else {
            assert(h[a] == g[a - 1]);
            assert(h[b] == g[b - 1]);
        }
    }
}

/// `src` maps each view in `g` to the record of `s` (among the first `i`)
/// it came from, and `dst` maps each of those records to its place in `g`.
pub open spec fn indexed_by(g: Seq<NodeView>, s: Seq<NodeRecord>, i: int, src: Seq<int>, dst: Seq<int>) -> bool {
    &&& src.len() == g.len()
    &&& dst.len() == i
    &&& forall|a: int| 0 <= a < g.len() ==> 0 <= #[trigger] src[a] < i && g[a] == s[src[a]].node
    &&& forall|j: int| 0 <= j < i ==> 0 <= #[trigger] dst[j] < g.len() && g[dst[j]] == s[j].node
}

/// Where the places of the records move when a view is inserted at `pos`
/// for record `i`.
pub open spec fn shifted(dst: Seq<int>, pos: int) -> Seq<int> {
    Seq::new(dst.len() + 1, |j: int| if j == dst.len() { pos } else if dst[j] >= pos { dst[j] + 1 } else { dst[j] })
}

proof fn lemma_fresh_id(g: Seq<NodeView>, s: Seq<NodeRecord>, i: int, src: Seq<int>, dst: Seq<int>)
    requires
        ids_unique(s),
        0 <= i < s.len(),
        indexed_by(g, s, i, src, dst),
    ensures
        forall|a: int| 0 <= a < g.len() ==> (#[trigger] g[a]).id != s[i].node.id,
{
    assert forall|a: int| 0 <= a < g.len() implies (#[trigger] g[a]).id != s[i].node.id by {
        let j = src[a];
        assert(s[j].node.id != s[i].node.id);
    }
}

proof fn lemma_insert_index(g: Seq<NodeView>, pos: int, s: Seq<NodeRecord>, i: int, src: Seq<int>, dst: Seq<int>)
    requires
        0 <= pos <= g.len(),
        0 <= i < s.len(),
        indexed_by(g, s, i, src, dst),
    ensures
        indexed_by(g.insert(pos, s[i].node), s, i + 1, src.insert(pos, i), shifted(dst, pos)),
{
    let h = g.insert(pos, s[i].node);
    let src2 = src.insert(pos, i);
    let dst2 = shifted(dst, pos);
    assert forall|a: int| 0 <= a < h.len() implies 0 <= #[trigger] src2[a] < i + 1 && h[a] == s[src2[a]].node by {
        if a < pos {
            assert(src2[a] == src[a]);
        } else if a > pos {
            assert(src2[a] == src[a - 1]);
        }
    }
    assert forall|j: int| 0 <= j < i + 1 implies 0 <= #[trigger] dst2[j] < h.len() && h[dst2[j]] == s[j].node by {
        if j < i {
            let d = dst[j];
            if d >= pos {
                assert(h[d + 1] == g[d]);
            } else {
                assert(h[d] == g[d]);
            }
        }
    }
}

/// The views of a sequence of node resources.
pub open spec fn views(v: Seq<NodeResources>) -> Seq<NodeView> {
    v.map_values(|r: NodeResources| r@)
}

fn insert_by_id(v: &mut Vec<NodeResources>, x: NodeResources) -> (pos: usize)
    requires
        ids_sorted(views(old(v)@)),
        forall|a: int| 0 <= a < old(v)@.len() ==> (#[trigger] old(v)@[a])@.id != x@.id,
    ensures
        pos <= old(v)@.len(),
        views(final(v)@) == views(old(v)@).insert(pos as int, x@),
        ids_sorted(views(final(v)@)),
{
    let ghost g = views(v@);
    let mut pos: usize = 0;
    while pos < v.len() && !id_less(&x.id, &v[pos].id)
        invariant
            pos <= v@.len(),
            g == views(v@),
            forall|a: int| 0 <= a < pos ==> !id_lt(x@.id, #[trigger] g[a].id),
        decreases v@.len() - pos,
    {
        pos += 1;
    }
    proof {
        assert forall|a: int| 0 <= a < g.len() implies (#[trigger] g[a]).id != x@.id by {
            assert(g[a] == v@[a]@);
        }
        lemma_insert_keeps_sorted(g, pos as int, x@);
    }
    let ghost old_v = v@;
    v.insert(pos, x);
    proof {
        assert(views(v@) =~= g.insert(pos as int, old_v.insert(pos as int, x)[pos as int]@)) by {
            assert(v@ =~= old_v.insert(pos as int, x));
        }
    }
    pos
}

/// No two records share a node identifier.
pub open spec fn ids_unique(s: Seq<NodeRecord>) -> bool {
    forall|i: int, j: int|
        0 <= i < s.len() && 0 <= j < s.len() && i != j
            ==> #[trigger] s[i].node.id != #[trigger] s[j].node.id
}

/// The records keyed by node identifier.
pub open spec fn record_map(s: Seq<NodeRecord>) -> Map<Seq<char>, NodeRecord> {
    Map::new(
        |k: Seq<char>| exists|i: int| 0 <= i < s.len() && s[i].node.id == k,
        |k: Seq<char>| s[choose|i: int| 0 <= i < s.len() && s[i].node.id == k],
    )
}

proof fn lemma_record_at(s: Seq<NodeRecord>, i: int)
    requires
        ids_unique(s),
        0 <= i < s.len(),
    ensures
        record_map(s).contains_key(s[i].node.id),
        record_map(s)[s[i].node.id] == s[i],
{
    let k = s[i].node.id;
    assert(record_map(s).contains_key(k));
    let j = choose|j: int| 0 <= j < s.len() && s[j].node.id == k;
    if j != i {
        assert(s[j].node.id != s[i].node.id);
    }
}

proof fn lemma_record_update(s: Seq<NodeRecord>, i: int, r: NodeRecord)
    requires
        ids_unique(s),
        0 <= i < s.len(),
        r.node.id == s[i].node.id,
    ensures
        ids_unique(s.update(i, r)),
        record_map(s.update(i, r)) == record_map(s).insert(r.node.id, r),
{
    let t = s.update(i, r);
    assert forall|a: int, b: int|
        0 <= a < t.len() && 0 <= b < t.len() && a != b implies #[trigger] t[a].node.id != #[trigger] t[b].node.id by {
        assert(s[a].node.id != s[b].node.id);
    }
    assert forall|k: Seq<char>| #[trigger] record_map(t).contains_key(k) <==> record_map(s).insert(r.node.id, r).contains_key(k) by {
        if record_map(s).contains_key(k) {
            let j = choose|j: int| 0 <= j < s.len() && s[j].node.id == k;
            if j == i {
                assert(t[i].node.id == k);
            } else {
                assert(t[j].node.id == k);
            }
        }
        if record_map(t).contains_key(k) {
            let j = choose|j: int| 0 <= j < t.len() && t[j].node.id == k;
            if j != i {
                assert(s[j].node.id == k);
            }
        }
        if k == r.node.id {
            assert(t[i].node.id == k);
        }
    }
    assert forall|k: Seq<char>| #[trigger] record_map(t).contains_key(k) implies record_map(t)[k] == record_map(s).insert(r.node.id, r)[k] by {
        let j = choose|j: int| 0 <= j < t.len() && t[j].node.id == k;
        lemma_record_at(t, j);
        if j != i {
            assert(s[j] == t[j]);
            lemma_record_at(s, j);
        }
    }
    assert(record_map(t) =~= record_map(s).insert(r.node.id, r));
}

proof fn lemma_record_push(s: Seq<NodeRecord>, r: NodeRecord)
    requires
        ids_unique(s),
        !record_map(s).contains_key(r.node.id),
    ensures
        ids_unique(s.push(r)),
        record_map(s.push(r)) == record_map(s).insert(r.node.id, r),
{
    let t = s.push(r);
    assert forall|a: int, b: int|
        0 <= a < t.len() && 0 <= b < t.len() && a != b implies #[trigger] t[a].node.id != #[trigger] t[b].node.id by {
        if a == s.len() {
            if t[b].node.id == r.node.id {
                assert(s[b].node.id == r.node.id);
            }
        } else if b == s.len() {
            if t[a].node.id == r.node.id {
                assert(s[a].node.id == r.node.id);
            }
        } else {
            assert(s[a].node.id != s[b].node.id);
        }
    }
    assert forall|k: Seq<char>| #[trigger] record_map(t).contains_key(k) <==> record_map(s).insert(r.node.id, r).contains_key(k) by {
        if record_map(s).contains_key(k) {
            let j = choose|j: int| 0 <= j < s.len() && s[j].node.id == k;
            assert(t[j].node.id == k);
        }
        if record_map(t).contains_key(k) {
            let j = choose|j: int| 0 <= j < t.len() && t[j].node.id == k;
            if j < s.len() {
                assert(s[j].node.id == k);
            }
        }
        if k == r.node.id {
            assert(t[s.len() as int].node.id == k);
        }
    }
    assert forall|k: Seq<char>| #[trigger] record_map(t).contains_key(k) implies record_map(t)[k] == record_map(s).insert(r.node.id, r)[k] by {
        let j = choose|j: int| 0 <= j < t.len() && t[j].node.id == k;
        lemma_record_at(t, j);
        if j < s.len() {
            assert(s[j] == t[j]);
            lemma_record_at(s, j);
        }
    }
    assert(record_map(t) =~= record_map(s).insert(r.node.id, r));
}

proof fn lemma_record_len(s: Seq<NodeRecord>)
    requires
        ids_unique(s),
    ensures
        record_map(s).dom().finite(),
        record_map(s).len() == s.len(),
    decreases s.len(),
{
    if s.len() == 0 {
        assert(record_map(s).dom() =~= Set::<Seq<char>>::empty());
    } else {
        let p = s.drop_last();
        let r = s.last();
        assert(ids_unique(p)) by {
            assert forall|a: int, b: int|
                0 <= a < p.len() && 0 <= b < p.len() && a != b implies #[trigger] p[a].node.id != #[trigger] p[b].node.id by {
                assert(s[a].node.id != s[b].node.id);
            }
        }
        lemma_record_len(p);
        if record_map(p).contains_key(r.node.id) {
            let j = choose|j: int| 0 <= j < p.len() && p[j].node.id == r.node.id;
            assert(s[j].node.id != s[s.len() - 1].node.id);
        }
        lemma_record_push(p, r);
        assert(p.push(r) =~= s);
        assert(record_map(s).dom() =~= record_map(p).dom().insert(r.node.id));
    }
}

/// Every record sits under its own node identifier, which is also the
/// name in its metrics.
pub open spec fn registry_consistent(m: Map<Seq<char>, NodeRecord>) -> bool {
    forall|k: Seq<char>| #[trigger] m.contains_key(k) ==> m[k].node.id == k && m[k].metrics.name == k
}

/// The record a registration of `n`, reached at `addr`, at `now` leaves,
/// given the record already held for its identifier, if any: a known node
/// keeps its status, heartbeat time, available VRAM, streaming range and
/// link measurements and its address unless a new one is given; a new
/// node starts active, with a full delivery ratio, no latency measured and
/// its heartbeat clock at `now`.
pub open spec fn registered(prev: Option<NodeRecord>, n: NodeView, addr: Option<SocketAddress>, now: u64) -> NodeRecord {
    match prev {
        Some(r) => NodeRecord {
            node: n,
            metrics: MetricsView {
                vram_gb_bits: n.vram_gb_bits,
                total_vram_gb_bits: n.vram_gb_bits,
                system_memory_gb_bits: n.system_memory_gb_bits,
                compute_capability: n.compute_capability,
                gpu_name: n.gpu_name,
                ip_address: if addr is Some { addr } else { r.metrics.ip_address },
                heartbeat_timeout_ms: HEARTBEAT_TIMEOUT_MS,
                ..r.metrics
            },
        },
        None => NodeRecord {
            node: n,
            metrics: MetricsView {
                name: n.id,
                status: NodeStatus::Active,
                vram_gb_bits: n.vram_gb_bits,
                total_vram_gb_bits: n.vram_gb_bits,
                system_memory_gb_bits: n.system_memory_gb_bits,
                available_vram_gb_bits: n.vram_gb_bits,
                compute_capability: n.compute_capability,
                gpu_name: n.gpu_name,
                ip_address: addr,
                last_heartbeat_ms: now,
                heartbeat_timeout_ms: HEARTBEAT_TIMEOUT_MS,
                streaming_layers: None,
                delivery_ratio_bits: FULL_DELIVERY_RATIO_BITS,
                delivery_ratio_initialized: false,
                avg_latency_us_bits: 0,
                latency_samples: 0,
            },
        },
    }
}

/// Whether node `k` of registry `m` is known and has been silent for at
/// least its heartbeat timeout at `now`.
pub open spec fn times_out(m: Map<Seq<char>, NodeRecord>, k: Seq<char>, now: u64) -> bool {
    m.contains_key(k) && timed_out(m[k].metrics, now)
}

/// `m` with the status of `k` set to `status`; unchanged when `k` is unknown.
pub open spec fn with_status(m: Map<Seq<char>, NodeRecord>, k: Seq<char>, status: NodeStatus) -> Map<Seq<char>, NodeRecord> {
    if m.contains_key(k) {
        m.insert(k, NodeRecord { metrics: MetricsView { status, ..m[k].metrics }, ..m[k] })
    } else {
        m
    }
}

/// `m` with the heartbeat of `k` taken at `now`; unchanged when `k` is unknown.
pub open spec fn with_heartbeat(m: Map<Seq<char>, NodeRecord>, k: Seq<char>, now: u64) -> Map<Seq<char>, NodeRecord> {
    if m.contains_key(k) {
        m.insert(k, NodeRecord { metrics: MetricsView { last_heartbeat_ms: now, ..m[k].metrics }, ..m[k] })
    } else {
        m
    }
}

/// `m` with the metrics of `k` replaced by `metrics`, which keep `k` as
/// their name; unchanged when `k` is unknown.
pub open spec fn metrics_replaced(m: Map<Seq<char>, NodeRecord>, k: Seq<char>, metrics: MetricsView) -> Map<Seq<char>, NodeRecord> {
    if m.contains_key(k) {
        m.insert(k, NodeRecord { metrics: MetricsView { name: k, ..metrics }, ..m[k] })
    } else {
        m
    }
}

/// `r` with its status set to failed.
pub open spec fn failed(r: NodeRecord) -> NodeRecord {
    NodeRecord { metrics: MetricsView { status: NodeStatus::Failed, ..r.metrics }, ..r }
}

/// Whether a sweep at `now` fails node `r`: it has been silent for its
/// timeout and, when `only_active` holds, is still active.
pub open spec fn sweeps(r: NodeRecord, now: u64, only_active: bool) -> bool {
    timed_out(r.metrics, now) && (!only_active || r.metrics.status == NodeStatus::Active)
}

/// The registry after a sweep at `now`.
pub open spec fn swept(m: Map<Seq<char>, NodeRecord>, now: u64, only_active: bool) -> Map<Seq<char>, NodeRecord> {
    Map::new(|k: Seq<char>| m.contains_key(k), |k: Seq<char>| if sweeps(m[k], now, only_active) { failed(m[k]) } else { m[k] })
}

/// The identifiers a sweep at `now` fails.
pub open spec fn swept_ids(m: Map<Seq<char>, NodeRecord>, now: u64, only_active: bool) -> Set<Seq<char>> {
    m.dom().filter(|k: Seq<char>| sweeps(m[k], now, only_active))
}

/// The identifiers are in strictly increasing order.
pub open spec fn ascending(ids: Seq<Seq<char>>) -> bool {
    forall|a: int, b: int| 0 <= a < b < ids.len() ==> id_lt(#[trigger] ids[a], #[trigger] ids[b])
}

proof fn lemma_filter_ascending(ids: Seq<Seq<char>>, p: spec_fn(Seq<char>) -> bool)
    requires
        ascending(ids),
    ensures
        ascending(ids.filter(p)),
    decreases ids.len(),
{
    reveal(Seq::filter);
    if ids.len() > 0 {
        let q = ids.drop_last();
        assert(ascending(q)) by {
            assert forall|a: int, b: int| 0 <= a < b < q.len() implies id_lt(#[trigger] q[a], #[trigger] q[b]) by {
                assert(q[a] == ids[a] && q[b] == ids[b]);
            }
        }
        lemma_filter_ascending(q, p);
        let f = q.filter(p);
        if p(ids.last()) {
            let h = f.push(ids.last());
            assert forall|a: int, b: int| 0 <= a < b < h.len() implies id_lt(#[trigger] h[a], #[trigger] h[b]) by {
                if b == f.len() {
                    assert(f.contains(f[a]));
                    q.lemma_filter_contains_rev(p, f[a]);
                    let j = choose|j: int| 0 <= j < q.len() && q[j] == f[a];
                    assert(ids[j] == f[a]);
                    assert(id_lt(ids[j], ids[ids.len() - 1]));
                }
            }
        }
    }
}

proof fn lemma_record_map_pointwise(s: Seq<NodeRecord>, t: Seq<NodeRecord>, now: u64, only_active: bool)
    requires
        ids_unique(s),
        t.len() == s.len(),
        forall|j: int| 0 <= j < s.len() ==> #[trigger] t[j] == (if sweeps(s[j], now, only_active) { failed(s[j]) } else { s[j] }),
    ensures
        ids_unique(t),
        record_map(t) == swept(record_map(s), now, only_active),
{
    assert forall|a: int, b: int| 0 <= a < t.len() && 0 <= b < t.len() && a != b implies #[trigger] t[a].node.id != #[trigger] t[b].node.id by {
        assert(t[a].node.id == s[a].node.id);
        assert(t[b].node.id == s[b].node.id);
    }
    let m = swept(record_map(s), now, only_active);
    assert forall|k: Seq<char>| #[trigger] record_map(t).contains_key(k) <==> m.contains_key(k) by {
        if record_map(t).contains_key(k) {
            let j = choose|j: int| 0 <= j < t.len() && t[j].node.id == k;
            assert(s[j].node.id == k);
        }
        if record_map(s).contains_key(k) {
            let j = choose|j: int| 0 <= j < s.len() && s[j].node.id == k;
            assert(t[j].node.id == k);
        }
    }
    assert forall|k: Seq<char>| #[trigger] record_map(t).contains_key(k) implies record_map(t)[k] == m[k] by {
        let j = choose|j: int| 0 <= j < t.len() && t[j].node.id == k;
        lemma_record_at(t, j);
        lemma_record_at(s, j);
    }
    assert(record_map(t) =~= m);
}

/// The identifiers of the active nodes.
pub open spec fn active_ids(m: Map<Seq<char>, NodeRecord>) -> Set<Seq<char>> {
    m.dom().filter(|k: Seq<char>| m[k].metrics.status == NodeStatus::Active)
}

/// Number of active records.
pub open spec fn count_active(s: Seq<NodeRecord>) -> nat
    decreases s.len(),
{
    if s.len() == 0 {
        0
    } else {
        count_active(s.drop_last()) + if s.last().metrics.status == NodeStatus::Active { 1nat } else { 0nat }
    }
}

proof fn lemma_count_active(s: Seq<NodeRecord>)
    requires
        ids_unique(s),
    ensures
        active_ids(record_map(s)).finite(),
        active_ids(record_map(s)).len() == count_active(s),
    decreases s.len(),
{
    if s.len() == 0 {
        assert(active_ids(record_map(s)) =~= Set::<Seq<char>>::empty());
    } else {
        let p = s.drop_last();
        let r = s.last();
        assert(ids_unique(p)) by {
            assert forall|a: int, b: int|
                0 <= a < p.len() && 0 <= b < p.len() && a != b implies #[trigger] p[a].node.id != #[trigger] p[b].node.id by {
                assert(s[a].node.id != s[b].node.id);
            }
        }
        lemma_count_active(p);
        if record_map(p).contains_key(r.node.id) {
            let j = choose|j: int| 0 <= j < p.len() && p[j].node.id == r.node.id;
            assert(s[j].node.id != s[s.len() - 1].node.id);
        }
        lemma_record_push(p, r);
        assert(p.push(r) =~= s);
        let m = record_map(p);
        if r.metrics.status == NodeStatus::Active {
            assert(active_ids(record_map(s)) =~= active_ids(m).insert(r.node.id));
        } else {
            assert(active_ids(record_map(s)) =~= active_ids(m));
        }
    }
}

fn copy_resources(n: &NodeResources) -> (r: NodeResources)
    ensures
        r@ == n@,
{
    NodeResources {
        id: n.id.clone(),
        vram_gb_bits: n.vram_gb_bits,
        system_memory_gb_bits: n.system_memory_gb_bits,
        compute_capability: n.compute_capability.clone(),
        gpu_name: copy_opt_string(&n.gpu_name),
        rpc_port: n.rpc_port,
    }
}

#[derive(Debug)]
struct NodeEntry {
    resources: NodeResources,
    metrics: NodeMetrics,
}

/// The registry of the nodes of the cluster, keyed by node identifier.
#[derive(Debug)]
pub struct ClusterState {
    entries: Vec<NodeEntry>,
    clock: std::time::Instant,
}

impl View for ClusterState {
    type V = Map<Seq<char>, NodeRecord>;

    closed spec fn view(&self) -> Map<Seq<char>, NodeRecord> {
        record_map(self.records())
    }
}

impl ClusterState {
    closed spec fn records(&self) -> Seq<NodeRecord> {
        Seq::new(
            self.entries@.len(),
            |i: int| NodeRecord { node: self.entries@[i].resources@, metrics: self.entries@[i].metrics@ },
        )
    }

    /// Each identifier is held once, and each record's metrics carry its
    /// identifier as name.
    pub closed spec fn wf(&self) -> bool {
        &&& ids_unique(self.records())
        &&& forall|i: int| 0 <= i < self.entries@.len() ==> (#[trigger] self.entries@[i]).metrics.name@ == self.entries@[i].resources.id@
    }

    /// A well-formed registry is consistent.
    pub proof fn lemma_consistent(&self)
        requires
            self.wf(),
        ensures
            registry_consistent(self@),
            self@.dom().finite(),
    {
        let s = self.records();
        assert forall|k: Seq<char>| #[trigger] self@.contains_key(k) implies self@[k].node.id == k && self@[k].metrics.name == k by {
            let j = choose|j: int| 0 <= j < s.len() && s[j].node.id == k;
            lemma_record_at(s, j);
            assert(self.entries@[j].metrics.name@ == self.entries@[j].resources.id@);
        }
        lemma_record_len(s);
    }

    /// Milliseconds on the registry's monotonic clock.
    pub(crate) fn clock_ms(&self) -> u64 {
        elapsed_millis(&self.clock)
    }

    /// An empty registry.
    pub fn new() -> (c: ClusterState)
        ensures
            c.wf(),
            c@ == Map::<Seq<char>, NodeRecord>::empty(),
    {
        let c = ClusterState { entries: Vec::new(), clock: instant_now() };
        proof {
            assert(c@ =~= Map::<Seq<char>, NodeRecord>::empty());
        }
        c
    }

    fn find(&self, id: &str) -> (r: Option<usize>)
        requires
            self.wf(),
        ensures
            r matches Some(i) ==> i < self.entries@.len() && self.entries@[i as int].resources.id@ == id@
                && self@.contains_key(id@) && self@[id@] == self.records()[i as int],
            r is None ==> !self@.contains_key(id@),
    {
        let key = id.to_owned();
        let mut i: usize = 0;
        while i < self.entries.len()
            invariant
                self.wf(),
                i <= self.entries@.len(),
                key@ == id@,
                forall|j: int| 0 <= j < i ==> self.entries@[j].resources.id@ != key@,
            decreases self.entries@.len() - i,
        {
            if self.entries[i].resources.id == key {
                proof {
                    lemma_record_at(self.records(), i as int);
                }
                return Some(i);
            }
            i += 1;
        }
        proof {
            if self@.contains_key(id@) {
                let j = choose|j: int| 0 <= j < self.records().len() && self.records()[j].node.id == id@;
                assert(self.entries@[j].resources.id@ != key@);
            }
        }
        None
    }

    /// Register `node`, reached at `addr` when given, at time `now_ms`,
    /// replacing what was advertised under its identifier before (see
    /// [`registered`]).
    pub fn register_with_addr_at(&mut self, node: NodeResources, addr: Option<SocketAddress>, now_ms: u64)
        requires
            old(self).wf(),
        ensures
            final(self).wf(),
            final(self)@ == old(self)@.insert(node@.id, registered(old(self)@.get(node@.id), node@, addr, now_ms)),
    {
        let ghost old_records = self.records();
        let ghost nv = node@;
        let vram = node.vram_gb_bits;
        let sysmem = node.system_memory_gb_bits;
        match self.find(node.id.as_str()) {
            Some(i) => {
                let cc = node.compute_capability.clone();
                let gpu = copy_opt_string(&node.gpu_name);
                let entry = &mut self.entries[i];
                entry.resources = node;
                entry.metrics.vram_gb_bits = vram;
                entry.metrics.total_vram_gb_bits = vram;
                entry.metrics.system_memory_gb_bits = sysmem;
                entry.metrics.compute_capability = cc;
                entry.metrics.gpu_name = gpu;
                entry.metrics.heartbeat_timeout_ms = HEARTBEAT_TIMEOUT_MS;
                if addr.is_some() {
                    entry.metrics.ip_address = addr;
                }
                proof {
                    let r = registered(Some(old_records[i as int]), nv, addr, now_ms);
                    lemma_record_update(old_records, i as int, r);
                    assert(self.records() =~= old_records.update(i as int, r));
                }
            },
            None => {
                let mut metrics = NodeMetrics::new(vram, sysmem, node.compute_capability.clone(), HEARTBEAT_TIMEOUT_MS, now_ms);
                metrics.name = node.id.clone();
                metrics.gpu_name = copy_opt_string(&node.gpu_name);
                metrics.ip_address = addr;
                self.entries.push(NodeEntry { resources: node, metrics });
                proof {
                    let r = registered(None, nv, addr, now_ms);
                    lemma_record_push(old_records, r);
                    assert(self.records() =~= old_records.push(r));
                }
            },
        }
    }

    /// Register `node`, reached at `addr` when given, at the time the
    /// registry's clock reads.
    pub fn register_with_addr(&mut self, node: NodeResources, addr: Option<SocketAddress>)
        requires
            old(self).wf(),
        ensures
            final(self).wf(),
            exists|now: u64| final(self)@ == old(self)@.insert(node@.id, registered(old(self)@.get(node@.id), node@, addr, now)),
    {
        let now = elapsed_millis(&self.clock);
        self.register_with_addr_at(node, addr, now);
    }

    /// Register `node` at time `now_ms`, with no address.
    pub fn register_at(&mut self, node: NodeResources, now_ms: u64)
        requires
            old(self).wf(),
        ensures
            final(self).wf(),
            final(self)@ == old(self)@.insert(node@.id, registered(old(self)@.get(node@.id), node@, None, now_ms)),
    {
        self.register_with_addr_at(node, None, now_ms);
    }

    /// Register `node` now, with no address.
    pub fn register(&mut self, node: NodeResources)
        requires
            old(self).wf(),
        ensures
            final(self).wf(),
            exists|now: u64| final(self)@ == old(self)@.insert(node@.id, registered(old(self)@.get(node@.id), node@, None, now)),
    {
        self.register_with_addr(node, None);
    }

    /// Number of registered nodes.
    pub fn node_count(&self) -> (n: usize)
        requires
            self.wf(),
        ensures
            n == self@.len(),
    {
        proof {
            lemma_record_len(self.records());
        }
        self.entries.len()
    }

    /// The metrics of node `id`.
    pub fn get_metrics(&self, id: &str) -> (r: Option<NodeMetrics>)
        requires
            self.wf(),
        ensures
            match r {
                Some(m) => self@.contains_key(id@) && m@ == self@[id@].metrics,
                None => !self@.contains_key(id@),
            },
    {
        match self.find(id) {
            Some(i) => Some(self.entries[i].metrics.snapshot()),
            None => None,
        }
    }

    fn set_status_at(&mut self, i: usize, status: NodeStatus)
        requires
            old(self).wf(),
            i < old(self).entries@.len(),
        ensures
            final(self).wf(),
            final(self)@ == with_status(old(self)@, old(self).entries@[i as int].resources.id@, status),
    {
        let ghost old_records = self.records();
        proof {
            lemma_record_at(old_records, i as int);
        }
        self.entries[i].metrics.status = status;
        proof {
            let r = NodeRecord { metrics: MetricsView { status, ..old_records[i as int].metrics }, ..old_records[i as int] };
            lemma_record_update(old_records, i as int, r);
            assert(self.records() =~= old_records.update(i as int, r));
        }
    }

    /// Take a heartbeat of node `id` at `now_ms`.
    pub fn update_heartbeat_at(&mut self, id: &str, now_ms: u64)
        requires
            old(self).wf(),
        ensures
            final(self).wf(),
            final(self)@ == with_heartbeat(old(self)@, id@, now_ms),
    {
        if let Some(i) = self.find(id) {
            let ghost old_records = self.records();
            self.entries[i].metrics.last_heartbeat_ms = now_ms;
            proof {
                let r = NodeRecord { metrics: MetricsView { last_heartbeat_ms: now_ms, ..old_records[i as int].metrics }, ..old_records[i as int] };
                lemma_record_update(old_records, i as int, r);
                assert(self.records() =~= old_records.update(i as int, r));
            }
        }
    }

    /// Replace the metrics of node `id` by `metrics` (their name becomes
    /// `id`); nothing changes for an unknown node. Reading the metrics with
    /// [`ClusterState::get_metrics`], changing them and writing them back
    /// here updates them in place.
    pub fn set_metrics(&mut self, id: &str, metrics: NodeMetrics)
        requires
            old(self).wf(),
        ensures
            final(self).wf(),
            final(self)@ == metrics_replaced(old(self)@, id@, metrics@),
    {
        if let Some(i) = self.find(id) {
            let ghost old_records = self.records();
            let mut m = metrics;
            m.name = self.entries[i].resources.id.clone();
            self.entries[i].metrics = m;
            proof {
                let r = NodeRecord { metrics: MetricsView { name: id@, ..metrics@ }, ..old_records[i as int] };
                lemma_record_update(old_records, i as int, r);
                assert(self.records() =~= old_records.update(i as int, r));
            }
        }
    }

    /// Take a heartbeat of node `id` at the time the registry's clock reads.
    pub fn update_heartbeat(&mut self, id: &str)
        requires
            old(self).wf(),
        ensures
            final(self).wf(),
            exists|now: u64| final(self)@ == with_heartbeat(old(self)@, id@, now),
    {
        let now = elapsed_millis(&self.clock);
        self.update_heartbeat_at(id, now);
    }

    /// Whether node `id` is known and has been silent for at least its
    /// heartbeat timeout at `now_ms`.
    pub fn check_heartbeat_timeout_at(&self, id: &str, now_ms: u64) -> (b: bool)
        requires
            self.wf(),
        ensures
            b == (self@.contains_key(id@) && timed_out(self@[id@].metrics, now_ms)),
    {
        match self.find(id) {
            Some(i) => self.entries[i].metrics.has_timed_out(now_ms),
            None => false,
        }
    }

    /// Whether node `id` is known and has been silent for at least its
    /// heartbeat timeout when the registry's clock is read. The answer for a
    /// known node depends on the clock; an unknown node never times out.
    pub fn check_heartbeat_timeout(&self, id: &str) -> (b: bool)
        requires
            self.wf(),
        ensures
            !self@.contains_key(id@) ==> !b,
            exists|now: u64| b == #[trigger] times_out(self@, id@, now),
    {
        let now = elapsed_millis(&self.clock);
        let b = self.check_heartbeat_timeout_at(id, now);
        proof {
            assert(b == times_out(self@, id@, now));
        }
        b
    }

    /// Mark node `id` as failed.
    pub fn mark_failed(&mut self, id: &str)
        requires
            old(self).wf(),
        ensures
            final(self).wf(),
            final(self)@ == with_status(old(self)@, id@, NodeStatus::Failed),
    {
        if let Some(i) = self.find(id) {
            self.set_status_at(i, NodeStatus::Failed);
        }
    }

    /// Bring node `id` back to the active status.
    pub fn recover_node(&mut self, id: &str)
        requires
            old(self).wf(),
        ensures
            final(self).wf(),
            final(self)@ == with_status(old(self)@, id@, NodeStatus::Active),
    {
        if let Some(i) = self.find(id) {
            self.set_status_at(i, NodeStatus::Active);
        }
    }

    /// Number of active nodes.
    pub fn active_nodes_count(&self) -> (n: usize)
        requires
            self.wf(),
        ensures
            n == active_ids(self@).len(),
    {
        let ghost s = self.records();
        let mut n: usize = 0;
        let mut i: usize = 0;
        while i < self.entries.len()
            invariant
                s == self.records(),
                i <= self.entries@.len(),
                n == count_active(s.take(i as int)),
                n <= i,
            decreases self.entries@.len() - i,
        {
            proof {
                assert(s.take(i as int + 1).drop_last() =~= s.take(i as int));
            }
            if self.entries[i].metrics.status == NodeStatus::Active {
                n += 1;
            }
            i += 1;
        }
        proof {
            assert(s.take(i as int) =~= s);
            lemma_count_active(s);
        }
        n
    }

    /// The metrics of the active nodes, each once.
    pub fn active_nodes(&self) -> (v: Vec<NodeMetrics>)
        requires
            self.wf(),
        ensures
            forall|i: int| 0 <= i < v@.len() ==> active_ids(self@).contains((#[trigger] v@[i])@.name)
                && v@[i]@ == self@[v@[i]@.name].metrics,
            forall|k: Seq<char>| #[trigger] active_ids(self@).contains(k) ==> exists|i: int| 0 <= i < v@.len() && v@[i]@.name == k,
            forall|i: int, j: int| 0 <= i < j < v@.len() ==> (#[trigger] v@[i])@.name != (#[trigger] v@[j])@.name,
    {
        let ghost s = self.records();
        let ghost mut idx: Seq<int> = Seq::empty();
        let mut v: Vec<NodeMetrics> = Vec::new();
        let mut i: usize = 0;
        while i < self.entries.len()
            invariant
                self.wf(),
                s == self.records(),
                i <= self.entries@.len(),
                idx.len() == v@.len(),
                forall|a: int| 0 <= a < idx.len() ==> 0 <= #[trigger] idx[a] < i && v@[a]@ == s[idx[a]].metrics
                    && s[idx[a]].metrics.status == NodeStatus::Active,
                forall|a: int, b: int| 0 <= a < b < idx.len() ==> #[trigger] idx[a] < #[trigger] idx[b],
                forall|j: int| 0 <= j < i && (#[trigger] s[j]).metrics.status == NodeStatus::Active
                    ==> exists|a: int| 0 <= a < idx.len() && idx[a] == j,
            decreases self.entries@.len() - i,
        {
            let ghost old_idx = idx;
            if self.entries[i].metrics.status == NodeStatus::Active {
                let m = self.entries[i].metrics.snapshot();
                v.push(m);
                proof {
                    idx = idx.push(i as int);
                    assert(idx[idx.len() - 1] == i as int);
                }
            }
            proof {
                assert forall|j: int| 0 <= j < i + 1 && (#[trigger] s[j]).metrics.status == NodeStatus::Active
                    implies exists|a: int| 0 <= a < idx.len() && idx[a] == j by {
                    if j < i {
                        let a = choose|a: int| 0 <= a < old_idx.len() && old_idx[a] == j;
                        assert(idx[a] == j);
                    } else {
                        assert(idx[idx.len() - 1] == j);
                    }
                }
            }
            i += 1;
        }
        proof {
            assert forall|a: int| 0 <= a < v@.len() implies active_ids(self@).contains((#[trigger] v@[a])@.name)
                && v@[a]@ == self@[v@[a]@.name].metrics by {
                let j = idx[a];
                lemma_record_at(s, j);
                assert(self.entries@[j].metrics.name@ == self.entries@[j].resources.id@);
            }
            assert forall|k: Seq<char>| #[trigger] active_ids(self@).contains(k) implies exists|a: int| 0 <= a < v@.len() && v@[a]@.name == k by {
                let j = choose|j: int| 0 <= j < s.len() && s[j].node.id == k;
                lemma_record_at(s, j);
                assert(s[j].metrics.status == NodeStatus::Active);
                let a = choose|a: int| 0 <= a < idx.len() && idx[a] == j;
                assert(self.entries@[j].metrics.name@ == self.entries@[j].resources.id@);
                assert(v@[a]@.name == k);
            }
            assert forall|a: int, b: int| 0 <= a < b < v@.len() implies (#[trigger] v@[a])@.name != (#[trigger] v@[b])@.name by {
                let ja = idx[a];
                let jb = idx[b];
                assert(ja < jb);
                assert(self.entries@[ja].metrics.name@ == self.entries@[ja].resources.id@);
                assert(self.entries@[jb].metrics.name@ == self.entries@[jb].resources.id@);
                assert(s[ja].node.id != s[jb].node.id);
            }
        }
        v
    }

    /// The advertised resources of every node, ordered by identifier.
    pub fn nodes(&self) -> (v: Vec<NodeResources>)
        requires
            self.wf(),
        ensures
            v@.len() == self@.len(),
            forall|i: int| 0 <= i < v@.len() ==> self@.contains_key((#[trigger] v@[i])@.id)
                && v@[i]@ == self@[v@[i]@.id].node,
            forall|k: Seq<char>| #[trigger] self@.contains_key(k) ==> exists|i: int| 0 <= i < v@.len() && v@[i]@.id == k,
            forall|i: int, j: int| 0 <= i < j < v@.len() ==> id_lt((#[trigger] v@[i])@.id, (#[trigger] v@[j])@.id),
    {
        let ghost s = self.records();
        let ghost mut g: Seq<NodeView> = Seq::empty();
        let ghost mut src: Seq<int> = Seq::empty();
        let ghost mut dst: Seq<int> = Seq::empty();
        let mut v: Vec<NodeResources> = Vec::new();
        let mut i: usize = 0;
        proof {
            assert(views(v@) =~= g);
            reveal(ids_sorted);
        }
        while i < self.entries.len()
            invariant
                ids_unique(s),
                s.len() == self.entries@.len(),
                forall|j: int| 0 <= j < s.len() ==> #[trigger] s[j].node == self.entries@[j].resources@,
                i <= self.entries@.len(),
                views(v@) == g,
                g.len() == i,
                ids_sorted(g),
                indexed_by(g, s, i as int, src, dst),
            decreases self.entries@.len() - i,
        {
            let x = copy_resources(&self.entries[i].resources);
            proof {
                assert(x@ == s[i as int].node);
                lemma_fresh_id(g, s, i as int, src, dst);
                assert forall|a: int| 0 <= a < v@.len() implies (#[trigger] v@[a])@.id != x@.id by {
                    assert(g[a] == views(v@)[a]);
                }
            }
            let pos = insert_by_id(&mut v, x);
            proof {
                lemma_insert_index(g, pos as int, s, i as int, src, dst);
                g = g.insert(pos as int, s[i as int].node);
                src = src.insert(pos as int, i as int);
                dst = shifted(dst, pos as int);
            }
            i += 1;
        }
        proof {
            lemma_record_len(s);
            assert(s == self.records()) by {
                assert(s =~= self.records());
            }
            assert forall|a: int| 0 <= a < v@.len() implies self@.contains_key((#[trigger] v@[a])@.id)
                && v@[a]@ == self@[v@[a]@.id].node by {
                assert(g[a] == v@[a]@);
                lemma_record_at(s, src[a]);
            }
            assert forall|k: Seq<char>| #[trigger] self@.contains_key(k) implies exists|a: int| 0 <= a < v@.len() && v@[a]@.id == k by {
                let j = choose|j: int| 0 <= j < s.len() && s[j].node.id == k;
                let a = dst[j];
                assert(g[a] == v@[a]@);
            }
            reveal(ids_sorted);
            assert forall|a: int, b: int| 0 <= a < b < v@.len() implies id_lt((#[trigger] v@[a])@.id, (#[trigger] v@[b])@.id) by {
                assert(g[a] == v@[a]@);
                assert(g[b] == v@[b]@);
                assert(id_lt(g[a].id, g[b].id));
            }
        }
        v
    }

    /// Fail every node that a sweep at `now_ms` fails (see [`sweeps`]).
    pub fn sweep_at(&mut self, now_ms: u64, only_active: bool)
        requires
            old(self).wf(),
        ensures
            final(self).wf(),
            final(self)@ == swept(old(self)@, now_ms, only_active),
    {
        let ghost s = self.records();
        let mut i: usize = 0;
        while i < self.entries.len()
            invariant
                ids_unique(s),
                i <= self.entries@.len(),
                self.entries@.len() == s.len(),
                forall|j: int| 0 <= j < s.len() ==> (#[trigger] self.entries@[j]).metrics.name@ == self.entries@[j].resources.id@,
                forall|j: int| 0 <= j < s.len() ==> #[trigger] self.records()[j]
                    == (if j < i && sweeps(s[j], now_ms, only_active) { failed(s[j]) } else { s[j] }),
            decreases self.entries@.len() - i,
        {
            let ghost before = self.records();
            proof {
                assert(before[i as int] == s[i as int]);
            }
            let timed = self.entries[i].metrics.has_timed_out(now_ms);
            if timed && (!only_active || self.entries[i].metrics.status == NodeStatus::Active) {
                self.entries[i].metrics.status = NodeStatus::Failed;
                proof {
                    assert(self.records() =~= before.update(i as int, failed(s[i as int])));
                }
            }
            i += 1;
        }
        proof {
            lemma_record_map_pointwise(s, self.records(), now_ms, only_active);
        }
    }

    /// The identifiers of the nodes a sweep at `now_ms` would fail, in
    /// increasing order.
    pub fn sweep_candidates(&self, now_ms: u64, only_active: bool) -> (r: Vec<String>)
        requires
            self.wf(),
        ensures
            forall|a: int| 0 <= a < r@.len() ==> swept_ids(self@, now_ms, only_active).contains((#[trigger] r@[a])@),
            forall|k: Seq<char>| #[trigger] swept_ids(self@, now_ms, only_active).contains(k)
                ==> exists|a: int| 0 <= a < r@.len() && r@[a]@ == k,
            ascending(r@.map_values(|x: String| x@)),
    {
        let snapshot = self.nodes();
        let ghost ids = snapshot@.map_values(|n: NodeResources| n@.id);
        let ghost p = |k: Seq<char>| sweeps(self@[k], now_ms, only_active);
        let mut r: Vec<String> = Vec::new();
        let mut a: usize = 0;
        proof {
            assert(r@.map_values(|x: String| x@) =~= ids.take(0).filter(p));
        }
        while a < snapshot.len()
            invariant
                self.wf(),
                a <= snapshot@.len(),
                ids == snapshot@.map_values(|n: NodeResources| n@.id),
                p == (|k: Seq<char>| sweeps(self@[k], now_ms, only_active)),
                forall|b: int| 0 <= b < snapshot@.len() ==> self@.contains_key((#[trigger] snapshot@[b])@.id),
                r@.map_values(|x: String| x@) == ids.take(a as int).filter(p),
            decreases snapshot@.len() - a,
        {
            proof {
                reveal(Seq::filter);
                assert(ids.take(a as int + 1).drop_last() =~= ids.take(a as int));
                assert(ids.take(a as int + 1).last() == snapshot@[a as int]@.id);
            }
            let hit = match self.find(snapshot[a].id.as_str()) {
                Some(i) => {
                    let m = &self.entries[i].metrics;
                    m.has_timed_out(now_ms) && (!only_active || m.status == NodeStatus::Active)
                },
                None => false,
            };
            if hit {
                let ghost before = r@;
                r.push(snapshot[a].id.clone());
                proof {
                    assert(r@.map_values(|x: String| x@) =~= before.map_values(|x: String| x@).push(snapshot@[a as int]@.id));
                }
            }
            a += 1;
        }
        proof {
            assert(ids.take(a as int) =~= ids);
            let f = ids.filter(p);
            assert(ascending(ids)) by {
                assert forall|x: int, y: int| 0 <= x < y < ids.len() implies id_lt(#[trigger] ids[x], #[trigger] ids[y]) by {
                    assert(id_lt(snapshot@[x]@.id, snapshot@[y]@.id));
                }
            }
            lemma_filter_ascending(ids, p);
            assert forall|x: int| 0 <= x < r@.len() implies swept_ids(self@, now_ms, only_active).contains((#[trigger] r@[x])@) by {
                assert(f[x] == r@[x]@);
                ids.lemma_filter_pred(p, x);
                assert(f.contains(f[x]));
                ids.lemma_filter_contains_rev(p, f[x]);
                let b = choose|b: int| 0 <= b < ids.len() && ids[b] == f[x];
                assert(self@.contains_key(snapshot@[b]@.id));
            }
            assert forall|k: Seq<char>| #[trigger] swept_ids(self@, now_ms, only_active).contains(k)
                implies exists|x: int| 0 <= x < r@.len() && r@[x]@ == k by {
                let b = choose|b: int| 0 <= b < snapshot@.len() && snapshot@[b]@.id == k;
                assert(ids[b] == k);
                ids.lemma_filter_contains(p, b);
                let x = choose|x: int| 0 <= x < f.len() && f[x] == k;
                assert(r@[x]@ == f[x]);
            }
        }
        r
    }
}

impl Default for ClusterState {
    fn default() -> (c: ClusterState)
        ensures
            c.wf(),
            c@ == Map::<Seq<char>, NodeRecord>::empty(),
    {
        ClusterState::new()
    }
}

/// The registry after node `id` is recovered at `now`: active again, with
/// its heartbeat clock restarted.
pub open spec fn recovered(m: Map<Seq<char>, NodeRecord>, id: Seq<char>, now: u64) -> Map<Seq<char>, NodeRecord> {
    with_heartbeat(with_status(m, id, NodeStatus::Active), id, now)
}

/// A sweep changes nothing when repeated at the same time, and after a
/// sweep of the active nodes no active node is left for it to fail.
pub proof fn lemma_sweep_is_idempotent(m: Map<Seq<char>, NodeRecord>, now: u64, only_active: bool)
    ensures
        swept(swept(m, now, only_active), now, only_active) == swept(m, now, only_active),
        swept_ids(swept(m, now, true), now, true) == Set::<Seq<char>>::empty(),
{
    let m1 = swept(m, now, only_active);
    assert(swept(m1, now, only_active) =~= m1);
    let m2 = swept(m, now, true);
    assert(swept_ids(m2, now, true) =~= Set::<Seq<char>>::empty());
}

/// A node recovered at `t` is not reported by failure detection before
/// its heartbeat timeout has passed again.
pub proof fn lemma_recovered_node_is_not_detected(m: Map<Seq<char>, NodeRecord>, id: Seq<char>, t: u64, now: u64)
    requires
        m.contains_key(id),
        t <= now,
        now - t < m[id].metrics.heartbeat_timeout_ms,
    ensures
        recovered(m, id, t)[id].metrics.status == NodeStatus::Active,
        !swept_ids(recovered(m, id, t), now, true).contains(id),
        !swept_ids(recovered(m, id, t), now, false).contains(id),
{
}

/// Marks the nodes that stopped sending heartbeats as failed.
#[derive(Debug)]
pub struct ClusterHealthMonitor {
    /// The registry the monitor checks.
    pub cluster: ClusterState,
    /// Interval between checks, in milliseconds.
    pub check_interval_ms: u64,
}

impl ClusterHealthMonitor {
    /// A monitor of `cluster`.
    pub fn new(cluster: ClusterState, check_interval_ms: u64) -> (m: ClusterHealthMonitor)
        ensures
            m.cluster@ == cluster@,
            m.cluster.wf() == cluster.wf(),
            m.check_interval_ms == check_interval_ms,
    {
        ClusterHealthMonitor { cluster, check_interval_ms }
    }

    /// Fail every node silent for its heartbeat timeout at `now_ms`.
    pub fn check_health_at(&mut self, now_ms: u64)
        requires
            old(self).cluster.wf(),
        ensures
            final(self).cluster.wf(),
            final(self).cluster@ == swept(old(self).cluster@, now_ms, false),
            final(self).check_interval_ms == old(self).check_interval_ms,
    {
        self.cluster.sweep_at(now_ms, false);
    }

    /// Fail every node silent for its heartbeat timeout now.
    pub fn check_health(&mut self)
        requires
            old(self).cluster.wf(),
        ensures
            final(self).cluster.wf(),
            exists|now: u64| final(self).cluster@ == swept(old(self).cluster@, now, false),
            final(self).check_interval_ms == old(self).check_interval_ms,
    {
        let now = self.cluster.clock_ms();
        self.check_health_at(now);
    }
}

/// Detects the active nodes that stopped sending heartbeats, fails them and
/// reports them; recovers nodes on request.
#[derive(Debug)]
pub struct FaultDetector {
    /// The registry the detector watches.
    pub cluster: ClusterState,
    /// Interval between detections, in milliseconds.
    pub detection_interval_ms: u64,
}

impl FaultDetector {
    /// A detector watching `cluster`.
    pub fn new(cluster: ClusterState, detection_interval_ms: u64) -> (d: FaultDetector)
        ensures
            d.cluster@ == cluster@,
            d.cluster.wf() == cluster.wf(),
            d.detection_interval_ms == detection_interval_ms,
    {
        FaultDetector { cluster, detection_interval_ms }
    }

    /// Fail the active nodes silent for their heartbeat timeout at
    /// `now_ms`, and return their identifiers in increasing order.
    pub fn detect_failures_at(&mut self, now_ms: u64) -> (r: Vec<String>)
        requires
            old(self).cluster.wf(),
        ensures
            final(self).cluster.wf(),
            final(self).cluster@ == swept(old(self).cluster@, now_ms, true),
            final(self).detection_interval_ms == old(self).detection_interval_ms,
            forall|a: int| 0 <= a < r@.len() ==> swept_ids(old(self).cluster@, now_ms, true).contains((#[trigger] r@[a])@),
            forall|k: Seq<char>| #[trigger] swept_ids(old(self).cluster@, now_ms, true).contains(k)
                ==> exists|a: int| 0 <= a < r@.len() && r@[a]@ == k,
            ascending(r@.map_values(|x: String| x@)),
    {
        let r = self.cluster.sweep_candidates(now_ms, true);
        self.cluster.sweep_at(now_ms, true);
        r
    }

    /// Fail the active nodes silent for their heartbeat timeout now, and
    /// return their identifiers in increasing order.
    pub fn detect_failures(&mut self) -> (r: Vec<String>)
        requires
            old(self).cluster.wf(),
        ensures
            final(self).cluster.wf(),
            final(self).detection_interval_ms == old(self).detection_interval_ms,
            exists|now: u64| {
                &&& final(self).cluster@ == swept(old(self).cluster@, now, true)
                &&& forall|a: int| 0 <= a < r@.len() ==> swept_ids(old(self).cluster@, now, true).contains((#[trigger] r@[a])@)
                &&& forall|k: Seq<char>| #[trigger] swept_ids(old(self).cluster@, now, true).contains(k)
                    ==> exists|a: int| 0 <= a < r@.len() && r@[a]@ == k
            },
            ascending(r@.map_values(|x: String| x@)),
    {
        let now = self.cluster.clock_ms();
        self.detect_failures_at(now)
    }

    /// Bring node `id` back: active again, with its heartbeat clock
    /// restarted at `now_ms`.
    pub fn recover_node_at(&mut self, id: &str, now_ms: u64)
        requires
            old(self).cluster.wf(),
        ensures
            final(self).cluster.wf(),
            final(self).cluster@ == recovered(old(self).cluster@, id@, now_ms),
            final(self).detection_interval_ms == old(self).detection_interval_ms,
    {
        self.cluster.recover_node(id);
        self.cluster.update_heartbeat_at(id, now_ms);
    }

    /// Bring node `id` back now.
    pub fn recover_node(&mut self, id: &str)
        requires
            old(self).cluster.wf(),
        ensures
            final(self).cluster.wf(),
            exists|now: u64| final(self).cluster@ == recovered(old(self).cluster@, id@, now),
            final(self).detection_interval_ms == old(self).detection_interval_ms,
    {
        let now = self.cluster.clock_ms();
        self.recover_node_at(id, now);
    }
}

/// The registry after registering each `(node, address, time)` of `regs`
/// in turn on `m`, as [`ClusterState::register_with_addr_at`] does.
pub open spec fn register_all(
    m: Map<Seq<char>, NodeRecord>,
    regs: Seq<(NodeView, Option<SocketAddress>, u64)>,
) -> Map<Seq<char>, NodeRecord>
    decreases regs.len(),
{
    if regs.len() == 0 {
        m
    } else {
        let p = register_all(m, regs.drop_last());
        let r = regs.last();
        p.insert(r.0.id, registered(p.get(r.0.id), r.0, r.1, r.2))
    }
}

/// The identifiers registered by `regs`.
pub open spec fn registered_ids(regs: Seq<(NodeView, Option<SocketAddress>, u64)>) -> Set<Seq<char>> {
    Set::new(|k: Seq<char>| exists|i: int| 0 <= i < regs.len() && #[trigger] regs[i].0.id == k)
}

/// Registering nodes one after another into an empty registry keeps one
/// entry per distinct identifier, holding the resources registered last
/// under it.
pub proof fn lemma_registry_keeps_latest_per_id(regs: Seq<(NodeView, Option<SocketAddress>, u64)>)
    ensures
        register_all(Map::empty(), regs).dom() == registered_ids(regs),
        forall|i: int|
            0 <= i < regs.len() && (forall|j: int| i < j < regs.len() ==> #[trigger] regs[j].0.id != regs[i].0.id)
                ==> register_all(Map::empty(), regs)[#[trigger] regs[i].0.id].node == regs[i].0,
    decreases regs.len(),
{
    if regs.len() > 0 {
        let q = regs.drop_last();
        lemma_registry_keeps_latest_per_id(q);
        let r = regs.last();
        assert(registered_ids(regs) =~= registered_ids(q).insert(r.0.id)) by {
            assert(regs[regs.len() - 1].0.id == r.0.id);
            assert forall|k: Seq<char>| registered_ids(regs).contains(k) implies registered_ids(q).insert(r.0.id).contains(k) by {
                let i = choose|i: int| 0 <= i < regs.len() && #[trigger] regs[i].0.id == k;
                if i < q.len() {
                    assert(q[i].0.id == k);
                }
            }
            assert forall|k: Seq<char>| registered_ids(q).contains(k) implies registered_ids(regs).contains(k) by {
                let i = choose|i: int| 0 <= i < q.len() && #[trigger] q[i].0.id == k;
                assert(regs[i].0.id == k);
            }
        }
        assert forall|i: int|
            0 <= i < regs.len() && (forall|j: int| i < j < regs.len() ==> #[trigger] regs[j].0.id != regs[i].0.id)
                implies register_all(Map::empty(), regs)[#[trigger] regs[i].0.id].node == regs[i].0 by {
            if i < q.len() {
                assert(regs[regs.len() - 1].0.id != regs[i].0.id);
                assert(q[i] == regs[i]);
                assert forall|j: int| i < j < q.len() implies #[trigger] q[j].0.id != q[i].0.id by {
                    assert(q[j] == regs[j]);
                }
            }
        }
    }
}

} // verus!

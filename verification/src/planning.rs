//! Placement plans: layer ranges assigned to nodes, the nodes taking part
//! and the quantization chosen from the cluster's delivery ratio.
//!
//! VRAM amounts and ratios are `f32` values held as their bit patterns.

use vstd::prelude::*;
use crate::fmt::{decimal, push_decimal};
use crate::cluster::{ClusterState, MetricsView, active_ids};
use crate::models::{f32_bits_le, f32_bits_le_exec, f32_bits_lt, f32_bits_lt_exec};
use crate::tuning::QuantizationMode;
use vstd::string::StringExecFns;

verus! {

/// Bits of the delivery ratio (0.95) from which no quantization is needed.
pub const DELIVERY_RATIO_INT8_THRESHOLD_BITS: u32 = 0x3f73_3333;

/// Bits of the delivery ratio (0.80) from which 8-bit quantization suffices.
pub const DELIVERY_RATIO_INT4_THRESHOLD_BITS: u32 = 0x3f4c_cccd;

/// The quantization a delivery ratio calls for: full precision from 0.95
/// on, 8-bit from 0.80 on, 4-bit below (and for NaN).
pub open spec fn quantization_for(delivery_ratio_bits: u32) -> QuantizationMode {
    if f32_bits_le(DELIVERY_RATIO_INT8_THRESHOLD_BITS, delivery_ratio_bits) {
        QuantizationMode::FullPrecision
    } else if f32_bits_le(DELIVERY_RATIO_INT4_THRESHOLD_BITS, delivery_ratio_bits) {
        QuantizationMode::Int8
    } else {
        QuantizationMode::Int4
    }
}

/// Select the quantization mode from the cluster's delivery ratio (given
/// by its `f32` bit pattern).
pub fn select_quantization_mode(delivery_ratio_bits: u32) -> (q: QuantizationMode)
    ensures
        q == quantization_for(delivery_ratio_bits),
{
    if f32_bits_le_exec(DELIVERY_RATIO_INT8_THRESHOLD_BITS, delivery_ratio_bits) {
        QuantizationMode::FullPrecision
    } else if f32_bits_le_exec(DELIVERY_RATIO_INT4_THRESHOLD_BITS, delivery_ratio_bits) {
        QuantizationMode::Int8
    } else {
        QuantizationMode::Int4
    }
}

/// A layer with its VRAM requirement.
#[derive(Clone, Copy, Debug, PartialEq, Eq, Structural)]
pub struct LayerSpec {
    /// Layer index (0-based).
    pub index: usize,
    /// Bits of the VRAM required, in GB.
    pub vram_gb_bits: u32,
    /// Number of weights in the layer.
    pub num_weights: u32,
}

impl Default for LayerSpec {
    fn default() -> (l: LayerSpec)
        ensures
            l == (LayerSpec { index: 0, vram_gb_bits: 0x3f80_0000, num_weights: 0 }),
    {
        LayerSpec { index: 0, vram_gb_bits: 0x3f80_0000, num_weights: 0 }
    }
}

/// A contiguous range of layers assigned to one node.
#[derive(Clone, Debug)]
pub struct LayerAssignment {
    /// Node identifier.
    pub node_id: String,
    /// First layer (inclusive).
    pub start_layer: usize,
    /// End layer (exclusive).
    pub end_layer: usize,
    /// Bits of the VRAM used on the node, in GB.
    pub used_vram_gb_bits: u32,
    /// Number of layers assigned.
    pub num_layers: usize,
}

impl LayerAssignment {
    /// The layers `start_layer..end_layer` on `node_id`.
    pub fn new(node_id: String, start_layer: usize, end_layer: usize, vram_gb_bits: u32) -> (a: LayerAssignment)
        requires
            start_layer <= end_layer,
        ensures
            a.node_id@ == node_id@,
            a.start_layer == start_layer,
            a.end_layer == end_layer,
            a.used_vram_gb_bits == vram_gb_bits,
            a.num_layers == end_layer - start_layer,
    {
        LayerAssignment { node_id, start_layer, end_layer, used_vram_gb_bits: vram_gb_bits, num_layers: end_layer - start_layer }
    }
}

/// Total number of layers of the assignments.
pub open spec fn assigned_layers(a: Seq<LayerAssignment>) -> int
    decreases a.len(),
{
    if a.len() == 0 {
        0
    } else {
        assigned_layers(a.drop_last()) + a.last().num_layers
    }
}

/// The node identifiers of the assignments.
pub open spec fn assignment_nodes(a: Seq<LayerAssignment>) -> Seq<Seq<char>> {
    a.map_values(|x: LayerAssignment| x.node_id@)
}

/// Each identifier once, in the order of its first occurrence.
pub open spec fn first_occurrences(ids: Seq<Seq<char>>) -> Seq<Seq<char>>
    decreases ids.len(),
{
    if ids.len() == 0 {
        Seq::empty()
    } else {
        let d = first_occurrences(ids.drop_last());
        if d.contains(ids.last()) {
            d
        } else {
            d.push(ids.last())
        }
    }
}

/// The parts separated by `sep`.
pub open spec fn joined(parts: Seq<Seq<char>>, sep: Seq<char>) -> Seq<char>
    decreases parts.len(),
{
    if parts.len() == 0 {
        Seq::empty()
    } else if parts.len() == 1 {
        parts[0]
    } else {
        joined(parts.drop_last(), sep) + sep + parts.last()
    }
}

/// The label of a quantization mode in plan summaries.
pub open spec fn quantization_label(q: QuantizationMode) -> Seq<char> {
    match q {
        QuantizationMode::FullPrecision => "Full Precision"@,
        QuantizationMode::Int8 => "8-bit Quantized"@,
        QuantizationMode::Int4 => "4-bit Quantized"@,
    }
}

fn quantization_label_str(q: QuantizationMode) -> (s: &'static str)
    ensures
        s@ == quantization_label(q),
{
    match q {
        QuantizationMode::FullPrecision => "Full Precision",
        QuantizationMode::Int8 => "8-bit Quantized",
        QuantizationMode::Int4 => "4-bit Quantized",
    }
}

/// The views of a sequence of strings.
pub open spec fn string_views(v: Seq<String>) -> Seq<Seq<char>> {
    v.map_values(|s: String| s@)
}

fn contains_string(v: &Vec<String>, x: &String) -> (r: bool)
    ensures
        r == string_views(v@).contains(x@),
{
    let mut i: usize = 0;
    while i < v.len()
        invariant
            i <= v@.len(),
            forall|j: int| 0 <= j < i ==> v@[j]@ != x@,
        decreases v@.len() - i,
    {
        if v[i] == *x {
            proof {
                assert(string_views(v@)[i as int] == x@);
            }
            return true;
        }
        i += 1;
    }
    proof {
        if string_views(v@).contains(x@) {
            let j = choose|j: int| 0 <= j < string_views(v@).len() && string_views(v@)[j] == x@;
            assert(v@[j]@ == x@);
        }
    }
    false
}

/// Layer placement across nodes.
#[derive(Clone, Debug)]
pub struct PlacementPlan {
    /// Assignments per node.
    pub assignments: Vec<LayerAssignment>,
    /// Selected quantization mode.
    pub quantization_mode: QuantizationMode,
    /// Total layers assigned.
    pub total_layers: usize,
    /// Nodes taking part, each once, in order of first assignment.
    pub participating_nodes: Vec<String>,
}

/// Summary text of a plan.
pub open spec fn plan_summary(q: QuantizationMode, total_layers: nat, nodes: Seq<Seq<char>>) -> Seq<char> {
    "Placement Plan ("@ + quantization_label(q) + ")\n=================\nTotal layers: "@ + decimal(total_layers)
        + "\nQuantization: "@ + quantization_label(q) + "\nNodes: "@ + joined(nodes, ", "@) + "\n"@
}

impl PlacementPlan {
    /// The plan made of `assignments`: the total of their layers and the
    /// nodes they name, each once.
    pub fn new(assignments: Vec<LayerAssignment>, quantization_mode: QuantizationMode) -> (p: PlacementPlan)
        requires
            assigned_layers(assignments@) <= usize::MAX,
        ensures
            p.assignments@ == assignments@,
            p.quantization_mode == quantization_mode,
            p.total_layers == assigned_layers(assignments@),
            string_views(p.participating_nodes@) == first_occurrences(assignment_nodes(assignments@)),
    {
        let ghost ids = assignment_nodes(assignments@);
        let mut participating_nodes: Vec<String> = Vec::new();
        let mut total_layers: usize = 0;
        let mut i: usize = 0;
        proof {
            assert(string_views(participating_nodes@) =~= first_occurrences(ids.take(0)));
            assert(assignments@.take(0) =~= Seq::<LayerAssignment>::empty());
        }
        while i < assignments.len()
            invariant
                i <= assignments@.len(),
                ids == assignment_nodes(assignments@),
                assigned_layers(assignments@) <= usize::MAX,
                total_layers == assigned_layers(assignments@.take(i as int)),
                string_views(participating_nodes@) == first_occurrences(ids.take(i as int)),
            decreases assignments@.len() - i,
        {
            proof {
                assert(assignments@.take(i as int + 1).drop_last() =~= assignments@.take(i as int));
                assert(ids.take(i as int + 1).drop_last() =~= ids.take(i as int));
                lemma_assigned_layers_prefix(assignments@, i as int + 1);
            }
            total_layers = total_layers + assignments[i].num_layers;
            if !contains_string(&participating_nodes, &assignments[i].node_id) {
                let ghost before = participating_nodes@;
                participating_nodes.push(assignments[i].node_id.clone());
                proof {
                    assert(string_views(participating_nodes@) =~= string_views(before).push(assignments@[i as int].node_id@));
                }
            }
            i += 1;
        }
        proof {
            assert(assignments@.take(i as int) =~= assignments@);
            assert(ids.take(i as int) =~= ids);
        }
        PlacementPlan { assignments, quantization_mode, total_layers, participating_nodes }
    }

    /// Human-readable summary of the plan.
    pub fn summary(&self) -> (s: String)
        ensures
            s@ == plan_summary(self.quantization_mode, self.total_layers as nat, string_views(self.participating_nodes@)),
    {
        let label = quantization_label_str(self.quantization_mode);
        let mut s = "Placement Plan (".to_owned();
        s.append(label);
        s.append(")\n=================\nTotal layers: ");
        push_decimal(&mut s, self.total_layers as u64);
        s.append("\nQuantization: ");
        s.append(label);
        s.append("\nNodes: ");
        let ghost head = s@;
        let ghost parts = string_views(self.participating_nodes@);
        let mut i: usize = 0;
        proof {
            assert(parts.take(0) =~= Seq::<Seq<char>>::empty());
            assert(s@ =~= head + joined(parts.take(0), ", "@));
        }
        while i < self.participating_nodes.len()
            invariant
                i <= self.participating_nodes@.len(),
                parts == string_views(self.participating_nodes@),
                s@ == head + joined(parts.take(i as int), ", "@),
            decreases self.participating_nodes@.len() - i,
        {
            proof {
                assert(parts.take(i as int + 1).drop_last() =~= parts.take(i as int));
                assert(parts.take(i as int + 1).last() == self.participating_nodes@[i as int]@);
            }
            if i > 0 {
                s.append(", ");
            }
            s.append(self.participating_nodes[i].as_str());
            proof {
                if i == 0 {
                    assert(parts.take(1) =~= seq![parts[0]]);
                }
                assert(s@ =~= head + joined(parts.take(i as int + 1), ", "@));
            }
            i += 1;
        }
        s.append("\n");
        proof {
            assert(parts.take(i as int) =~= parts);
            reveal_strlit("Placement Plan (");
            assert(s@ =~= plan_summary(self.quantization_mode, self.total_layers as nat, parts));
        }
        s
    }
}

/// The first occurrences of a list name each of its identifiers exactly
/// once: no identifier twice, and every identifier of the list.
pub proof fn lemma_first_occurrences(ids: Seq<Seq<char>>)
    ensures
        first_occurrences(ids).no_duplicates(),
        forall|x: Seq<char>| #[trigger] first_occurrences(ids).contains(x) <==> ids.contains(x),
    decreases ids.len(),
{
    if ids.len() > 0 {
        let p = ids.drop_last();
        lemma_first_occurrences(p);
        let d = first_occurrences(p);
        let x = ids.last();
        assert forall|y: Seq<char>| #[trigger] ids.contains(y) <==> p.contains(y) || y == x by {
            if ids.contains(y) {
                let i = choose|i: int| 0 <= i < ids.len() && ids[i] == y;
                if i < p.len() {
                    assert(p[i] == y);
                }
            }
            if p.contains(y) {
                let i = choose|i: int| 0 <= i < p.len() && p[i] == y;
                assert(ids[i] == y);
            }
            if y == x {
                assert(ids[ids.len() - 1] == y);
            }
        }
        if !d.contains(x) {
            let e = d.push(x);
            assert forall|y: Seq<char>| #[trigger] e.contains(y) <==> d.contains(y) || y == x by {
                if e.contains(y) {
                    let i = choose|i: int| 0 <= i < e.len() && e[i] == y;
                    if i < d.len() {
                        assert(d[i] == y);
                    }
                }
                if d.contains(y) {
                    let i = choose|i: int| 0 <= i < d.len() && d[i] == y;
                    assert(e[i] == y);
                }
                if y == x {
                    assert(e[d.len() as int] == y);
                }
            }
            assert forall|i: int, j: int| 0 <= i < e.len() && 0 <= j < e.len() && i != j implies e[i] != e[j] by {
                if i == d.len() {
                    assert(d.contains(e[j]));
                } else if j == d.len() {
                    assert(d.contains(e[i]));
                }
            }
        }
    }
}

proof fn lemma_assigned_layers_prefix(a: Seq<LayerAssignment>, n: int)
    requires
        0 <= n <= a.len(),
    ensures
        assigned_layers(a.take(n)) <= assigned_layers(a),
    decreases a.len(),
{
    if n < a.len() {
        assert(a.drop_last().take(n) =~= a.take(n));
        lemma_assigned_layers_prefix(a.drop_last(), n);
    } else {
        assert(a.take(n) =~= a);
    }
}

/// Bits of the `f32` 0.90: a node whose delivery ratio is below it is
/// overtaxed.
pub const OVERTAXED_DELIVERY_RATIO_BITS: u32 = 0x3f66_6666;

/// Bits of the `f32` 15.0: a node whose average latency (microseconds) is
/// above it is overtaxed.
pub const OVERTAXED_LATENCY_US_BITS: u32 = 0x4170_0000;

/// Bits of the `f32` 8.0: a migration target needs more VRAM available
/// (GB) than this.
pub const MIGRATION_TARGET_MIN_VRAM_GB_BITS: u32 = 0x4100_0000;

/// Estimated time to migrate one layer, in milliseconds.
pub const MIGRATION_MS_PER_LAYER: u64 = 45;

/// A planned move of layers from an overtaxed node to one with room.
#[derive(Clone, Debug)]
pub struct MigrationPlanner {
    /// Node the layers leave.
    pub source_node: String,
    /// Node the layers go to.
    pub target_node: String,
    /// Layers moved.
    pub layers: Vec<usize>,
    /// Estimated duration, in whole milliseconds: 45 per layer.
    pub est_migration_time_ms: u64,
}

/// The decimal numbers of a list, as `{:?}` prints a list of integers:
/// `[a, b, c]`.
pub open spec fn debug_list(v: Seq<usize>) -> Seq<char> {
    "["@ + joined(v.map_values(|x: usize| decimal(x as nat)), ", "@) + "]"@
}

/// The steps of a migration's handoff, in order.
pub open spec fn handoff_steps(source: Seq<char>, target: Seq<char>, layers: Seq<usize>) -> Seq<Seq<char>> {
    seq![
        "PREPARE: Target node "@ + target + " allocating VRAM"@,
        "STREAM: Moving layers "@ + debug_list(layers) + " to "@ + target,
        "VERIFY: Integrity check on "@ + target,
        "COMMIT: Switch routing to "@ + target,
        "CLEANUP: Free VRAM on source node "@ + source,
    ]
}

fn concat3(a: &str, b: &str, c: &str) -> (s: String)
    ensures
        s@ == a@ + b@ + c@,
{
    let mut s = a.to_owned();
    s.append(b);
    s.append(c);
    s
}

fn debug_list_text(v: &Vec<usize>) -> (s: String)
    ensures
        s@ == debug_list(v@),
{
    let ghost parts = v@.map_values(|x: usize| decimal(x as nat));
    let mut s = "[".to_owned();
    let ghost head = s@;
    let mut i: usize = 0;
    proof {
        assert(parts.take(0) =~= Seq::<Seq<char>>::empty());
        assert(s@ =~= head + joined(parts.take(0), ", "@));
    }
    while i < v.len()
        invariant
            i <= v@.len(),
            parts == v@.map_values(|x: usize| decimal(x as nat)),
            s@ == head + joined(parts.take(i as int), ", "@),
        decreases v@.len() - i,
    {
        proof {
            assert(parts.take(i as int + 1).drop_last() =~= parts.take(i as int));
            assert(parts.take(i as int + 1).last() == decimal(v@[i as int] as nat));
        }
        if i > 0 {
            s.append(", ");
        }
        push_decimal(&mut s, v[i] as u64);
        proof {
            if i == 0 {
                assert(parts.take(1) =~= seq![parts[0]]);
            }
            assert(s@ =~= head + joined(parts.take(i as int + 1), ", "@));
        }
        i += 1;
    }
    s.append("]");
    proof {
        assert(parts.take(i as int) =~= parts);
        reveal_strlit("[");
        assert(s@ =~= debug_list(v@));
    }
    s
}

impl MigrationPlanner {
    /// A migration of `layers` from `source` to `target`, estimated at 45 ms
    /// per layer.
    pub fn new(source: String, target: String, layers: Vec<usize>) -> (p: MigrationPlanner)
        requires
            layers@.len() * MIGRATION_MS_PER_LAYER <= u64::MAX,
        ensures
            p.source_node@ == source@,
            p.target_node@ == target@,
            p.layers@ == layers@,
            p.est_migration_time_ms == layers@.len() * MIGRATION_MS_PER_LAYER,
    {
        let est = (layers.len() as u64) * MIGRATION_MS_PER_LAYER;
        MigrationPlanner { source_node: source, target_node: target, layers, est_migration_time_ms: est }
    }

    /// The handoff sequence of the migration: prepare the target, stream
    /// the layers, verify, switch routing, free the source.
    pub fn generate_handoff_plan(&self) -> (steps: Vec<String>)
        ensures
            steps@.map_values(|x: String| x@) == handoff_steps(self.source_node@, self.target_node@, self.layers@),
    {
        let target = self.target_node.as_str();
        let source = self.source_node.as_str();
        let mut steps: Vec<String> = Vec::new();
        steps.push(concat3("PREPARE: Target node ", target, " allocating VRAM"));
        let mut stream = concat3("STREAM: Moving layers ", debug_list_text(&self.layers).as_str(), " to ");
        stream.append(target);
        steps.push(stream);
        steps.push(concat3("VERIFY: Integrity check on ", target, ""));
        steps.push(concat3("COMMIT: Switch routing to ", target, ""));
        steps.push(concat3("CLEANUP: Free VRAM on source node ", source, ""));
        proof {
            reveal_strlit("");
            assert(steps@.map_values(|x: String| x@) =~= handoff_steps(self.source_node@, self.target_node@, self.layers@));
        }
        steps
    }
}

/// Whether a node's metrics show it overtaxed: its delivery ratio is below
/// 0.90 or its average latency above 15 microseconds.
pub open spec fn overtaxed(m: MetricsView) -> bool {
    f32_bits_lt(m.delivery_ratio_bits, OVERTAXED_DELIVERY_RATIO_BITS) || f32_bits_lt(OVERTAXED_LATENCY_US_BITS, m.avg_latency_us_bits)
}

/// Whether a node can take migrated layers: it is not overtaxed and has
/// more than 8 GB of VRAM available.
pub open spec fn migration_target(m: MetricsView) -> bool {
    !overtaxed(m) && f32_bits_lt(MIGRATION_TARGET_MIN_VRAM_GB_BITS, m.available_vram_gb_bits)
}

/// The first assignment of the plan on `node`, if any.
pub open spec fn first_assignment(a: Seq<LayerAssignment>, node: Seq<char>) -> Option<LayerAssignment>
    decreases a.len(),
{
    if a.len() == 0 {
        None
    } else if a[0].node_id@ == node {
        Some(a[0])
    } else {
        first_assignment(a.drop_first(), node)
    }
}

/// The first two layers of `start..end` (fewer when the range is shorter).
pub open spec fn leading_layers(start: usize, end: usize) -> Seq<usize> {
    if end <= start {
        Seq::empty()
    } else if end - start == 1 {
        seq![start]
    } else {
        seq![start, (start + 1) as usize]
    }
}

/// The layers a migration away from `node` moves: the first two of its
/// first assignment in the plan.
pub open spec fn layers_to_move(a: Seq<LayerAssignment>, node: Seq<char>) -> Seq<usize> {
    match first_assignment(a, node) {
        Some(x) => leading_layers(x.start_layer, x.end_layer),
        None => Seq::empty(),
    }
}

fn layers_to_move_exec(a: &Vec<LayerAssignment>, node: &String) -> (v: Vec<usize>)
    ensures
        v@ == layers_to_move(a@, node@),
{
    let mut i: usize = 0;
    proof {
        assert(a@.skip(0) =~= a@);
    }
    while i < a.len()
        invariant
            i <= a@.len(),
            first_assignment(a@, node@) == first_assignment(a@.skip(i as int), node@),
        decreases a@.len() - i,
    {
        proof {
            assert(a@.skip(i as int).drop_first() =~= a@.skip(i as int + 1));
        }
        if a[i].node_id == *node {
            let start = a[i].start_layer;
            let end = a[i].end_layer;
            let mut v: Vec<usize> = Vec::new();
            if start < end {
                v.push(start);
                if end - start > 1 {
                    v.push(start + 1);
                }
            }
            proof {
                assert(v@ =~= leading_layers(start, end));
            }
            return v;
        }
        i += 1;
    }
    proof {
        assert(a@.skip(i as int).len() == 0);
    }
    Vec::new()
}

/// When to rebalance a cluster.
#[derive(Clone, Copy, Debug)]
pub struct RebalanceTrigger {
    /// Bits of the load drift that calls for rebalancing.
    pub min_imbalance_ratio_bits: u32,
    /// Bits of the 95th-percentile latency (ms) that calls for rebalancing.
    pub max_p95_latency_ms_bits: u32,
}

impl Default for RebalanceTrigger {
    fn default() -> (t: RebalanceTrigger)
        ensures
            t.min_imbalance_ratio_bits == 0x3e80_0000,
            t.max_p95_latency_ms_bits == 0x41c8_0000,
    {
        RebalanceTrigger { min_imbalance_ratio_bits: 0x3e80_0000, max_p95_latency_ms_bits: 0x41c8_0000 }
    }
}

impl RebalanceTrigger {
    /// A migration called for by the cluster's load: with at least two
    /// active nodes, from an overtaxed active node to an active node that
    /// can take layers, of the first two layers of the source's first
    /// assignment in `current_plan`.
    ///
    /// The active nodes are looked at in no particular order, so which
    /// overtaxed node and which target are taken is not said; `None` comes
    /// when there are fewer than two active nodes, no overtaxed one, no
    /// target, or when the overtaxed node taken has no layers in the plan.
    pub fn evaluate(&self, cluster: &ClusterState, current_plan: &PlacementPlan) -> (r: Option<MigrationPlanner>)
        requires
            cluster.wf(),
        ensures
            match r {
                Some(p) => {
                    &&& active_ids(cluster@).len() >= 2
                    &&& active_ids(cluster@).contains(p.source_node@)
                    &&& overtaxed(cluster@[p.source_node@].metrics)
                    &&& active_ids(cluster@).contains(p.target_node@)
                    &&& migration_target(cluster@[p.target_node@].metrics)
                    &&& p.layers@ == layers_to_move(current_plan.assignments@, p.source_node@)
                    &&& p.layers@.len() > 0
                    &&& p.est_migration_time_ms == p.layers@.len() * MIGRATION_MS_PER_LAYER
                },
                None => {
                    ||| active_ids(cluster@).len() < 2
                    ||| !exists|k: Seq<char>| #[trigger] active_ids(cluster@).contains(k) && overtaxed(cluster@[k].metrics)
                    ||| !exists|k: Seq<char>| #[trigger] active_ids(cluster@).contains(k) && migration_target(cluster@[k].metrics)
                    ||| exists|k: Seq<char>| #[trigger] active_ids(cluster@).contains(k) && overtaxed(cluster@[k].metrics)
                        && layers_to_move(current_plan.assignments@, k).len() == 0
                },
            },
    {
        let count = cluster.active_nodes_count();
        if count < 2 {
            return None;
        }
        let active = cluster.active_nodes();
        let mut source: Option<String> = None;
        let mut target: Option<String> = None;
        let mut i: usize = 0;
        while i < active.len()
            invariant
                i <= active@.len(),
                forall|j: int| 0 <= j < active@.len() ==> active_ids(cluster@).contains((#[trigger] active@[j])@.name)
                    && active@[j]@ == cluster@[active@[j]@.name].metrics,
                match source {
                    Some(s) => active_ids(cluster@).contains(s@) && overtaxed(cluster@[s@].metrics),
                    None => forall|j: int| 0 <= j < i ==> !overtaxed((#[trigger] active@[j])@),
                },
                match target {
                    Some(t) => active_ids(cluster@).contains(t@) && migration_target(cluster@[t@].metrics),
                    None => forall|j: int| 0 <= j < i ==> !migration_target((#[trigger] active@[j])@),
                },
            decreases active@.len() - i,
        {
            let m = &active[i];
            let taxed = f32_bits_lt_exec(m.delivery_ratio_bits, OVERTAXED_DELIVERY_RATIO_BITS)
                || f32_bits_lt_exec(OVERTAXED_LATENCY_US_BITS, m.avg_latency_us_bits);
            if taxed {
                if source.is_none() {
                    source = Some(m.name.clone());
                }
            } else if target.is_none() && f32_bits_lt_exec(MIGRATION_TARGET_MIN_VRAM_GB_BITS, m.available_vram_gb_bits) {
                target = Some(m.name.clone());
            }
            i += 1;
        }
        proof {
            if source is None {
                assert forall|k: Seq<char>| #[trigger] active_ids(cluster@).contains(k) implies !overtaxed(cluster@[k].metrics) by {
                    let j = choose|j: int| 0 <= j < active@.len() && active@[j]@.name == k;
                    assert(!overtaxed(active@[j]@));
                }
            }
            if target is None {
                assert forall|k: Seq<char>| #[trigger] active_ids(cluster@).contains(k) implies !migration_target(cluster@[k].metrics) by {
                    let j = choose|j: int| 0 <= j < active@.len() && active@[j]@.name == k;
                    assert(!migration_target(active@[j]@));
                }
            }
        }
        match (source, target) {
            (Some(s), Some(t)) => {
                let layers = layers_to_move_exec(&current_plan.assignments, &s);
                if layers.len() > 0 {
                    Some(MigrationPlanner::new(s, t, layers))
                } else {
                    proof {
                        assert(active_ids(cluster@).contains(s@) && overtaxed(cluster@[s@].metrics));
                    }
                    None
                }
            },
            _ => None,
        }
    }
}

} // verus!

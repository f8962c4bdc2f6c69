//! Selection of the peers that lend compute over RPC for distributed
//! inference, and the tensor split that weights the devices.
//!
//! Sizes are the IEEE-754 bit patterns of `f32` gigabyte figures; the
//! selection and the split only compare them and never compute with them.

use vstd::prelude::*;
use crate::cluster::{ClusterState, NodeRecord, SocketAddress, id_lt, registry_consistent, swept, sweeps};
use crate::models::{f32_bits_le, f32_bits_le_exec, f32_bits_lt, f32_bits_lt_exec};
use crate::text::str_eq;
use crate::tuning::NodeStatus;

verus! {

/// Bits of the `f32` 0.90: a peer whose delivery ratio is below it is left
/// out of distributed inference.
pub const RPC_PEER_MIN_DELIVERY_RATIO_BITS: u32 = 0x3f66_6666;

/// Bits of the `f32` 0.1, the least weight a device gets in a tensor split.
pub const TENSOR_SPLIT_FLOOR_BITS: u32 = 0x3dcc_cccd;

/// A peer that lends compute over RPC.
#[derive(Clone, Debug)]
pub struct RpcPeer {
    /// Node identifier.
    pub node_id: String,
    /// Address of the peer's RPC server.
    pub addr: SocketAddress,
    /// Bits of the peer's VRAM in GB.
    pub vram_gb_bits: u32,
    /// Bits of the peer's system memory in GB, the weight used when no
    /// device of the split reports VRAM.
    pub system_memory_gb_bits: u32,
}

/// Abstract value of [`RpcPeer`].
pub struct RpcPeerView {
    pub node_id: Seq<char>,
    pub addr: SocketAddress,
    pub vram_gb_bits: u32,
    pub system_memory_gb_bits: u32,
}

impl View for RpcPeer {
    type V = RpcPeerView;

    open spec fn view(&self) -> RpcPeerView {
        RpcPeerView {
            node_id: self.node_id@,
            addr: self.addr,
            vram_gb_bits: self.vram_gb_bits,
            system_memory_gb_bits: self.system_memory_gb_bits,
        }
    }
}

/// Whether the node of record `r` lends compute to the node `local`: it is
/// another node, it advertised an RPC port, it is active, its delivery
/// ratio is not below the health floor and its address is known.
pub open spec fn contributes(r: NodeRecord, local: Seq<char>) -> bool {
    &&& r.node.id != local
    &&& r.node.rpc_port is Some
    &&& r.metrics.status == NodeStatus::Active
    &&& !f32_bits_lt(r.metrics.delivery_ratio_bits, RPC_PEER_MIN_DELIVERY_RATIO_BITS)
    &&& r.metrics.ip_address is Some
}

/// The peer a contributing record stands for: the node's address with its
/// RPC port, its VRAM and its system memory.
pub open spec fn peer_of(r: NodeRecord) -> RpcPeerView {
    RpcPeerView {
        node_id: r.node.id,
        addr: SocketAddress { ip: r.metrics.ip_address.unwrap().ip, port: r.node.rpc_port.unwrap() },
        vram_gb_bits: r.node.vram_gb_bits,
        system_memory_gb_bits: r.metrics.system_memory_gb_bits,
    }
}

/// A node that a heartbeat sweep fails lends no compute afterwards: the
/// sweep leaves it failed, and only active nodes are peers.
pub proof fn lemma_swept_node_is_not_a_peer(
    m: Map<Seq<char>, NodeRecord>,
    now: u64,
    only_active: bool,
    k: Seq<char>,
    local: Seq<char>,
)
    requires
        m.contains_key(k),
        sweeps(m[k], now, only_active),
    ensures
        !contributes(swept(m, now, only_active)[k], local),
{
}

/// The peers of `cluster` that lend compute to `local_node_id` (see
/// [`contributes`]), in increasing identifier order.
///
/// Nodes of this protocol version report no `llama.cpp` build identifier,
/// so no peer is found to run a build that differs from the local
/// one (the last argument), and none is left out on that account.
pub fn discover_rpc_peers(cluster: &ClusterState, local_node_id: &str, _local_rpc_build_id: Option<&str>) -> (r: Vec<RpcPeer>)
    requires
        cluster.wf(),
    ensures
        forall|a: int| 0 <= a < r@.len() ==> {
            let id = (#[trigger] r@[a])@.node_id;
            &&& cluster@.contains_key(id)
            &&& contributes(cluster@[id], local_node_id@)
            &&& r@[a]@ == peer_of(cluster@[id])
        },
        forall|k: Seq<char>| #[trigger] cluster@.contains_key(k) && contributes(cluster@[k], local_node_id@)
            ==> exists|a: int| 0 <= a < r@.len() && r@[a]@.node_id == k,
        forall|a: int, b: int| 0 <= a < b < r@.len() ==> id_lt((#[trigger] r@[a])@.node_id, (#[trigger] r@[b])@.node_id),
{
    proof {
        cluster.lemma_consistent();
    }
    let snapshot = cluster.nodes();
    let mut r: Vec<RpcPeer> = Vec::new();
    let mut a: usize = 0;
    while a < snapshot.len()
        invariant
            cluster.wf(),
            registry_consistent(cluster@),
            a <= snapshot@.len(),
            forall|i: int| 0 <= i < snapshot@.len() ==> cluster@.contains_key((#[trigger] snapshot@[i])@.id)
                && snapshot@[i]@ == cluster@[snapshot@[i]@.id].node,
            forall|i: int, j: int| 0 <= i < j < snapshot@.len() ==> id_lt((#[trigger] snapshot@[i])@.id, (#[trigger] snapshot@[j])@.id),
            forall|x: int| 0 <= x < r@.len() ==> {
                let id = (#[trigger] r@[x])@.node_id;
                &&& cluster@.contains_key(id)
                &&& contributes(cluster@[id], local_node_id@)
                &&& r@[x]@ == peer_of(cluster@[id])
                &&& exists|b: int| 0 <= b < a && snapshot@[b]@.id == id
            },
            forall|b: int| 0 <= b < a && #[trigger] contributes(cluster@[snapshot@[b]@.id], local_node_id@)
                ==> exists|x: int| 0 <= x < r@.len() && r@[x]@.node_id == snapshot@[b]@.id,
            forall|x: int, y: int| 0 <= x < y < r@.len() ==> id_lt((#[trigger] r@[x])@.node_id, (#[trigger] r@[y])@.node_id),
        decreases snapshot@.len() - a,
    {
        let node = &snapshot[a];
        let ghost id = node@.id;
        let mut chosen: Option<RpcPeer> = None;
        if !str_eq(node.id.as_str(), local_node_id) {
            if let Some(port) = node.rpc_port {
                if let Some(m) = cluster.get_metrics(node.id.as_str()) {
                    if m.status == NodeStatus::Active && !f32_bits_lt_exec(m.delivery_ratio_bits, RPC_PEER_MIN_DELIVERY_RATIO_BITS) {
                        if let Some(addr) = m.ip_address {
                            chosen = Some(RpcPeer {
                                node_id: node.id.clone(),
                                addr: SocketAddress { ip: addr.ip, port },
                                vram_gb_bits: node.vram_gb_bits,
                                system_memory_gb_bits: m.system_memory_gb_bits,
                            });
                        }
                    }
                }
            }
        }
        proof {
            assert(cluster@[id].node == node@);
            assert(chosen is Some <==> contributes(cluster@[id], local_node_id@));
            if chosen is Some {
                assert(chosen.unwrap()@ == peer_of(cluster@[id]));
            }
        }
        match chosen {
            Some(p) => {
                let ghost before = r@;
                r.push(p);
                proof {
                    assert forall|x: int| 0 <= x < r@.len() implies {
                        let id2 = (#[trigger] r@[x])@.node_id;
                        &&& cluster@.contains_key(id2)
                        &&& contributes(cluster@[id2], local_node_id@)
                        &&& r@[x]@ == peer_of(cluster@[id2])
                        &&& exists|b: int| 0 <= b < a + 1 && snapshot@[b]@.id == id2
                    } by {
                        if x < before.len() {
                            assert(r@[x] == before[x]);
                        } else {
                            assert(snapshot@[a as int]@.id == id);
                        }
                    }
                    assert forall|x: int, y: int| 0 <= x < y < r@.len() implies id_lt((#[trigger] r@[x])@.node_id, (#[trigger] r@[y])@.node_id) by {
                        if y == before.len() {
                            assert(r@[x] == before[x]);
                            let b = choose|b: int| 0 <= b < a && snapshot@[b]@.id == before[x]@.node_id;
                            assert(id_lt(snapshot@[b]@.id, snapshot@[a as int]@.id));
                        } else {
                            assert(r@[x] == before[x] && r@[y] == before[y]);
                        }
                    }
                    assert forall|b: int| 0 <= b < a + 1 && #[trigger] contributes(cluster@[snapshot@[b]@.id], local_node_id@)
                        implies exists|x: int| 0 <= x < r@.len() && r@[x]@.node_id == snapshot@[b]@.id by {
                        if b < a {
                            let x = choose|x: int| 0 <= x < before.len() && before[x]@.node_id == snapshot@[b]@.id;
                            assert(r@[x] == before[x]);
                        } else {
                            assert(r@[before.len() as int]@.node_id == snapshot@[b]@.id);
                        }
                    }
                }
            },
            None => {
                proof {
                    assert forall|x: int| 0 <= x < r@.len() implies {
                        let id2 = (#[trigger] r@[x])@.node_id;
                        &&& cluster@.contains_key(id2)
                        &&& contributes(cluster@[id2], local_node_id@)
                        &&& r@[x]@ == peer_of(cluster@[id2])
                        &&& exists|b: int| 0 <= b < a + 1 && snapshot@[b]@.id == id2
                    } by {
                        let b = choose|b: int| 0 <= b < a && snapshot@[b]@.id == r@[x]@.node_id;
                        assert(0 <= b < a + 1 && snapshot@[b]@.id == r@[x]@.node_id);
                    }
                }
            },
        }
        a += 1;
    }
    proof {
        assert forall|k: Seq<char>| #[trigger] cluster@.contains_key(k) && contributes(cluster@[k], local_node_id@)
            implies exists|x: int| 0 <= x < r@.len() && r@[x]@.node_id == k by {
            let b = choose|b: int| 0 <= b < snapshot@.len() && snapshot@[b]@.id == k;
            assert(contributes(cluster@[snapshot@[b]@.id], local_node_id@));
        }
    }
    r
}

/// No device of the split reports VRAM: the local size and every peer's
/// are at most zero.
pub open spec fn vram_unreported(local_vram_gb_bits: u32, peers: Seq<RpcPeerView>) -> bool {
    f32_bits_le(local_vram_gb_bits, 0) && forall|i: int| 0 <= i < peers.len() ==> f32_bits_le(#[trigger] peers[i].vram_gb_bits, 0)
}

/// `f32::max(x, 0.1)` on bit patterns: `x` unless it is below 0.1 or NaN.
pub open spec fn floored(x: u32) -> u32 {
    if f32_bits_le(TENSOR_SPLIT_FLOOR_BITS, x) { x } else { TENSOR_SPLIT_FLOOR_BITS }
}

fn floored_exec(x: u32) -> (r: u32)
    ensures
        r == floored(x),
{
    if f32_bits_le_exec(TENSOR_SPLIT_FLOOR_BITS, x) { x } else { TENSOR_SPLIT_FLOOR_BITS }
}

/// The weight of each device of a split, local device first: its VRAM, or
/// its system memory when no device reports VRAM, floored at 0.1.
pub open spec fn tensor_split(local_vram_gb_bits: u32, local_system_memory_gb_bits: u32, peers: Seq<RpcPeerView>) -> Seq<u32> {
    if vram_unreported(local_vram_gb_bits, peers) {
        seq![floored(local_system_memory_gb_bits)] + peers.map_values(|p: RpcPeerView| floored(p.system_memory_gb_bits))
    } else {
        seq![floored(local_vram_gb_bits)] + peers.map_values(|p: RpcPeerView| floored(p.vram_gb_bits))
    }
}

/// The views of a slice of peers.
pub open spec fn peer_views(peers: Seq<RpcPeer>) -> Seq<RpcPeerView> {
    peers.map_values(|p: RpcPeer| p@)
}

/// The `--tensor-split` weights (bit patterns of `f32`): the local device
/// first, then each peer in order, as [`tensor_split`] gives them.
pub fn compute_tensor_split(local_vram_gb_bits: u32, local_system_memory_gb_bits: u32, peers: &[RpcPeer]) -> (split: Vec<u32>)
    ensures
        split@ == tensor_split(local_vram_gb_bits, local_system_memory_gb_bits, peer_views(peers@)),
{
    let ghost pv = peer_views(peers@);
    let mut unreported = f32_bits_le_exec(local_vram_gb_bits, 0);
    let mut i: usize = 0;
    while i < peers.len()
        invariant
            i <= peers@.len(),
            pv == peer_views(peers@),
            unreported == (f32_bits_le(local_vram_gb_bits, 0) && forall|j: int| 0 <= j < i ==> f32_bits_le(#[trigger] pv[j].vram_gb_bits, 0)),
        decreases peers@.len() - i,
    {
        let ghost before = unreported;
        unreported = unreported && f32_bits_le_exec(peers[i].vram_gb_bits, 0);
        proof {
            assert(pv[i as int] == peers@[i as int]@);
            if before && !unreported {
                assert(!f32_bits_le(pv[i as int].vram_gb_bits, 0));
            }
        }
        i += 1;
    }
    let mut split: Vec<u32> = Vec::new();
    if unreported {
        split.push(floored_exec(local_system_memory_gb_bits));
    } else {
        split.push(floored_exec(local_vram_gb_bits));
    }
    let ghost tail = if unreported {
        pv.map_values(|p: RpcPeerView| floored(p.system_memory_gb_bits))
    } else {
        pv.map_values(|p: RpcPeerView| floored(p.vram_gb_bits))
    };
    let mut k: usize = 0;
    while k < peers.len()
        invariant
            k <= peers@.len(),
            pv == peer_views(peers@),
            tail.len() == pv.len(),
            forall|j: int| 0 <= j < pv.len() ==> #[trigger] tail[j] == (if unreported { floored(pv[j].system_memory_gb_bits) } else { floored(pv[j].vram_gb_bits) }),
            split@.len() == k + 1,
            split@[0] == (if unreported { floored(local_system_memory_gb_bits) } else { floored(local_vram_gb_bits) }),
            forall|j: int| 0 <= j < k ==> #[trigger] split@[j + 1] == tail[j],
        decreases peers@.len() - k,
    {
        let w = if unreported { floored_exec(peers[k].system_memory_gb_bits) } else { floored_exec(peers[k].vram_gb_bits) };
        proof {
            assert(pv[k as int] == peers@[k as int]@);
        }
        split.push(w);
        k += 1;
    }
    proof {
        assert(unreported == vram_unreported(local_vram_gb_bits, pv));
        let head = if unreported { floored(local_system_memory_gb_bits) } else { floored(local_vram_gb_bits) };
        assert(split@ =~= seq![head] + tail) by {
            assert forall|j: int| 0 <= j < split@.len() implies split@[j] == (seq![head] + tail)[j] by {
                if j > 0 {
                    assert(split@[(j - 1) + 1] == tail[j - 1]);
                }
            }
        }
    }
    split
}

} // verus!

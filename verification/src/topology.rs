//! Node and topology registry: value types for ground and orbital compute
//! nodes, an aggregate capacity view, and training metrics.
use vstd::prelude::*;

use crate::errors::DistributedError;
use crate::intmath::tdiv;

verus! {

/// Kind of compute node.
#[derive(Debug, Clone, Copy, PartialEq, Eq, Structural, Hash)]
pub enum NodeType {
    /// Ground-based node.
    Ground,
    /// Orbital node.
    Orbital,
}

/// Configuration of one compute node.
#[derive(Debug, Clone)]
pub struct NodeConfig {
    /// Unique identifier.
    pub node_id: String,
    /// Ground or orbital.
    pub node_type: NodeType,
    /// Compute capacity in GFLOPS.
    pub compute_gflops: u64,
    /// Memory capacity in megabytes.
    pub memory_mb: u64,
    /// Network bandwidth in megabits per second.
    pub bandwidth_mbps: u64,
    /// Orbit altitude in meters, for orbital nodes.
    pub orbit_altitude_m: Option<u64>,
    /// Ground location in micro-degrees (latitude, longitude).
    pub location_udeg: Option<(i64, i64)>,
}

impl NodeConfig {
    /// An orbital node with default memory and bandwidth.
    pub fn orbital(node_id: &str, altitude_m: u64, compute_gflops: u64) -> (r: Self)
        ensures
            r.node_id@ == node_id@,
            r.node_type == NodeType::Orbital,
            r.compute_gflops == compute_gflops,
            r.memory_mb == 32768,
            r.bandwidth_mbps == 100,
            r.orbit_altitude_m == Option::Some(altitude_m),
            r.location_udeg is None,
    {
        NodeConfig {
            node_id: node_id.to_owned(),
            node_type: NodeType::Orbital,
            compute_gflops,
            memory_mb: 32768,
            bandwidth_mbps: 100,
            orbit_altitude_m: Option::Some(altitude_m),
            location_udeg: Option::None,
        }
    }

    /// A ground node with default memory and bandwidth.
    pub fn ground(node_id: &str, lat_udeg: i64, lon_udeg: i64, compute_gflops: u64) -> (r: Self)
        ensures
            r.node_id@ == node_id@,
            r.node_type == NodeType::Ground,
            r.compute_gflops == compute_gflops,
            r.memory_mb == 262144,
            r.bandwidth_mbps == 1000,
            r.orbit_altitude_m is None,
            r.location_udeg == Option::Some((lat_udeg, lon_udeg)),
    {
        NodeConfig {
            node_id: node_id.to_owned(),
            node_type: NodeType::Ground,
            compute_gflops,
            memory_mb: 262144,
            bandwidth_mbps: 1000,
            orbit_altitude_m: Option::None,
            location_udeg: Option::Some((lat_udeg, lon_udeg)),
        }
    }
}

/// Sum of the compute capacities of the nodes of the given kind; pass
/// `None` to sum every node.
pub open spec fn sum_gflops(s: Seq<NodeConfig>, kind: Option<NodeType>) -> int
    decreases s.len(),
{
    if s.len() == 0 {
        0
    } else {
        sum_gflops(s.drop_last(), kind) + (match kind {
            Option::Some(k) => if s.last().node_type == k {
                s.last().compute_gflops as int
            } else {
                0
            },
            Option::None => s.last().compute_gflops as int,
        })
    }
}

/// Topology of the compute infrastructure: registered nodes and declared
/// point-to-point connections.
#[derive(Debug)]
pub struct Topology {
    nodes: Vec<NodeConfig>,
    connections: Vec<(String, String, u64)>,
}

impl Topology {
    /// The registered nodes, in registration order.
    pub closed spec fn spec_nodes(&self) -> Seq<NodeConfig> {
        self.nodes@
    }

    /// The declared connections: two node ids and a bandwidth.
    pub closed spec fn spec_connections(&self) -> Seq<(String, String, u64)> {
        self.connections@
    }

    /// At most one node per id, and few enough nodes that the capacity
    /// sums stay exact.
    pub open spec fn wf(&self) -> bool {
        &&& self.spec_nodes().len() <= 65536
        &&& forall|i: int, j: int|
            0 <= i < j < self.spec_nodes().len() ==> (#[trigger] self.spec_nodes()[i]).node_id@ != (
            #[trigger] self.spec_nodes()[j]).node_id@
    }

    /// An empty topology.
    pub fn new() -> (r: Self)
        ensures
            r.spec_nodes() == Seq::<NodeConfig>::empty(),
            r.spec_connections() == Seq::<(String, String, u64)>::empty(),
            r.wf(),
    {
        Topology { nodes: Vec::new(), connections: Vec::new() }
    }

    /// Register a node, replacing any earlier node with the same id.
    pub fn add_node(&mut self, node: NodeConfig)
        requires
            old(self).wf(),
            old(self).spec_nodes().len() < 65536,
        ensures
            final(self).wf(),
            final(self).spec_connections() == old(self).spec_connections(),
            ({
                let old_n = old(self).spec_nodes();
                let new_n = final(self).spec_nodes();
                if exists|j: int| 0 <= j < old_n.len() && (#[trigger] old_n[j]).node_id@
                    == node.node_id@ {
                    exists|j: int|
                        0 <= j < old_n.len() && (#[trigger] old_n[j]).node_id@ == node.node_id@
                            && new_n == old_n.update(j, node)
                } else {
                    new_n == old_n.push(node)
                }
            }),
    {
        let mut t: usize = 0;
        while t < self.nodes.len()
            invariant
                self == old(self),
                old(self).wf(),
                t <= self.nodes@.len(),
                forall|q: int| 0 <= q < t ==> (#[trigger] self.nodes@[q]).node_id@
                    != node.node_id@,
            decreases self.nodes@.len() - t,
        {
            if self.nodes[t].node_id == node.node_id {
                let ghost oldn = self.nodes@;
                let ghost nid = node.node_id@;
                self.nodes.set(t, node);
                proof {
                    assert(oldn[t as int].node_id@ == nid);
                    assert forall|i: int, j: int|
                        0 <= i < j < self.nodes@.len() implies (
                        #[trigger] self.nodes@[i]).node_id@ != (
                        #[trigger] self.nodes@[j]).node_id@ by {
                        assert((#[trigger] oldn[i]).node_id@ != (#[trigger] oldn[j]).node_id@);
                        if i != t && j != t {
                            assert(self.nodes@[i] == oldn[i] && self.nodes@[j] == oldn[j]);
                        } else if i == t {
                            assert(self.nodes@[j] == oldn[j]);
                            assert(self.nodes@[i].node_id@ == oldn[t as int].node_id@);
                        } else {
                            assert(self.nodes@[i] == oldn[i]);
                            assert(self.nodes@[j].node_id@ == oldn[t as int].node_id@);
                        }
                    }
                }
                return ;
            }
            t = t + 1;
        }
        self.nodes.push(node);
        proof {
            let newn = self.nodes@;
            assert forall|i: int, j: int|
                0 <= i < j < newn.len() implies (#[trigger] newn[i]).node_id@ != (
                #[trigger] newn[j]).node_id@ by {
                if j == newn.len() - 1 {
                    assert(newn[i] == old(self).spec_nodes()[i]);
                    assert(old(self).spec_nodes()[i].node_id@ != node.node_id@);
                }
            }
        }
    }

    /// Remove a node and every connection that touches it.
    pub fn remove_node(&mut self, node_id: &str)
        requires
            old(self).wf(),
        ensures
            final(self).wf(),
            final(self).spec_nodes() == old(self).spec_nodes().filter(
                |n: NodeConfig| n.node_id@ != node_id@,
            ),
            final(self).spec_connections() == old(self).spec_connections().filter(
                |c: (String, String, u64)| c.0@ != node_id@ && c.1@ != node_id@,
            ),
    {
        let key: String = node_id.to_owned();
        let mut kept: Vec<NodeConfig> = Vec::new();
        let mut t: usize = 0;
        while t < self.nodes.len()
            invariant
                self == old(self),
                old(self).wf(),
                key@ == node_id@,
                t <= self.nodes@.len(),
                kept@ == self.nodes@.subrange(0, t as int).filter(
                    |n: NodeConfig| n.node_id@ != node_id@,
                ),
                forall|a: int|
                    0 <= a < kept@.len() ==> exists|t0: int|
                        0 <= t0 < t && #[trigger] kept@[a] == self.nodes@[t0],
                forall|a: int, b: int|
                    0 <= a < b < kept@.len() ==> (#[trigger] kept@[a]).node_id@ != (
                    #[trigger] kept@[b]).node_id@,
            decreases self.nodes@.len() - t,
        {
            proof {
                reveal_with_fuel(Seq::filter, 2);
                assert(self.nodes@.subrange(0, t + 1 as int).drop_last() =~= self.nodes@.subrange(
                    0,
                    t as int,
                ));
                assert(self.nodes@.subrange(0, t + 1 as int).last() == self.nodes@[t as int]);
            }
            if !(self.nodes[t].node_id == key) {
                let n = &self.nodes[t];
                let ghost pre = kept@;
                kept.push(clone_node(n));
                proof {
                    assert(kept@[kept@.len() - 1] == self.nodes@[t as int]);
                    assert forall|a: int|
                        0 <= a < kept@.len() implies exists|t0: int|
                        0 <= t0 < t + 1 && #[trigger] kept@[a] == self.nodes@[t0] by {
                        if a < pre.len() {
                            assert(kept@[a] == pre[a]);
                            let t0 = choose|t0: int|
                                0 <= t0 < t && #[trigger] pre[a] == self.nodes@[t0];
                            assert(kept@[a] == self.nodes@[t0]);
                        } else {
                            assert(kept@[a] == self.nodes@[t as int]);
                        }
                    }
                    assert forall|a: int, b: int|
                        0 <= a < b < kept@.len() implies (#[trigger] kept@[a]).node_id@ != (
                        #[trigger] kept@[b]).node_id@ by {
                        if b == kept@.len() - 1 {
                            assert(kept@[a] == pre[a]);
                            let t0 = choose|t0: int|
                                0 <= t0 < t && #[trigger] pre[a] == self.nodes@[t0];
                            assert(self.nodes@[t0].node_id@ != self.nodes@[t as int].node_id@);
                        } else {
                            assert(kept@[a] == pre[a] && kept@[b] == pre[b]);
                        }
                    }
                }
            }
            t = t + 1;
        }
        proof {
            assert(self.nodes@.subrange(0, self.nodes@.len() as int) =~= self.nodes@);
        }
        let mut kept_conns: Vec<(String, String, u64)> = Vec::new();
        let mut c: usize = 0;
        while c < self.connections.len()
            invariant
                self == old(self),
                key@ == node_id@,
                c <= self.connections@.len(),
                kept_conns@ == self.connections@.subrange(0, c as int).filter(
                    |cc: (String, String, u64)| cc.0@ != node_id@ && cc.1@ != node_id@,
                ),
            decreases self.connections@.len() - c,
        {
            proof {
                reveal_with_fuel(Seq::filter, 2);
                assert(self.connections@.subrange(0, c + 1 as int).drop_last() =~= self
                    .connections@.subrange(0, c as int));
                assert(self.connections@.subrange(0, c + 1 as int).last()
                    == self.connections@[c as int]);
            }
            let keep = !(self.connections[c].0 == key) && !(self.connections[c].1 == key);
            if keep {
                let cc = &self.connections[c];
                kept_conns.push((cc.0.clone(), cc.1.clone(), cc.2));
            }
            c = c + 1;
        }
        proof {
            assert(self.connections@.subrange(0, self.connections@.len() as int) =~= self
                .connections@);
        }
        proof {
            old(self).spec_nodes().lemma_filter_len(|n: NodeConfig| n.node_id@ != node_id@);
        }
        self.nodes = kept;
        self.connections = kept_conns;
    }

    /// Declare a connection between two registered nodes; rejects a
    /// reference to an unknown node id.
    pub fn add_connection(&mut self, node1_id: &str, node2_id: &str, bandwidth_mbps: u64) -> (r:
        Result<(), DistributedError>)
        requires
            old(self).wf(),
        ensures
            final(self).wf(),
            final(self).spec_nodes() == old(self).spec_nodes(),
            r is Ok <==> (known_node(old(self).spec_nodes(), node1_id@) && known_node(
                old(self).spec_nodes(),
                node2_id@,
            )),
            r is Ok ==> ({
                let oldc = old(self).spec_connections();
                let newc = final(self).spec_connections();
                &&& newc.len() == oldc.len() + 1
                &&& newc.last().0@ == node1_id@
                &&& newc.last().1@ == node2_id@
                &&& newc.last().2 == bandwidth_mbps
                &&& newc.subrange(0, oldc.len() as int) == oldc
            }),
            r is Err ==> r == Result::<(), DistributedError>::Err(
                DistributedError::InvalidReference,
            ) && final(self).spec_connections() == old(self).spec_connections(),
    {
        let has1 = self.contains_node(node1_id);
        let has2 = self.contains_node(node2_id);
        if !has1 || !has2 {
            return Result::Err(DistributedError::InvalidReference);
        }
        self.connections.push((node1_id.to_owned(), node2_id.to_owned(), bandwidth_mbps));
        proof {
            assert(self.connections@.subrange(0, self.connections@.len() - 1) =~= old(
                self,
            ).spec_connections());
        }
        Result::Ok(())
    }

    /// Whether a node with the given id is registered.
    pub fn contains_node(&self, node_id: &str) -> (r: bool)
        ensures
            r == known_node(self.spec_nodes(), node_id@),
    {
        let key: String = node_id.to_owned();
        let mut t: usize = 0;
        while t < self.nodes.len()
            invariant
                key@ == node_id@,
                t <= self.nodes@.len(),
                forall|q: int| 0 <= q < t ==> (#[trigger] self.nodes@[q]).node_id@ != node_id@,
            decreases self.nodes@.len() - t,
        {
            if self.nodes[t].node_id == key {
                return true;
            }
            t = t + 1;
        }
        false
    }

    /// The registered node with the given id, if any.
    pub fn get_node(&self, node_id: &str) -> (r: Option<&NodeConfig>)
        ensures
            r is Some <==> known_node(self.spec_nodes(), node_id@),
            r matches Some(n) ==> exists|t: int|
                0 <= t < self.spec_nodes().len() && *n == (#[trigger] self.spec_nodes()[t])
                    && n.node_id@ == node_id@,
    {
        let key: String = node_id.to_owned();
        let mut t: usize = 0;
        while t < self.nodes.len()
            invariant
                key@ == node_id@,
                t <= self.nodes@.len(),
                forall|q: int| 0 <= q < t ==> (#[trigger] self.nodes@[q]).node_id@ != node_id@,
            decreases self.nodes@.len() - t,
        {
            if self.nodes[t].node_id == key {
                return Option::Some(&self.nodes[t]);
            }
            t = t + 1;
        }
        Option::None
    }

    /// All ground nodes, in registration order.
    pub fn ground_nodes(&self) -> (r: Vec<NodeConfig>)
        ensures
            r@ == self.spec_nodes().filter(|n: NodeConfig| n.node_type == NodeType::Ground),
    {
        self.nodes_of_kind(NodeType::Ground)
    }

    /// All orbital nodes, in registration order.
    pub fn orbital_nodes(&self) -> (r: Vec<NodeConfig>)
        ensures
            r@ == self.spec_nodes().filter(|n: NodeConfig| n.node_type == NodeType::Orbital),
    {
        self.nodes_of_kind(NodeType::Orbital)
    }

    fn nodes_of_kind(&self, kind: NodeType) -> (r: Vec<NodeConfig>)
        ensures
            r@ == self.spec_nodes().filter(|n: NodeConfig| n.node_type == kind),
    {
        let mut r: Vec<NodeConfig> = Vec::new();
        let mut t: usize = 0;
        while t < self.nodes.len()
            invariant
                t <= self.nodes@.len(),
                r@ == self.nodes@.subrange(0, t as int).filter(
                    |n: NodeConfig| n.node_type == kind,
                ),
            decreases self.nodes@.len() - t,
        {
            proof {
                reveal_with_fuel(Seq::filter, 2);
                assert(self.nodes@.subrange(0, t + 1 as int).drop_last() =~= self.nodes@.subrange(
                    0,
                    t as int,
                ));
                assert(self.nodes@.subrange(0, t + 1 as int).last() == self.nodes@[t as int]);
            }
            if self.nodes[t].node_type == kind {
                let n = &self.nodes[t];
                r.push(clone_node(n));
            }
            t = t + 1;
        }
        proof {
            assert(self.nodes@.subrange(0, self.nodes@.len() as int) =~= self.nodes@);
        }
        r
    }

    /// Total compute capacity across all nodes, saturating at `u64::MAX`.
    pub fn total_compute_gflops(&self) -> (r: u64)
        ensures
            r as int == if sum_gflops(self.spec_nodes(), Option::None) <= u64::MAX as int {
                sum_gflops(self.spec_nodes(), Option::None)
            } else {
                u64::MAX as int
            },
    {
        self.compute_sum(Option::None)
    }

    /// Total ground compute capacity, saturating at `u64::MAX`.
    pub fn ground_compute_gflops(&self) -> (r: u64)
        ensures
            r as int == if sum_gflops(self.spec_nodes(), Option::Some(NodeType::Ground))
                <= u64::MAX as int {
                sum_gflops(self.spec_nodes(), Option::Some(NodeType::Ground))
            } else {
                u64::MAX as int
            },
    {
        self.compute_sum(Option::Some(NodeType::Ground))
    }

    /// Total orbital compute capacity, saturating at `u64::MAX`.
    pub fn orbital_compute_gflops(&self) -> (r: u64)
        ensures
            r as int == if sum_gflops(self.spec_nodes(), Option::Some(NodeType::Orbital))
                <= u64::MAX as int {
                sum_gflops(self.spec_nodes(), Option::Some(NodeType::Orbital))
            } else {
                u64::MAX as int
            },
    {
        self.compute_sum(Option::Some(NodeType::Orbital))
    }

    fn compute_sum(&self, kind: Option<NodeType>) -> (r: u64)
        ensures
            r as int == if sum_gflops(self.spec_nodes(), kind) <= u64::MAX as int {
                sum_gflops(self.spec_nodes(), kind)
            } else {
                u64::MAX as int
            },
    {
        let mut acc: u64 = 0;
        let mut t: usize = 0;
        while t < self.nodes.len()
            invariant
                t <= self.nodes@.len(),
                acc as int == if sum_gflops(self.nodes@.subrange(0, t as int), kind) <= u64::MAX
                    as int {
                    sum_gflops(self.nodes@.subrange(0, t as int), kind)
                } else {
                    u64::MAX as int
                },
            decreases self.nodes@.len() - t,
        {
            proof {
                assert(self.nodes@.subrange(0, t + 1 as int).drop_last() =~= self.nodes@.subrange(
                    0,
                    t as int,
                ));
                assert(self.nodes@.subrange(0, t + 1 as int).last() == self.nodes@[t as int]);
            }
            let add: u64 = match kind {
                Option::Some(k) => if self.nodes[t].node_type == k {
                    self.nodes[t].compute_gflops
                } else {
                    0
                },
                Option::None => self.nodes[t].compute_gflops,
            };
            if acc > u64::MAX - add {
                acc = u64::MAX;
            } else {
                acc = acc + add;
            }
            t = t + 1;
        }
        proof {
            assert(self.nodes@.subrange(0, self.nodes@.len() as int) =~= self.nodes@);
        }
        acc
    }

    /// Number of registered nodes.
    pub fn node_count(&self) -> (r: usize)
        ensures
            r == self.spec_nodes().len(),
    {
        self.nodes.len()
    }
}

/// Whether a node with the given id occurs in the sequence.
pub open spec fn known_node(nodes: Seq<NodeConfig>, id: Seq<char>) -> bool {
    exists|t: int| 0 <= t < nodes.len() && (#[trigger] nodes[t]).node_id@ == id
}

fn clone_node(n: &NodeConfig) -> (r: NodeConfig)
    ensures
        r == *n,
{
    NodeConfig {
        node_id: n.node_id.clone(),
        node_type: n.node_type,
        compute_gflops: n.compute_gflops,
        memory_mb: n.memory_mb,
        bandwidth_mbps: n.bandwidth_mbps,
        orbit_altitude_m: match n.orbit_altitude_m {
            Option::Some(a) => Option::Some(a),
            Option::None => Option::None,
        },
        location_udeg: match n.location_udeg {
            Option::Some(l) => Option::Some(l),
            Option::None => Option::None,
        },
    }
}


/// Addition on byte and time counters that sticks at the maximum instead
/// of wrapping.
pub open spec fn sat_add64(a: int, b: int) -> int {
    if a + b <= u64::MAX as int {
        a + b
    } else {
        u64::MAX as int
    }
}

fn sat_add(a: u64, b: u64) -> (r: u64)
    ensures
        r as int == sat_add64(a as int, b as int),
{
    if a > u64::MAX - b {
        u64::MAX
    } else {
        a + b
    }
}

/// Sum of a loss history, in the caller's fixed-point loss units.
pub open spec fn sum_loss(s: Seq<i64>) -> int
    decreases s.len(),
{
    if s.len() == 0 {
        0
    } else {
        sum_loss(s.drop_last()) + s.last()
    }
}

/// Metrics for distributed training. Times are milliseconds, losses are
/// fixed-point micro-units, ratios are parts per million.
#[derive(Debug)]
pub struct TrainingMetrics {
    /// Training steps completed.
    pub total_steps: u64,
    /// Samples processed.
    pub total_samples: u64,
    /// Bytes uploaded.
    pub bytes_uploaded: u64,
    /// Bytes downloaded.
    pub bytes_downloaded: u64,
    /// Synchronization events.
    pub sync_count: u64,
    /// Compute time in milliseconds.
    pub compute_time_ms: u64,
    /// Communication time in milliseconds.
    pub communication_time_ms: u64,
    /// Idle time in milliseconds.
    pub idle_time_ms: u64,
    /// Loss per step, in micro-units.
    pub loss_history: Vec<i64>,
    /// Compression ratio achieved, parts per million.
    pub compression_ratio_ppm: u64,
    /// Sparsity achieved, parts per million.
    pub sparsity_achieved_ppm: u64,
}

impl TrainingMetrics {
    /// Fresh metrics: everything zero, ratio one.
    pub fn new() -> (r: Self)
        ensures
            r.total_steps == 0,
            r.total_samples == 0,
            r.bytes_uploaded == 0,
            r.bytes_downloaded == 0,
            r.sync_count == 0,
            r.compute_time_ms == 0,
            r.communication_time_ms == 0,
            r.idle_time_ms == 0,
            r.loss_history@ == Seq::<i64>::empty(),
            r.compression_ratio_ppm == 1000000,
            r.sparsity_achieved_ppm == 0,
    {
        TrainingMetrics {
            total_steps: 0,
            total_samples: 0,
            bytes_uploaded: 0,
            bytes_downloaded: 0,
            sync_count: 0,
            compute_time_ms: 0,
            communication_time_ms: 0,
            idle_time_ms: 0,
            loss_history: Vec::new(),
            compression_ratio_ppm: 1000000,
            sparsity_achieved_ppm: 0,
        }
    }

    /// Record the end of one training step; counters saturate instead of
    /// wrapping.
    pub fn end_step(&mut self, loss: Option<i64>, samples: u64, duration_ms: u64)
        ensures
            final(self).compute_time_ms as int == sat_add64(
                old(self).compute_time_ms as int,
                duration_ms as int,
            ),
            final(self).total_steps as int == sat_add64(old(self).total_steps as int, 1),
            final(self).total_samples as int == sat_add64(
                old(self).total_samples as int,
                samples as int,
            ),
            final(self).loss_history@ == (match loss {
                Option::Some(l) => old(self).loss_history@.push(l),
                Option::None => old(self).loss_history@,
            }),
            final(self).bytes_uploaded == old(self).bytes_uploaded,
            final(self).bytes_downloaded == old(self).bytes_downloaded,
            final(self).sync_count == old(self).sync_count,
            final(self).communication_time_ms == old(self).communication_time_ms,
            final(self).idle_time_ms == old(self).idle_time_ms,
            final(self).compression_ratio_ppm == old(self).compression_ratio_ppm,
            final(self).sparsity_achieved_ppm == old(self).sparsity_achieved_ppm,
    {
        self.compute_time_ms = sat_add(self.compute_time_ms, duration_ms);
        self.total_steps = sat_add(self.total_steps, 1);
        self.total_samples = sat_add(self.total_samples, samples);
        match loss {
            Option::Some(l) => self.loss_history.push(l),
            Option::None => {},
        }
    }

    /// Record one synchronization event; counters saturate instead of
    /// wrapping.
    pub fn record_sync(&mut self, bytes_up: u64, bytes_down: u64, duration_ms: u64)
        ensures
            final(self).bytes_uploaded as int == sat_add64(
                old(self).bytes_uploaded as int,
                bytes_up as int,
            ),
            final(self).bytes_downloaded as int == sat_add64(
                old(self).bytes_downloaded as int,
                bytes_down as int,
            ),
            final(self).communication_time_ms as int == sat_add64(
                old(self).communication_time_ms as int,
                duration_ms as int,
            ),
            final(self).sync_count as int == sat_add64(old(self).sync_count as int, 1),
            final(self).total_steps == old(self).total_steps,
            final(self).total_samples == old(self).total_samples,
            final(self).compute_time_ms == old(self).compute_time_ms,
            final(self).idle_time_ms == old(self).idle_time_ms,
            final(self).loss_history == old(self).loss_history,
            final(self).compression_ratio_ppm == old(self).compression_ratio_ppm,
            final(self).sparsity_achieved_ppm == old(self).sparsity_achieved_ppm,
    {
        self.bytes_uploaded = sat_add(self.bytes_uploaded, bytes_up);
        self.bytes_downloaded = sat_add(self.bytes_downloaded, bytes_down);
        self.communication_time_ms = sat_add(self.communication_time_ms, duration_ms);
        self.sync_count = sat_add(self.sync_count, 1);
    }

    /// Total bytes moved in either direction, saturating.
    pub fn total_bytes_transferred(&self) -> (r: u64)
        ensures
            r as int == sat_add64(self.bytes_uploaded as int, self.bytes_downloaded as int),
    {
        sat_add(self.bytes_uploaded, self.bytes_downloaded)
    }

    /// Share of total time spent computing, in thousandths; zero when no
    /// time has been recorded.
    pub fn compute_efficiency_permille(&self) -> (r: u64)
        ensures
            ({
                let total = self.compute_time_ms as int + self.communication_time_ms as int
                    + self.idle_time_ms as int;
                r as int == if total == 0 {
                    0int
                } else {
                    (self.compute_time_ms as int) * 1000 / total
                }
            }),
    {
        let total: u128 = self.compute_time_ms as u128 + self.communication_time_ms as u128
            + self.idle_time_ms as u128;
        if total == 0 {
            return 0;
        }
        proof {
            let c = self.compute_time_ms as int;
            vstd::arithmetic::div_mod::lemma_div_pos_is_pos(c * 1000, total as int);
            vstd::arithmetic::div_mod::lemma_div_is_ordered(c * 1000, (total as int) * 1000, total as int);
            vstd::arithmetic::div_mod::lemma_div_by_multiple(1000, total as int);
        }
        (((self.compute_time_ms as u128) * 1000) / total) as u64
    }

    /// Communication time relative to compute time, in thousandths,
    /// saturating; the maximum when no compute time has been recorded.
    pub fn communication_overhead_permille(&self) -> (r: u64)
        ensures
            self.compute_time_ms == 0 ==> r == u64::MAX,
            self.compute_time_ms > 0 ==> r as int == ({
                let v = (self.communication_time_ms as int) * 1000 / (self.compute_time_ms as int);
                if v <= u64::MAX as int {
                    v
                } else {
                    u64::MAX as int
                }
            }),
    {
        if self.compute_time_ms == 0 {
            return u64::MAX;
        }
        proof {
            let m = self.communication_time_ms as int;
            let c = self.compute_time_ms as int;
            vstd::arithmetic::div_mod::lemma_div_pos_is_pos(m * 1000, c);
        }
        let v: u128 = ((self.communication_time_ms as u128) * 1000) / (self.compute_time_ms
            as u128);
        if v > u64::MAX as u128 {
            u64::MAX
        } else {
            v as u64
        }
    }

    /// Mean loss over all recorded steps, truncated toward zero; `None`
    /// when no loss was recorded.
    pub fn average_loss(&self) -> (r: Option<i64>)
        requires
            forall|i: int|
                0 <= i < self.loss_history@.len() ==> -1000000000000
                    <= #[trigger] self.loss_history@[i] <= 1000000000000,
        ensures
            r is None <==> self.loss_history@.len() == 0,
            r matches Some(a) ==> a as int == tdiv(
                sum_loss(self.loss_history@),
                self.loss_history@.len() as int,
            ),
    {
        let n = self.loss_history.len();
        if n == 0 {
            return Option::None;
        }
        proof {
            lemma_sum_loss_bound(self.loss_history@);
        }
        let mut acc: i128 = 0;
        let mut t: usize = 0;
        while t < n
            invariant
                n == self.loss_history@.len(),
                forall|i: int|
                    0 <= i < self.loss_history@.len() ==> -1000000000000
                        <= #[trigger] self.loss_history@[i] <= 1000000000000,
                t <= n,
                acc as int == sum_loss(self.loss_history@.subrange(0, t as int)),
                -(t as int) * 1000000000000 <= acc as int <= (t as int) * 1000000000000,
            decreases n - t,
        {
            proof {
                assert(self.loss_history@.subrange(0, t + 1 as int).drop_last() =~= self
                    .loss_history@.subrange(0, t as int));
                assert(self.loss_history@.subrange(0, t + 1 as int).last()
                    == self.loss_history@[t as int]);
                assert((t as int) * 1000000000000 + 1000000000000 == (t + 1) * 1000000000000)
                    by (nonlinear_arith);
                assert((t + 1) * 1000000000000 <= 0x10000000000000000 * 1000000000000)
                    by (nonlinear_arith)
                    requires
                        0 <= t + 1 <= 0x10000000000000000,
                ;
            }
            acc = acc + (self.loss_history[t] as i128);
            t = t + 1;
        }
        proof {
            assert(self.loss_history@.subrange(0, n as int) =~= self.loss_history@);
        }
        let avg = crate::intmath::tdiv_i128(acc, n as u128);
        proof {
            let su = sum_loss(self.loss_history@);
            if su >= 0 {
                vstd::arithmetic::div_mod::lemma_div_is_ordered(su, (n as int) * 1000000000000, n as int);
                vstd::arithmetic::div_mod::lemma_div_by_multiple(1000000000000, n as int);
                vstd::arithmetic::div_mod::lemma_div_pos_is_pos(su, n as int);
            } else {
                vstd::arithmetic::div_mod::lemma_div_is_ordered(-su, (n as int) * 1000000000000, n as int);
                vstd::arithmetic::div_mod::lemma_div_by_multiple(1000000000000, n as int);
                vstd::arithmetic::div_mod::lemma_div_pos_is_pos(-su, n as int);
            }
        }
        Option::Some(avg as i64)
    }

    /// The most recent loss value, if any.
    pub fn latest_loss(&self) -> (r: Option<i64>)
        ensures
            r is None <==> self.loss_history@.len() == 0,
            r matches Some(l) ==> l == self.loss_history@.last(),
    {
        if self.loss_history.len() == 0 {
            Option::None
        } else {
            Option::Some(self.loss_history[self.loss_history.len() - 1])
        }
    }
}

proof fn lemma_sum_loss_bound(s: Seq<i64>)
    requires
        forall|i: int| 0 <= i < s.len() ==> -1000000000000 <= #[trigger] s[i] <= 1000000000000,
    ensures
        -(s.len() as int) * 1000000000000 <= sum_loss(s) <= (s.len() as int) * 1000000000000,
    decreases s.len(),
{
    if s.len() > 0 {
        let pre = s.drop_last();
        assert forall|i: int| 0 <= i < pre.len() implies -1000000000000 <= #[trigger] pre[i]
            <= 1000000000000 by {
            assert(pre[i] == s[i]);
        }
        lemma_sum_loss_bound(pre);
        assert((pre.len() as int) * 1000000000000 + 1000000000000 == (s.len() as int)
            * 1000000000000) by (nonlinear_arith)
            requires
                s.len() == pre.len() + 1,
        ;
    }
}

} // verus!

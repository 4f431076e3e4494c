//! Splitting a layered model between ground and orbital execution.
//!
//! A partition is a single cut index: layers before the cut run on the
//! ground, layers from the cut on run in orbit, and the activation crossing
//! the cut pays one uplink transfer plus propagation delay.
use vstd::prelude::*;

use crate::text::{dec_str, u64_to_dec_string};

verus! {

/// Kind of neural-network layer.
#[derive(Debug, Clone, Copy, PartialEq, Eq, Structural)]
pub enum LayerType {
    /// Fully connected layer.
    Linear,
    /// Two-dimensional convolution.
    Conv2d,
    /// Attention block.
    Attention,
    /// Token embedding.
    Embedding,
    /// Normalization layer.
    Normalization,
    /// Activation function.
    Activation,
    /// Pooling layer.
    Pooling,
    /// Anything else.
    Other,
}

/// Where a layer runs.
#[derive(Debug, Clone, Copy, PartialEq, Eq, Structural)]
pub enum PlacementLocation {
    /// On a ground node.
    Ground,
    /// On an orbital node.
    Orbital,
    /// Split across both.
    Split,
}

/// Objective driving the choice of cut.
#[derive(Debug, Clone, Copy, PartialEq, Eq, Structural)]
pub enum OptimizationObjective {
    /// Exhaustively minimize end-to-end latency.
    MinimizeLatency,
    /// Cut after the layer with the smallest output.
    MinimizeBandwidth,
    /// Balance compute load against capacity.
    Balance,
    /// Treated as load balancing.
    MaximizeThroughput,
}

/// Compute and transfer profile of a single layer.
#[derive(Debug, Clone)]
pub struct LayerProfile {
    /// Layer name.
    pub name: String,
    /// Layer kind.
    pub layer_type: LayerType,
    /// Parameter count.
    pub params: u64,
    /// Floating-point operations per forward pass.
    pub flops: u64,
    /// Input activation size in bytes.
    pub input_size: u64,
    /// Output activation size in bytes.
    pub output_size: u64,
}

/// A layer small enough that per-model sums and latency terms cannot
/// overflow the machine arithmetic used here.
pub open spec fn layer_ok(l: LayerProfile) -> bool {
    &&& l.params <= 0x100000000000
    &&& l.flops <= 0x1000000000000000
    &&& l.input_size <= 0x10000000000
    &&& l.output_size <= 0x10000000000
}

/// Ordered sequence of layers making up a model.
#[derive(Debug, Clone)]
pub struct ModelProfile {
    /// Layers in execution order; the order defines the only axis along
    /// which a cut is chosen.
    pub layers: Vec<LayerProfile>,
    /// Model name.
    pub name: String,
}

/// A model whose layer count and per-layer magnitudes are bounded, so that
/// the optimizer's arithmetic stays exact.
pub open spec fn model_ok(m: ModelProfile) -> bool {
    &&& m.layers@.len() <= 65536
    &&& forall|i: int| 0 <= i < m.layers@.len() ==> layer_ok(#[trigger] m.layers@[i])
}

/// Sum of the `flops` fields of a sequence of layers.
pub open spec fn sum_flops(s: Seq<LayerProfile>) -> int
    decreases s.len(),
{
    if s.len() == 0 {
        0
    } else {
        sum_flops(s.drop_last()) + s.last().flops
    }
}

/// Sum of the `params` fields of a sequence of layers.
pub open spec fn sum_params(s: Seq<LayerProfile>) -> int
    decreases s.len(),
{
    if s.len() == 0 {
        0
    } else {
        sum_params(s.drop_last()) + s.last().params
    }
}

/// FLOPs of the first `k` layers.
pub open spec fn prefix_flops(s: Seq<LayerProfile>, k: int) -> int {
    sum_flops(s.subrange(0, k))
}

proof fn lemma_sum_flops_bound(s: Seq<LayerProfile>)
    requires
        forall|i: int| 0 <= i < s.len() ==> #[trigger] s[i].flops <= 0x1000000000000000,
    ensures
        0 <= sum_flops(s) <= s.len() * 0x1000000000000000,
    decreases s.len(),
{
    if s.len() == 0 {
    } else {
        lemma_sum_flops_bound(s.drop_last());
        assert((s.len() - 1) * 0x1000000000000000 + 0x1000000000000000 == s.len()
            * 0x1000000000000000) by (nonlinear_arith);
    }
}

/// The name given to the attention block of transformer layer `i`.
pub open spec fn attention_name(i: nat) -> Seq<char> {
    "layer_"@ + dec_str(i) + "_attention"@
}

/// The name given to the feed-forward block of transformer layer `i`.
pub open spec fn ffn_name(i: nat) -> Seq<char> {
    "layer_"@ + dec_str(i) + "_ffn"@
}

impl ModelProfile {
    /// Create an empty profile.
    pub fn new(name: &str) -> (r: Self)
        ensures
            r.layers@ == Seq::<LayerProfile>::empty(),
            r.name@ == name@,
    {
        ModelProfile { layers: Vec::new(), name: name.to_owned() }
    }

    /// Append a layer.
    pub fn add_layer(&mut self, layer: LayerProfile)
        ensures
            final(self).layers@ == old(self).layers@.push(layer),
            final(self).name == old(self).name,
    {
        self.layers.push(layer);
    }

    /// Build the profile of a typical decoder transformer: an embedding,
    /// `num_layers` pairs of attention and feed-forward blocks, and an
    /// output projection.
    pub fn create_transformer(
        num_layers: usize,
        hidden_size: usize,
        vocab_size: usize,
        seq_length: usize,
    ) -> (r: Self)
        requires
            num_layers <= 4096,
            0 < hidden_size <= 32768,
            0 < vocab_size <= 1048576,
            0 < seq_length <= 32768,
        ensures
            r.name@ == "transformer"@,
            r.layers@.len() == 2 + 2 * num_layers,
            model_ok(r),
            ({
                let h = hidden_size as int;
                let v = vocab_size as int;
                let s = seq_length as int;
                let emb = r.layers@[0];
                &&& emb.name@ == "embedding"@
                &&& emb.layer_type == LayerType::Embedding
                &&& emb.params == v * h
                &&& emb.flops == s * h
                &&& emb.input_size == s * 4
                &&& emb.output_size == s * h * 4
            }),
            forall|i: int|
                0 <= i < num_layers ==> {
                    let h = hidden_size as int;
                    let s = seq_length as int;
                    let attn = #[trigger] r.layers@[1 + 2 * i];
                    let ffn = r.layers@[2 + 2 * i];
                    &&& attn.name@ == attention_name(i as nat)
                    &&& attn.layer_type == LayerType::Attention
                    &&& attn.params == 4 * h * h
                    &&& attn.flops == 2 * s * s * h + 4 * s * h * h
                    &&& attn.input_size == s * h * 4
                    &&& attn.output_size == s * h * 4
                    &&& ffn.name@ == ffn_name(i as nat)
                    &&& ffn.layer_type == LayerType::Linear
                    &&& ffn.params == 8 * h * h
                    &&& ffn.flops == 8 * s * h * h
                    &&& ffn.input_size == s * h * 4
                    &&& ffn.output_size == s * h * 4
                },
            ({
                let h = hidden_size as int;
                let v = vocab_size as int;
                let s = seq_length as int;
                let out = r.layers@[r.layers@.len() - 1];
                &&& out.name@ == "output"@
                &&& out.layer_type == LayerType::Linear
                &&& out.params == h * v
                &&& out.flops == s * h * v
                &&& out.input_size == s * h * 4
                &&& out.output_size == s * v * 4
            }),
    {
        let h: u64 = hidden_size as u64;
        let v: u64 = vocab_size as u64;
        let s: u64 = seq_length as u64;
        proof {
            let hi = h as int;
            let vi = v as int;
            let si = s as int;
            assert(vi * hi <= 0x800000000 && hi * vi <= 0x800000000 && si * hi <= 0x40000000 && si
                * 4 <= 0x20000 && si * hi * 4 <= 0x100000000) by (nonlinear_arith)
                requires
                    0 < hi <= 32768,
                    0 < vi <= 1048576,
                    0 < si <= 32768,
            ;
            assert(si * vi <= 0x800000000 && si * vi * 4 <= 0x2000000000 && si * hi * vi
                <= 0x4000000000000) by (nonlinear_arith)
                requires
                    0 < hi <= 32768,
                    0 < vi <= 1048576,
                    0 < si <= 32768,
            ;
        }
        let mut profile = Self::new("transformer");

        profile.add_layer(
            LayerProfile {
                name: String::from_str("embedding"),
                layer_type: LayerType::Embedding,
                params: v * h,
                flops: s * h,
                input_size: s * 4,
                output_size: s * h * 4,
            },
        );

        let mut i: usize = 0;
        while i < num_layers
            invariant
                i <= num_layers <= 4096,
                h == hidden_size && v == vocab_size && s == seq_length,
                0 < h <= 32768,
                0 < v <= 1048576,
                0 < s <= 32768,
                profile.name@ == "transformer"@,
                profile.layers@.len() == 1 + 2 * i,
                forall|j: int|
                    0 <= j < profile.layers@.len() ==> layer_ok(#[trigger] profile.layers@[j]),
                ({
                    let emb = profile.layers@[0];
                    &&& emb.name@ == "embedding"@
                    &&& emb.layer_type == LayerType::Embedding
                    &&& emb.params == v * h
                    &&& emb.flops == s * h
                    &&& emb.input_size == s * 4
                    &&& emb.output_size == s * h * 4
                }),
                forall|j: int|
                    0 <= j < i ==> {
                        let attn = #[trigger] profile.layers@[1 + 2 * j];
                        let ffn = profile.layers@[2 + 2 * j];
                        &&& attn.name@ == attention_name(j as nat)
                        &&& attn.layer_type == LayerType::Attention
                        &&& attn.params == 4 * (h as int) * (h as int)
                        &&& attn.flops == 2 * (s as int) * (s as int) * (h as int) + 4 * (s as int)
                            * (h as int) * (h as int)
                        &&& attn.input_size == (s as int) * (h as int) * 4
                        &&& attn.output_size == (s as int) * (h as int) * 4
                        &&& ffn.name@ == ffn_name(j as nat)
                        &&& ffn.layer_type == LayerType::Linear
                        &&& ffn.params == 8 * (h as int) * (h as int)
                        &&& ffn.flops == 8 * (s as int) * (h as int) * (h as int)
                        &&& ffn.input_size == (s as int) * (h as int) * 4
                        &&& ffn.output_size == (s as int) * (h as int) * 4
                    },
            decreases num_layers - i,
        {
            proof {
                let hi = h as int;
                let si = s as int;
                assert(4 * hi * hi <= 0x100000000 && 8 * hi * hi <= 0x200000000 && 2 * si * si
                    <= 0x80000000 && 2 * si * si * hi <= 0x400000000000) by (nonlinear_arith)
                    requires
                        0 < hi <= 32768,
                        0 < si <= 32768,
                ;
                assert(4 * si * hi <= 0x100000000 && 4 * si * hi * hi <= 0x800000000000 && 8 * si
                    * hi <= 0x200000000 && 8 * si * hi * hi <= 0x1000000000000 && si * hi
                    <= 0x40000000 && si * hi * 4 <= 0x100000000) by (nonlinear_arith)
                    requires
                        0 < hi <= 32768,
                        0 < si <= 32768,
                ;
            }
            let mut attn_name_s = String::from_str("layer_");
            let digits = u64_to_dec_string(i as u64);
            attn_name_s.append(digits.as_str());
            attn_name_s.append("_attention");
            let mut ffn_name_s = String::from_str("layer_");
            ffn_name_s.append(digits.as_str());
            ffn_name_s.append("_ffn");
            proof {
                assert(attn_name_s@ =~= attention_name(i as nat));
                assert(ffn_name_s@ =~= ffn_name(i as nat));
            }
            profile.add_layer(
                LayerProfile {
                    name: attn_name_s,
                    layer_type: LayerType::Attention,
                    params: 4 * h * h,
                    flops: 2 * s * s * h + 4 * s * h * h,
                    input_size: s * h * 4,
                    output_size: s * h * 4,
                },
            );
            profile.add_layer(
                LayerProfile {
                    name: ffn_name_s,
                    layer_type: LayerType::Linear,
                    params: 8 * h * h,
                    flops: 8 * s * h * h,
                    input_size: s * h * 4,
                    output_size: s * h * 4,
                },
            );
            i = i + 1;
        }

        profile.add_layer(
            LayerProfile {
                name: String::from_str("output"),
                layer_type: LayerType::Linear,
                params: h * v,
                flops: s * h * v,
                input_size: s * h * 4,
                output_size: s * v * 4,
            },
        );
        proof {
            assert(model_ok(profile));
        }
        profile
    }

    /// Total parameter count, saturating at `u64::MAX`.
    pub fn total_params(&self) -> (r: u64)
        ensures
            r as int == if sum_params(self.layers@) <= u64::MAX as int {
                sum_params(self.layers@)
            } else {
                u64::MAX as int
            },
    {
        let mut acc: u64 = 0;
        let mut k: usize = 0;
        while k < self.layers.len()
            invariant
                k <= self.layers.len(),
                acc as int == if sum_params(self.layers@.subrange(0, k as int)) <= u64::MAX as int {
                    sum_params(self.layers@.subrange(0, k as int))
                } else {
                    u64::MAX as int
                },
            decreases self.layers.len() - k,
        {
            let p = self.layers[k].params;
            proof {
                assert(self.layers@.subrange(0, k + 1 as int).drop_last() =~= self.layers@.subrange(
                    0,
                    k as int,
                ));
                assert(self.layers@.subrange(0, k + 1 as int).last() == self.layers@[k as int]);
            }
            if acc > u64::MAX - p {
                acc = u64::MAX;
            } else {
                acc = acc + p;
            }
            k = k + 1;
        }
        proof {
            assert(self.layers@.subrange(0, self.layers@.len() as int) =~= self.layers@);
        }
        acc
    }

    /// Total FLOPs per forward pass, saturating at `u64::MAX`.
    pub fn total_flops(&self) -> (r: u64)
        ensures
            r as int == if sum_flops(self.layers@) <= u64::MAX as int {
                sum_flops(self.layers@)
            } else {
                u64::MAX as int
            },
    {
        let mut acc: u64 = 0;
        let mut k: usize = 0;
        while k < self.layers.len()
            invariant
                k <= self.layers.len(),
                acc as int == if sum_flops(self.layers@.subrange(0, k as int)) <= u64::MAX as int {
                    sum_flops(self.layers@.subrange(0, k as int))
                } else {
                    u64::MAX as int
                },
            decreases self.layers.len() - k,
        {
            let f = self.layers[k].flops;
            proof {
                assert(self.layers@.subrange(0, k + 1 as int).drop_last() =~= self.layers@.subrange(
                    0,
                    k as int,
                ));
                assert(self.layers@.subrange(0, k + 1 as int).last() == self.layers@[k as int]);
            }
            if acc > u64::MAX - f {
                acc = u64::MAX;
            } else {
                acc = acc + f;
            }
            k = k + 1;
        }
        proof {
            assert(self.layers@.subrange(0, self.layers@.len() as int) =~= self.layers@);
        }
        acc
    }

    /// Number of layers.
    pub fn num_layers(&self) -> (r: usize)
        ensures
            r == self.layers@.len(),
    {
        self.layers.len()
    }
}

/// Placement decision for one layer.
#[derive(Debug, Clone)]
pub struct LayerPlacement {
    /// Name of the placed layer.
    pub layer_name: String,
    /// Side the layer runs on.
    pub location: PlacementLocation,
    /// Specific node chosen, when one has been assigned.
    pub node_id: Option<String>,
    /// Estimated latency contribution in nanoseconds.
    pub estimated_latency_ns: u128,
    /// Bytes crossing the link at this layer; nonzero only at the cut.
    pub data_transfer_bytes: u64,
}

/// A complete partitioning plan.
#[derive(Debug, Clone)]
pub struct PartitionPlan {
    /// Name of the partitioned model.
    pub model_name: String,
    /// One placement per layer, in layer order.
    pub placements: Vec<LayerPlacement>,
    /// Estimated end-to-end latency in nanoseconds.
    pub total_latency_ns: u128,
    /// Number of ground-orbit boundary crossings.
    pub ground_orbital_transfers: u32,
    /// Total bytes crossing the boundary.
    pub total_transfer_bytes: u64,
    /// Objective the plan was optimized for.
    pub objective: OptimizationObjective,
}

/// Whether a placement is on the ground.
pub open spec fn placed_on_ground(p: LayerPlacement) -> bool {
    p.location == PlacementLocation::Ground
}

/// Whether a placement is in orbit.
pub open spec fn placed_in_orbit(p: LayerPlacement) -> bool {
    p.location == PlacementLocation::Orbital
}

impl PartitionPlan {
    /// The placements assigned to the ground, in order.
    pub fn ground_layers(&self) -> (r: Vec<LayerPlacement>)
        ensures
            r@ == self.placements@.filter(|p: LayerPlacement| placed_on_ground(p)),
    {
        let mut r: Vec<LayerPlacement> = Vec::new();
        let mut k: usize = 0;
        while k < self.placements.len()
            invariant
                k <= self.placements.len(),
                r@ == self.placements@.subrange(0, k as int).filter(
                    |p: LayerPlacement| placed_on_ground(p),
                ),
            decreases self.placements.len() - k,
        {
            proof {
                reveal_with_fuel(Seq::filter, 2);
                assert(self.placements@.subrange(0, k + 1 as int).drop_last()
                    =~= self.placements@.subrange(0, k as int));
                assert(self.placements@.subrange(0, k + 1 as int).last()
                    == self.placements@[k as int]);
            }
            if matches!(self.placements[k].location, PlacementLocation::Ground) {
                let p = &self.placements[k];
                r.push(clone_placement(p));
            }
            k = k + 1;
        }
        proof {
            assert(self.placements@.subrange(0, self.placements@.len() as int)
                =~= self.placements@);
        }
        r
    }

    /// The placements assigned to orbit, in order.
    pub fn orbital_layers(&self) -> (r: Vec<LayerPlacement>)
        ensures
            r@ == self.placements@.filter(|p: LayerPlacement| placed_in_orbit(p)),
    {
        let mut r: Vec<LayerPlacement> = Vec::new();
        let mut k: usize = 0;
        while k < self.placements.len()
            invariant
                k <= self.placements.len(),
                r@ == self.placements@.subrange(0, k as int).filter(
                    |p: LayerPlacement| placed_in_orbit(p),
                ),
            decreases self.placements.len() - k,
        {
            proof {
                reveal_with_fuel(Seq::filter, 2);
                assert(self.placements@.subrange(0, k + 1 as int).drop_last()
                    =~= self.placements@.subrange(0, k as int));
                assert(self.placements@.subrange(0, k + 1 as int).last()
                    == self.placements@[k as int]);
            }
            if matches!(self.placements[k].location, PlacementLocation::Orbital) {
                let p = &self.placements[k];
                r.push(clone_placement(p));
            }
            k = k + 1;
        }
        proof {
            assert(self.placements@.subrange(0, self.placements@.len() as int)
                =~= self.placements@);
        }
        r
    }
}

fn clone_placement(p: &LayerPlacement) -> (r: LayerPlacement)
    ensures
        r == *p,
{
    LayerPlacement {
        layer_name: p.layer_name.clone(),
        location: p.location,
        node_id: match &p.node_id {
            Option::Some(s) => Option::Some(s.clone()),
            Option::None => Option::None,
        },
        estimated_latency_ns: p.estimated_latency_ns,
        data_transfer_bytes: p.data_transfer_bytes,
    }
}

/// Chooses where to cut a layered model between ground and orbital
/// execution, given the compute-throughput asymmetry of the two sides and
/// the cost of one uplink transfer at the cut.
#[derive(Debug, Clone, Copy, PartialEq, Eq, Structural)]
pub struct PartitionOptimizer {
    /// Ground-side compute capacity in GFLOPS.
    pub ground_compute_gflops: u64,
    /// Orbital-side compute capacity in GFLOPS.
    pub orbital_compute_gflops: u64,
    /// Orbit altitude in meters, for the propagation term.
    pub orbit_altitude_m: u64,
    /// Uplink bandwidth in megabits per second.
    pub uplink_bandwidth_mbps: u64,
    /// Downlink bandwidth in megabits per second.
    pub downlink_bandwidth_mbps: u64,
}

/// Optimizer settings within the ranges the fixed-point latency model
/// supports.
pub open spec fn optimizer_ok(o: PartitionOptimizer) -> bool {
    &&& 0 < o.ground_compute_gflops <= 1000000000
    &&& 0 < o.orbital_compute_gflops <= 1000000000
    &&& o.orbit_altitude_m <= 1000000000
    &&& 0 < o.uplink_bandwidth_mbps
}

/// Latency in nanoseconds that layer `i` contributes under cut `split`:
/// its compute time on the side it lands on, plus, exactly at a proper
/// cut, the uplink transmission of its input and the propagation delay.
pub open spec fn layer_latency_ns(
    o: PartitionOptimizer,
    s: Seq<LayerProfile>,
    split: int,
    i: int,
) -> int {
    let gf = if i < split {
        o.ground_compute_gflops as int
    } else {
        o.orbital_compute_gflops as int
    };
    let base = s[i].flops as int / gf;
    if i == split && 0 < split < s.len() {
        base + s[i].input_size * 8000 / (o.uplink_bandwidth_mbps as int) + (o.orbit_altitude_m
            as int) * 1000000000 / 299792458
    } else {
        base
    }
}

/// Total latency of the first `k` layers under cut `split`.
pub open spec fn plan_latency_prefix(
    o: PartitionOptimizer,
    s: Seq<LayerProfile>,
    split: int,
    k: int,
) -> int
    decreases k,
{
    if k <= 0 {
        0
    } else {
        plan_latency_prefix(o, s, split, k - 1) + layer_latency_ns(o, s, split, k - 1)
    }
}

/// Total estimated latency of the whole model under cut `split`.
pub open spec fn plan_latency(o: PartitionOptimizer, s: Seq<LayerProfile>, split: int) -> int {
    plan_latency_prefix(o, s, split, s.len() as int)
}

proof fn lemma_layer_latency_bounds(o: PartitionOptimizer, s: Seq<LayerProfile>, split: int, i: int)
    requires
        optimizer_ok(o),
        0 <= i < s.len(),
        layer_ok(s[i]),
    ensures
        0 <= layer_latency_ns(o, s, split, i) <= 0x2000000000000000,
{
    let gf = if i < split {
        o.ground_compute_gflops as int
    } else {
        o.orbital_compute_gflops as int
    };
    vstd::arithmetic::div_mod::lemma_div_pos_is_pos(s[i].flops as int, gf);
    vstd::arithmetic::div_mod::lemma_div_is_ordered_by_denominator(s[i].flops as int, 1, gf);
    vstd::arithmetic::div_mod::lemma_div_pos_is_pos(
        s[i].input_size * 8000,
        o.uplink_bandwidth_mbps as int,
    );
    vstd::arithmetic::div_mod::lemma_div_is_ordered_by_denominator(
        s[i].input_size * 8000,
        1,
        o.uplink_bandwidth_mbps as int,
    );
    vstd::arithmetic::div_mod::lemma_div_pos_is_pos(
        (o.orbit_altitude_m as int) * 1000000000,
        299792458,
    );
    vstd::arithmetic::div_mod::lemma_div_is_ordered(
        (o.orbit_altitude_m as int) * 1000000000,
        1000000000000000000,
        299792458,
    );
}

proof fn lemma_plan_latency_prefix_bounds(
    o: PartitionOptimizer,
    s: Seq<LayerProfile>,
    split: int,
    k: int,
)
    requires
        optimizer_ok(o),
        0 <= k <= s.len(),
        forall|i: int| 0 <= i < s.len() ==> layer_ok(#[trigger] s[i]),
    ensures
        0 <= plan_latency_prefix(o, s, split, k) <= k * 0x2000000000000000,
    decreases k,
{
    if k > 0 {
        lemma_plan_latency_prefix_bounds(o, s, split, k - 1);
        lemma_layer_latency_bounds(o, s, split, k - 1);
        assert((k - 1) * 0x2000000000000000 + 0x2000000000000000 == k * 0x2000000000000000)
            by (nonlinear_arith);
    }
}

/// The plan that `create_plan` builds for the given cut: one placement per
/// layer, ground before the cut and orbit after it, the exact fixed-point
/// latency for every layer, and transfer charged only at a proper cut.
pub open spec fn is_plan_for(
    o: PartitionOptimizer,
    m: ModelProfile,
    split: int,
    objective: OptimizationObjective,
    r: PartitionPlan,
) -> bool {
    let s = m.layers@;
    &&& r.model_name@ == m.name@
    &&& r.objective == objective
    &&& r.placements@.len() == s.len()
    &&& forall|i: int|
        0 <= i < s.len() ==> {
            let p = #[trigger] r.placements@[i];
            &&& p.layer_name@ == s[i].name@
            &&& p.location == (if i < split {
                PlacementLocation::Ground
            } else {
                PlacementLocation::Orbital
            })
            &&& p.node_id is None
            &&& p.estimated_latency_ns == layer_latency_ns(o, s, split, i)
            &&& p.data_transfer_bytes == (if i == split && 0 < split < s.len() {
                s[i].input_size as int
            } else {
                0
            })
        }
    &&& r.total_latency_ns == plan_latency(o, s, split)
    &&& r.ground_orbital_transfers == (if 0 < split < s.len() {
        1int
    } else {
        0
    })
    &&& r.total_transfer_bytes == (if 0 < split < s.len() {
        s[split].input_size as int
    } else {
        0
    })
}

/// The balance objective's target: the share of total FLOPs proportional
/// to the ground side's capacity.
pub open spec fn balance_target(total: int, ground: int, orbital: int) -> int {
    total * ground / (ground + orbital)
}

/// `k` is the cut the balance objective picks: the smallest prefix whose
/// cumulative FLOPs first reach the ground share of the total.
pub open spec fn is_balanced_split(
    s: Seq<LayerProfile>,
    ground: int,
    orbital: int,
    k: int,
) -> bool {
    if s.len() == 0 {
        k == 0
    } else {
        let target = balance_target(sum_flops(s), ground, orbital);
        &&& 1 <= k <= s.len()
        &&& prefix_flops(s, k) >= target
        &&& forall|j: int| 1 <= j < k ==> prefix_flops(s, j) < target
    }
}

/// `k` is the cut the bandwidth objective picks: one past the first layer
/// whose output is the global minimum. A layer whose output size is the
/// `u64` maximum is never picked; if every layer is such, `k` is zero.
pub open spec fn is_min_bandwidth_split(s: Seq<LayerProfile>, k: int) -> bool {
    if exists|j: int| 0 <= j < s.len() && (#[trigger] s[j].output_size) < u64::MAX {
        exists|m: int|
            {
                &&& 0 <= m < s.len()
                &&& k == m + 1
                &&& (#[trigger] s[m].output_size) < u64::MAX
                &&& forall|j: int| 0 <= j < s.len() ==> (#[trigger] s[j].output_size)
                    >= s[m].output_size
                &&& forall|j: int| 0 <= j < m ==> (#[trigger] s[j].output_size) > s[m].output_size
            }
    } else {
        k == 0
    }
}

/// `k` is the cut the latency objective picks: the first index in
/// `0 ..= len` whose plan latency is the minimum over all cuts.
pub open spec fn is_min_latency_split(o: PartitionOptimizer, s: Seq<LayerProfile>, k: int) -> bool {
    &&& 0 <= k <= s.len()
    &&& forall|j: int| 0 <= j <= s.len() ==> plan_latency(o, s, k) <= plan_latency(o, s, j)
    &&& forall|j: int| 0 <= j < k ==> plan_latency(o, s, j) > plan_latency(o, s, k)
}

/// The cut that `optimize` chooses for each objective.
pub open spec fn is_chosen_split(
    o: PartitionOptimizer,
    m: ModelProfile,
    objective: OptimizationObjective,
    k: int,
) -> bool {
    match objective {
        OptimizationObjective::MinimizeLatency => is_min_latency_split(o, m.layers@, k),
        OptimizationObjective::MinimizeBandwidth => is_min_bandwidth_split(m.layers@, k),
        OptimizationObjective::Balance => is_balanced_split(
            m.layers@,
            o.ground_compute_gflops as int,
            o.orbital_compute_gflops as int,
            k,
        ),
        OptimizationObjective::MaximizeThroughput => is_balanced_split(
            m.layers@,
            o.ground_compute_gflops as int,
            o.orbital_compute_gflops as int,
            k,
        ),
    }
}

impl PartitionOptimizer {
    /// An optimizer with typical defaults: a 100 TFLOPS ground cluster, a
    /// 10 TFLOPS orbital node, a 550 km orbit, and a 100/200 Mbps link.
    pub fn new_default() -> (r: Self)
        ensures
            r.ground_compute_gflops == 100000,
            r.orbital_compute_gflops == 10000,
            r.orbit_altitude_m == 550000,
            r.uplink_bandwidth_mbps == 100,
            r.downlink_bandwidth_mbps == 200,
            optimizer_ok(r),
    {
        PartitionOptimizer {
            ground_compute_gflops: 100000,
            orbital_compute_gflops: 10000,
            orbit_altitude_m: 550000,
            uplink_bandwidth_mbps: 100,
            downlink_bandwidth_mbps: 200,
        }
    }

    /// An optimizer with the given compute capacities and default link
    /// settings.
    pub fn new(ground_gflops: u64, orbital_gflops: u64) -> (r: Self)
        ensures
            r.ground_compute_gflops == ground_gflops,
            r.orbital_compute_gflops == orbital_gflops,
            r.orbit_altitude_m == 550000,
            r.uplink_bandwidth_mbps == 100,
            r.downlink_bandwidth_mbps == 200,
    {
        PartitionOptimizer {
            ground_compute_gflops: ground_gflops,
            orbital_compute_gflops: orbital_gflops,
            orbit_altitude_m: 550000,
            uplink_bandwidth_mbps: 100,
            downlink_bandwidth_mbps: 200,
        }
    }

    /// Build the plan for a given cut index.
    fn create_plan(
        &self,
        model: &ModelProfile,
        split_idx: usize,
        objective: OptimizationObjective,
    ) -> (r: PartitionPlan)
        requires
            optimizer_ok(*self),
            model_ok(*model),
            split_idx <= model.layers@.len(),
        ensures
            is_plan_for(*self, *model, split_idx as int, objective, r),
    {
        let s_len = model.layers.len();
        let mut placements: Vec<LayerPlacement> = Vec::new();
        let mut total_latency: u128 = 0;
        let mut total_transfer: u64 = 0;
        let mut num_transfers: u32 = 0;

        let mut i: usize = 0;
        while i < s_len
            invariant
                optimizer_ok(*self),
                model_ok(*model),
                split_idx <= model.layers@.len(),
                s_len == model.layers@.len(),
                i <= s_len,
                placements@.len() == i,
                forall|j: int|
                    0 <= j < i ==> {
                        let p = #[trigger] placements@[j];
                        &&& p.layer_name@ == model.layers@[j].name@
                        &&& p.location == (if j < split_idx {
                            PlacementLocation::Ground
                        } else {
                            PlacementLocation::Orbital
                        })
                        &&& p.node_id is None
                        &&& p.estimated_latency_ns == layer_latency_ns(
                            *self,
                            model.layers@,
                            split_idx as int,
                            j,
                        )
                        &&& p.data_transfer_bytes == (if j == split_idx && 0 < split_idx
                            < model.layers@.len() {
                            model.layers@[j].input_size as int
                        } else {
                            0
                        })
                    },
                total_latency as int == plan_latency_prefix(
                    *self,
                    model.layers@,
                    split_idx as int,
                    i as int,
                ),
                num_transfers as int == (if 0 < split_idx && split_idx < i && split_idx
                    < model.layers@.len() {
                    1int
                } else {
                    0
                }),
                total_transfer as int == (if 0 < split_idx && split_idx < i && split_idx
                    < model.layers@.len() {
                    model.layers@[split_idx as int].input_size as int
                } else {
                    0
                }),
            decreases s_len - i,
        {
            let layer = &model.layers[i];
            let on_ground = i < split_idx;
            let gf = if on_ground {
                self.ground_compute_gflops
            } else {
                self.orbital_compute_gflops
            };
            let mut latency: u128 = (layer.flops / gf) as u128;
            let mut transfer_bytes: u64 = 0;
            if i == split_idx && split_idx > 0 && split_idx < s_len {
                transfer_bytes = layer.input_size;
                let transmission: u128 = (layer.input_size as u128) * 8000 / (
                self.uplink_bandwidth_mbps as u128);
                let propagation: u128 = (self.orbit_altitude_m as u128) * 1000000000 / 299792458;
                latency = latency + transmission + propagation;
                total_transfer = transfer_bytes;
                num_transfers = 1;
            }
            proof {
                lemma_layer_latency_bounds(*self, model.layers@, split_idx as int, i as int);
                lemma_plan_latency_prefix_bounds(*self, model.layers@, split_idx as int, i as int);
                assert(latency as int == layer_latency_ns(
                    *self,
                    model.layers@,
                    split_idx as int,
                    i as int,
                ));
                assert((i as int) * 0x2000000000000000 <= 65536 * 0x2000000000000000)
                    by (nonlinear_arith)
                    requires
                        0 <= i <= 65536,
                ;
            }
            placements.push(
                LayerPlacement {
                    layer_name: layer.name.clone(),
                    location: if on_ground {
                        PlacementLocation::Ground
                    } else {
                        PlacementLocation::Orbital
                    },
                    node_id: Option::None,
                    estimated_latency_ns: latency,
                    data_transfer_bytes: transfer_bytes,
                },
            );
            total_latency = total_latency + latency;
            i = i + 1;
        }

        PartitionPlan {
            model_name: model.name.clone(),
            placements,
            total_latency_ns: total_latency,
            ground_orbital_transfers: num_transfers,
            total_transfer_bytes: total_transfer,
            objective,
        }
    }

    fn find_best_latency_split(&self, model: &ModelProfile) -> (k: usize)
        requires
            optimizer_ok(*self),
            model_ok(*model),
        ensures
            is_min_latency_split(*self, model.layers@, k as int),
    {
        let mut best_idx: usize = 0;
        let plan0 = self.create_plan(model, 0, OptimizationObjective::MinimizeLatency);
        let mut best_latency: u128 = plan0.total_latency_ns;
        let mut i: usize = 1;
        while i <= model.layers.len()
            invariant
                optimizer_ok(*self),
                model_ok(*model),
                1 <= i <= model.layers@.len() + 1,
                best_idx < i,
                best_latency as int == plan_latency(*self, model.layers@, best_idx as int),
                forall|j: int|
                    0 <= j < i ==> plan_latency(*self, model.layers@, best_idx as int)
                        <= plan_latency(*self, model.layers@, j),
                forall|j: int|
                    0 <= j < best_idx ==> plan_latency(*self, model.layers@, j) > plan_latency(
                        *self,
                        model.layers@,
                        best_idx as int,
                    ),
            decreases model.layers@.len() + 1 - i,
        {
            let plan = self.create_plan(model, i, OptimizationObjective::MinimizeLatency);
            if plan.total_latency_ns < best_latency {
                best_latency = plan.total_latency_ns;
                best_idx = i;
            }
            i = i + 1;
        }
        best_idx
    }

    fn find_min_bandwidth_split(&self, model: &ModelProfile) -> (k: usize)
        ensures
            is_min_bandwidth_split(model.layers@, k as int),
            k <= model.layers@.len(),
    {
        let mut min_idx: usize = 0;
        let mut min_size: u64 = u64::MAX;
        let mut i: usize = 0;
        while i < model.layers.len()
            invariant
                i <= model.layers@.len(),
                min_size == u64::MAX ==> min_idx == 0 && forall|j: int|
                    0 <= j < i ==> (#[trigger] model.layers@[j].output_size) == u64::MAX,
                min_size < u64::MAX ==> {
                    &&& 1 <= min_idx <= i
                    &&& model.layers@[min_idx - 1].output_size == min_size
                    &&& forall|j: int| 0 <= j < i ==> (#[trigger] model.layers@[j].output_size)
                        >= min_size
                    &&& forall|j: int| 0 <= j < min_idx - 1 ==> (
                    #[trigger] model.layers@[j].output_size) > min_size
                },
            decreases model.layers@.len() - i,
        {
            let size = model.layers[i].output_size;
            if size < min_size {
                min_size = size;
                min_idx = i + 1;
            }
            i = i + 1;
        }
        min_idx
    }

    fn find_balanced_split(&self, model: &ModelProfile) -> (k: usize)
        requires
            optimizer_ok(*self),
            model_ok(*model),
        ensures
            is_balanced_split(
                model.layers@,
                self.ground_compute_gflops as int,
                self.orbital_compute_gflops as int,
                k as int,
            ),
    {
        let s_len = model.layers.len();
        if s_len == 0 {
            return 0;
        }
        let ghost g = self.ground_compute_gflops as int;
        let ghost o = self.orbital_compute_gflops as int;

        // Total FLOPs, exact in 128 bits.
        let mut total: u128 = 0;
        let mut i: usize = 0;
        while i < s_len
            invariant
                model_ok(*model),
                s_len == model.layers@.len(),
                i <= s_len,
                total as int == prefix_flops(model.layers@, i as int),
                total <= (i as int) * 0x1000000000000000,
            decreases s_len - i,
        {
            proof {
                assert(model.layers@.subrange(0, i + 1 as int).drop_last() =~= model.layers@
                    .subrange(0, i as int));
                assert(model.layers@.subrange(0, i + 1 as int).last() == model.layers@[i as int]);
                assert((i as int) * 0x1000000000000000 + 0x1000000000000000 == (i + 1 as int)
                    * 0x1000000000000000) by (nonlinear_arith);
                assert((i + 1 as int) * 0x1000000000000000 <= 65536 * 0x1000000000000000)
                    by (nonlinear_arith)
                    requires
                        0 <= i + 1 <= 65536,
                ;
            }
            total = total + model.layers[i].flops as u128;
            i = i + 1;
        }
        proof {
            assert(model.layers@.subrange(0, s_len as int) =~= model.layers@);
            assert((s_len as int) * 0x1000000000000000 <= 65536 * 0x1000000000000000)
                by (nonlinear_arith)
                requires
                    0 <= s_len <= 65536,
            ;
            assert((total as int) * g <= (65536 * 0x1000000000000000) * 1000000000)
                by (nonlinear_arith)
                requires
                    0 <= total as int <= 65536 * 0x1000000000000000,
                    0 < g <= 1000000000,
            ;
        }
        let target: u128 = total * (self.ground_compute_gflops as u128) / (
        (self.ground_compute_gflops as u128) + (self.orbital_compute_gflops as u128));
        proof {
            assert(target as int == balance_target(sum_flops(model.layers@), g, o));
        }

        let mut cumulative: u128 = 0;
        let mut j: usize = 0;
        while j < s_len
            invariant
                optimizer_ok(*self),
                model_ok(*model),
                g == self.ground_compute_gflops as int,
                o == self.orbital_compute_gflops as int,
                s_len == model.layers@.len(),
                j <= s_len,
                target as int == balance_target(sum_flops(model.layers@), g, o),
                cumulative as int == prefix_flops(model.layers@, j as int),
                cumulative <= (j as int) * 0x1000000000000000,
                forall|q: int| 1 <= q <= j ==> prefix_flops(model.layers@, q) < target as int,
            decreases s_len - j,
        {
            proof {
                assert(model.layers@.subrange(0, j + 1 as int).drop_last() =~= model.layers@
                    .subrange(0, j as int));
                assert(model.layers@.subrange(0, j + 1 as int).last() == model.layers@[j as int]);
                assert((j as int) * 0x1000000000000000 + 0x1000000000000000 == (j + 1 as int)
                    * 0x1000000000000000) by (nonlinear_arith);
                assert((j + 1 as int) * 0x1000000000000000 <= 65536 * 0x1000000000000000)
                    by (nonlinear_arith)
                    requires
                        0 <= j + 1 <= 65536,
                ;
            }
            cumulative = cumulative + model.layers[j].flops as u128;
            if cumulative >= target {
                return j + 1;
            }
            j = j + 1;
        }
        // The loop always returns: the full prefix reaches the target,
        // because the target is at most the total.
        proof {
            let total_i = sum_flops(model.layers@);
            assert(total_i * g <= total_i * (g + o)) by (nonlinear_arith)
                requires
                    total_i >= 0,
                    0 < g,
                    0 < o,
            ;
            vstd::arithmetic::div_mod::lemma_div_is_ordered(total_i * g, total_i * (g + o), g + o);
            vstd::arithmetic::div_mod::lemma_div_by_multiple(total_i, g + o);
            assert(prefix_flops(model.layers@, s_len as int) == total_i);
            assert(false);
        }
        0
    }

    /// Choose a cut for the given objective and build its plan.
    ///
    /// `MinimizeLatency` evaluates every cut and keeps the first one of
    /// minimal latency; `MinimizeBandwidth` cuts after the layer with the
    /// globally smallest output; `Balance` (and `MaximizeThroughput`) cut
    /// at the smallest prefix whose FLOPs reach the ground share of the
    /// total.
    pub fn optimize(&self, model: &ModelProfile, objective: OptimizationObjective) -> (r:
        PartitionPlan)
        requires
            optimizer_ok(*self),
            model_ok(*model),
        ensures
            exists|k: int|
                #![auto]
                is_chosen_split(*self, *model, objective, k) && is_plan_for(
                    *self,
                    *model,
                    k,
                    objective,
                    r,
                ),
    {
        let split_idx = match objective {
            OptimizationObjective::MinimizeLatency => self.find_best_latency_split(model),
            OptimizationObjective::MinimizeBandwidth => self.find_min_bandwidth_split(model),
            OptimizationObjective::Balance => self.find_balanced_split(model),
            OptimizationObjective::MaximizeThroughput => self.find_balanced_split(model),
        };
        proof {
            assert(is_chosen_split(*self, *model, objective, split_idx as int));
            assert(split_idx <= model.layers@.len());
        }
        let r = self.create_plan(model, split_idx, objective);
        proof {
            assert(is_chosen_split(*self, *model, objective, split_idx as int) && is_plan_for(
                *self,
                *model,
                split_idx as int,
                objective,
                r,
            ));
        }
        r
    }
}

} // verus!

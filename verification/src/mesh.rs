//! Inter-satellite-link mesh: topology construction from orbital geometry
//! and minimum-latency routing.
//!
//! Distances are meters, angles millidegrees, latencies nanoseconds, and
//! bandwidths megabits per second. The mesh holds a topology snapshot:
//! edges are rebuilt wholesale by [`SpaceMesh::update_topology`] and may be
//! stale until the next rebuild, which is the accepted consistency model.
use vstd::prelude::*;

use crate::intmath::{cos_mdeg, cos_micro, isqrt_u128, sin_mdeg, sin_micro, sqrt_floor, tdiv, tdiv_i128};
use crate::text::{dec_str, u64_to_dec_string};

verus! {

/// Mean Earth radius in meters.
pub const EARTH_RADIUS_M: u64 = 6371000;

/// Kind of communication link.
#[derive(Debug, Clone, Copy, PartialEq, Eq, Structural)]
pub enum LinkType {
    /// Optical laser link.
    Optical,
    /// Radio-frequency link.
    Rf,
    /// Mixed link.
    Hybrid,
}

/// An orbital compute node.
#[derive(Debug, Clone)]
pub struct OrbitalNode {
    /// Node identifier.
    pub node_id: String,
    /// Circular orbit altitude in meters.
    pub orbit_altitude_m: u64,
    /// Orbit inclination in millidegrees.
    pub orbit_inclination_mdeg: u64,
    /// Right ascension of the ascending node, millidegrees.
    pub raan_mdeg: u64,
    /// Mean anomaly, millidegrees.
    pub mean_anomaly_mdeg: u64,
    /// Maximum inter-satellite-link range in meters.
    pub isl_range_m: u64,
    /// Link bandwidth in megabits per second.
    pub isl_bandwidth_mbps: u64,
    /// Compute capacity in GFLOPS.
    pub compute_gflops: u64,
}

/// Magnitudes under which the fixed-point geometry is exact.
pub open spec fn node_ok(n: OrbitalNode) -> bool {
    &&& n.orbit_altitude_m <= 1000000000
    &&& n.orbit_inclination_mdeg <= 1000000000000
    &&& n.raan_mdeg <= 1000000000000
    &&& n.mean_anomaly_mdeg <= 1000000000000
}

impl OrbitalNode {
    /// A node with typical low-Earth-orbit defaults.
    pub fn new(node_id: &str) -> (r: Self)
        ensures
            r.node_id@ == node_id@,
            r.orbit_altitude_m == 550000,
            r.orbit_inclination_mdeg == 51600,
            r.raan_mdeg == 0,
            r.mean_anomaly_mdeg == 0,
            r.isl_range_m == 5000000,
            r.isl_bandwidth_mbps == 10000,
            r.compute_gflops == 10000,
            node_ok(r),
    {
        OrbitalNode {
            node_id: node_id.to_owned(),
            orbit_altitude_m: 550000,
            orbit_inclination_mdeg: 51600,
            raan_mdeg: 0,
            mean_anomaly_mdeg: 0,
            isl_range_m: 5000000,
            isl_bandwidth_mbps: 10000,
            compute_gflops: 10000,
        }
    }

    /// Set the orbital plane position.
    pub fn with_orbit(self, raan_mdeg: u64, mean_anomaly_mdeg: u64) -> (r: Self)
        ensures
            r == (OrbitalNode { raan_mdeg, mean_anomaly_mdeg, ..self }),
    {
        OrbitalNode { raan_mdeg, mean_anomaly_mdeg, ..self }
    }
}

/// The inertial-frame position of a node on its circular orbit, in
/// meters, from the fixed-point trigonometry.
pub open spec fn position_of(n: OrbitalNode) -> (int, int, int) {
    let r = (EARTH_RADIUS_M + n.orbit_altitude_m) as int;
    let sr = sin_micro(n.raan_mdeg as nat);
    let cr = cos_micro(n.raan_mdeg as nat);
    let sm = sin_micro(n.mean_anomaly_mdeg as nat);
    let cm = cos_micro(n.mean_anomaly_mdeg as nat);
    let si = sin_micro(n.orbit_inclination_mdeg as nat);
    let ci = cos_micro(n.orbit_inclination_mdeg as nat);
    let x = tdiv(r * (cr * cm * 1000000 - sr * sm * ci), 1000000000000000000);
    let y = tdiv(r * (sr * cm * 1000000 + cr * sm * ci), 1000000000000000000);
    let z = tdiv(r * (sm * si * 1000000), 1000000000000000000);
    (x, y, z)
}

/// Straight-line separation of two nodes in meters, rounded down.
pub open spec fn distance_m_of(a: OrbitalNode, b: OrbitalNode) -> int {
    let (xa, ya, za) = position_of(a);
    let (xb, yb, zb) = position_of(b);
    sqrt_floor((xa - xb) * (xa - xb) + (ya - yb) * (ya - yb) + (za - zb) * (za - zb))
}

/// One-way speed-of-light propagation delay for a distance in meters, in
/// nanoseconds.
pub open spec fn latency_ns_of(d: int) -> int {
    d * 1000000000 / 299792458
}

/// The horizon-test bound on line-of-sight distance: twice the tangent
/// length from the lower orbit to the Earth sphere.
pub open spec fn max_los_m_of(a: OrbitalNode, b: OrbitalNode) -> int {
    let alt = if a.orbit_altitude_m <= b.orbit_altitude_m {
        a.orbit_altitude_m
    } else {
        b.orbit_altitude_m
    };
    let rr = (EARTH_RADIUS_M + alt) as int;
    2 * sqrt_floor(rr * rr - (EARTH_RADIUS_M as int) * (EARTH_RADIUS_M as int))
}

/// Whether two nodes can hold a link: within the smaller of their ranges
/// and within line of sight.
pub open spec fn link_allowed(a: OrbitalNode, b: OrbitalNode) -> bool {
    let d = distance_m_of(a, b);
    let range = if a.isl_range_m <= b.isl_range_m {
        a.isl_range_m
    } else {
        b.isl_range_m
    };
    d <= range && d <= max_los_m_of(a, b)
}

/// A directed inter-satellite link between two node indices of the mesh.
#[derive(Debug, Clone)]
pub struct ISLLink {
    /// Index of the source node.
    pub source: usize,
    /// Index of the target node.
    pub target: usize,
    /// Separation in meters.
    pub distance_m: u64,
    /// Usable bandwidth: the smaller of the endpoints'.
    pub bandwidth_mbps: u64,
    /// One-way propagation delay in nanoseconds.
    pub latency_ns: u64,
    /// Kind of link.
    pub link_type: LinkType,
    /// Whether the link is usable.
    pub active: bool,
}

/// The exact field values a link between nodes `a` (source) and `b`
/// (target) carries.
pub open spec fn link_exact(l: ISLLink, a: OrbitalNode, b: OrbitalNode) -> bool {
    &&& l.distance_m as int == distance_m_of(a, b)
    &&& l.bandwidth_mbps == (if a.isl_bandwidth_mbps <= b.isl_bandwidth_mbps {
        a.isl_bandwidth_mbps
    } else {
        b.isl_bandwidth_mbps
    })
    &&& l.latency_ns as int == latency_ns_of(distance_m_of(a, b))
    &&& l.link_type == LinkType::Optical
    &&& l.active == true
}

/// Whether the link list holds a directed link from `a` to `b`.
pub open spec fn has_link(links: Seq<ISLLink>, a: int, b: int) -> bool {
    exists|t: int| 0 <= t < links.len() && (#[trigger] links[t]).source == a && links[t].target == b
}

/// The directed link from `a` to `b`, where one exists (unique in a
/// well-formed mesh).
pub open spec fn link_at(links: Seq<ISLLink>, a: int, b: int) -> ISLLink {
    links[choose|t: int|
        0 <= t < links.len() && (#[trigger] links[t]).source == a && links[t].target == b]
}

/// A route through the mesh. A route with fewer than two path entries is
/// invalid: it reports that no connectivity exists, which is an ordinary
/// condition in an evolving mesh, not an error.
#[derive(Debug, Clone)]
pub struct Route {
    /// Requested source node id.
    pub source_id: String,
    /// Requested destination node id.
    pub destination_id: String,
    /// Node ids along the route, source first.
    pub path: Vec<String>,
    /// Sum of hop distances in meters.
    pub total_distance_m: u64,
    /// Sum of hop latencies in nanoseconds.
    pub total_latency_ns: u64,
    /// Smallest bandwidth along the route, megabits per second;
    /// `u64::MAX` means unconstrained.
    pub min_bandwidth_mbps: u64,
    /// Number of hops: one less than the path length.
    pub num_hops: usize,
}

impl Route {
    /// Whether the route actually connects two nodes.
    pub fn is_valid(&self) -> (r: bool)
        ensures
            r == (self.path@.len() >= 2),
    {
        self.path.len() >= 2
    }
}


fn pos_coord(num: i128) -> (c: i64)
    requires
        -2100000000000000000000000000 <= num <= 2100000000000000000000000000,
    ensures
        c as int == tdiv(num as int, 1000000000000000000),
        -2100000000 <= c <= 2100000000,
{
    proof {
        if num >= 0 {
            vstd::arithmetic::div_mod::lemma_div_is_ordered(
                num as int,
                2100000000int * 1000000000000000000,
                1000000000000000000,
            );
            vstd::arithmetic::div_mod::lemma_div_by_multiple(2100000000, 1000000000000000000);
            vstd::arithmetic::div_mod::lemma_div_pos_is_pos(num as int, 1000000000000000000);
        } else {
            vstd::arithmetic::div_mod::lemma_div_is_ordered(
                -(num as int),
                2100000000int * 1000000000000000000,
                1000000000000000000,
            );
            vstd::arithmetic::div_mod::lemma_div_by_multiple(2100000000, 1000000000000000000);
            vstd::arithmetic::div_mod::lemma_div_pos_is_pos(-(num as int), 1000000000000000000);
        }
    }
    tdiv_i128(num, 1000000000000000000) as i64
}

/// Compute a node's inertial-frame position in meters.
fn position(n: &OrbitalNode) -> (p: (i64, i64, i64))
    requires
        node_ok(*n),
    ensures
        (p.0 as int, p.1 as int, p.2 as int) == position_of(*n),
        -2100000000 <= p.0 <= 2100000000,
        -2100000000 <= p.1 <= 2100000000,
        -2100000000 <= p.2 <= 2100000000,
{
    let r: i128 = (EARTH_RADIUS_M + n.orbit_altitude_m) as i128;
    let sr: i128 = sin_mdeg(n.raan_mdeg) as i128;
    let cr: i128 = cos_mdeg(n.raan_mdeg) as i128;
    let sm: i128 = sin_mdeg(n.mean_anomaly_mdeg) as i128;
    let cm: i128 = cos_mdeg(n.mean_anomaly_mdeg) as i128;
    let si: i128 = sin_mdeg(n.orbit_inclination_mdeg) as i128;
    let ci: i128 = cos_mdeg(n.orbit_inclination_mdeg) as i128;
    proof {
        assert(-1000000000000 <= (cr as int) * (cm as int) <= 1000000000000 && -1000000000000 <= (
        sr as int) * (cm as int) <= 1000000000000 && -1000000000000 <= (sr as int) * (sm as int)
            <= 1000000000000 && -1000000000000 <= (cr as int) * (sm as int) <= 1000000000000
            && -1000000000000 <= (sm as int) * (si as int) <= 1000000000000) by (nonlinear_arith)
            requires
                -1000000 <= cr <= 1000000,
                -1000000 <= cm <= 1000000,
                -1000000 <= sr <= 1000000,
                -1000000 <= sm <= 1000000,
                -1000000 <= si <= 1000000,
        ;
        assert(-1000000000000000000 <= (sr as int) * (sm as int) * (ci as int) <= 1000000000000000000
            && -1000000000000000000 <= (cr as int) * (sm as int) * (ci as int)
            <= 1000000000000000000) by (nonlinear_arith)
            requires
                -1000000 <= sr <= 1000000,
                -1000000 <= sm <= 1000000,
                -1000000 <= cr <= 1000000,
                -1000000 <= ci <= 1000000,
        ;
    }
    let xe: i128 = cr * cm * 1000000 - sr * sm * ci;
    let ye: i128 = sr * cm * 1000000 + cr * sm * ci;
    let ze: i128 = sm * si * 1000000;
    proof {
        assert(-2100000000000000000000000000 <= (r as int) * (xe as int)
            <= 2100000000000000000000000000 && -2100000000000000000000000000 <= (r as int) * (
        ye as int) <= 2100000000000000000000000000 && -2100000000000000000000000000 <= (r as int)
            * (ze as int) <= 2100000000000000000000000000) by (nonlinear_arith)
            requires
                0 < r <= 1006371000,
                -2000000000000000000 <= xe <= 2000000000000000000,
                -2000000000000000000 <= ye <= 2000000000000000000,
                -2000000000000000000 <= ze <= 2000000000000000000,
        ;
    }
    let x = pos_coord(r * xe);
    let y = pos_coord(r * ye);
    let z = pos_coord(r * ze);
    (x, y, z)
}

/// Compute the separation of two nodes in meters.
fn distance_m(a: &OrbitalNode, b: &OrbitalNode) -> (d: u64)
    requires
        node_ok(*a),
        node_ok(*b),
    ensures
        d as int == distance_m_of(*a, *b),
        d <= 8000000000,
{
    let (xa, ya, za) = position(a);
    let (xb, yb, zb) = position(b);
    let dx: i128 = (xa as i128) - (xb as i128);
    let dy: i128 = (ya as i128) - (yb as i128);
    let dz: i128 = (za as i128) - (zb as i128);
    proof {
        assert(0 <= (dx as int) * (dx as int) <= 17640000000000000000 && 0 <= (dy as int) * (
        dy as int) <= 17640000000000000000 && 0 <= (dz as int) * (dz as int)
            <= 17640000000000000000) by (nonlinear_arith)
            requires
                -4200000000 <= dx <= 4200000000,
                -4200000000 <= dy <= 4200000000,
                -4200000000 <= dz <= 4200000000,
        ;
    }
    let sq: u128 = (dx * dx + dy * dy + dz * dz) as u128;
    let rt = isqrt_u128(sq);
    proof {
        assert(rt as int <= 8000000000) by (nonlinear_arith)
            requires
                rt >= 0,
                (rt as int) * (rt as int) <= sq as int,
                sq <= 52920000000000000000,
        ;
    }
    rt as u64
}

/// Compute the propagation delay for a distance, in nanoseconds.
fn latency_ns(d: u64) -> (r: u64)
    requires
        d <= 8000000000,
    ensures
        r as int == latency_ns_of(d as int),
        r <= 27000000000,
{
    proof {
        let x = (d as int) * 1000000000;
        vstd::arithmetic::div_mod::lemma_div_is_ordered(
            x,
            27000000000int * 299792458 + 299792457,
            299792458,
        );
        vstd::arithmetic::div_mod::lemma_hoist_over_denominator(
            299792457,
            27000000000,
            299792458nat,
        );
        vstd::arithmetic::div_mod::lemma_basic_div_specific_divisor(299792458);
        vstd::arithmetic::div_mod::lemma_div_pos_is_pos(x, 299792458);
    }
    (((d as u128) * 1000000000) / 299792458) as u64
}

/// Compute the horizon-test bound on line-of-sight distance.
fn max_los_m(a: &OrbitalNode, b: &OrbitalNode) -> (r: u64)
    requires
        node_ok(*a),
        node_ok(*b),
    ensures
        r as int == max_los_m_of(*a, *b),
{
    let alt: u64 = if a.orbit_altitude_m <= b.orbit_altitude_m {
        a.orbit_altitude_m
    } else {
        b.orbit_altitude_m
    };
    let rr: u128 = (EARTH_RADIUS_M + alt) as u128;
    proof {
        assert((rr as int) * (rr as int) <= 1006371000 * 1006371000 && (rr as int) * (rr as int)
            >= (EARTH_RADIUS_M as int) * (EARTH_RADIUS_M as int)) by (nonlinear_arith)
            requires
                6371000 <= rr <= 1006371000,
        ;
    }
    let sq: u128 = rr * rr - (EARTH_RADIUS_M as u128) * (EARTH_RADIUS_M as u128);
    let rt = isqrt_u128(sq);
    proof {
        assert(rt as int <= 1100000000) by (nonlinear_arith)
            requires
                rt >= 0,
                (rt as int) * (rt as int) <= sq as int,
                sq <= 1012782530000000000,
        ;
    }
    2 * (rt as u64)
}

/// The separation of two nodes does not depend on the order of its
/// arguments.
pub proof fn lemma_distance_symm(a: OrbitalNode, b: OrbitalNode)
    ensures
        distance_m_of(a, b) == distance_m_of(b, a),
        max_los_m_of(a, b) == max_los_m_of(b, a),
        link_allowed(a, b) == link_allowed(b, a),
{
    let (xa, ya, za) = position_of(a);
    let (xb, yb, zb) = position_of(b);
    assert((xa - xb) * (xa - xb) == (xb - xa) * (xb - xa) && (ya - yb) * (ya - yb) == (yb - ya) * (
    yb - ya) && (za - zb) * (za - zb) == (zb - za) * (zb - za)) by (nonlinear_arith);
}

/// Number of active undirected links: each symmetric pair is stored as
/// two directed entries, counted once by its lower-source entry.
pub open spec fn undirected_count(links: Seq<ISLLink>) -> int
    decreases links.len(),
{
    if links.len() == 0 {
        0
    } else {
        undirected_count(links.drop_last()) + if links.last().active && links.last().source
            < links.last().target {
            1int
        } else {
            0
        }
    }
}

/// Mesh statistics.
#[derive(Debug, Clone, Copy, PartialEq, Eq, Structural)]
pub struct MeshStats {
    /// Number of registered nodes.
    pub total_nodes: usize,
    /// Number of active undirected links.
    pub active_links: usize,
    /// Average links per node, in hundredths.
    pub avg_links_per_node_centi: u64,
}

/// The inter-satellite-link routing mesh: a topology snapshot of orbital
/// nodes and the links geometry currently admits.
#[derive(Debug)]
pub struct SpaceMesh {
    /// Range assigned to nodes the mesh creates itself.
    pub default_isl_range_m: u64,
    nodes: Vec<OrbitalNode>,
    links: Vec<ISLLink>,
}

impl SpaceMesh {
    /// The registered nodes, in registration order.
    pub closed spec fn spec_nodes(&self) -> Seq<OrbitalNode> {
        self.nodes@
    }

    /// The default inter-satellite-link range.
    pub closed spec fn spec_default_range(&self) -> u64 {
        self.default_isl_range_m
    }

    /// The directed links of the current topology snapshot.
    pub closed spec fn spec_links(&self) -> Seq<ISLLink> {
        self.links@
    }

    /// Structural soundness: bounded node count, in-range node
    /// parameters, links between distinct registered nodes, and at most
    /// one directed link per ordered pair.
    pub open spec fn wf(&self) -> bool {
        &&& self.spec_nodes().len() <= 65536
        &&& self.spec_links().len() <= 0x200000000
        &&& forall|i: int|
            0 <= i < self.spec_nodes().len() ==> node_ok(#[trigger] self.spec_nodes()[i])
        &&& forall|t: int|
            0 <= t < self.spec_links().len() ==> {
                let l = #[trigger] self.spec_links()[t];
                l.source < self.spec_nodes().len() && l.target < self.spec_nodes().len()
                    && l.source != l.target && l.latency_ns <= 27000000000 && l.distance_m
                    <= 8000000000
            }
        &&& forall|t1: int, t2: int|
            0 <= t1 < t2 < self.spec_links().len() ==> !((#[trigger] self.spec_links()[t1]).source
                == (#[trigger] self.spec_links()[t2]).source && self.spec_links()[t1].target
                == self.spec_links()[t2].target)
    }

    /// The links describe exactly the geometry of the current nodes:
    /// every stored link is allowed and carries the exact fields, and
    /// every allowed pair is stored in both directions.
    pub open spec fn topology_fresh(&self) -> bool {
        &&& forall|t: int|
            0 <= t < self.spec_links().len() ==> {
                let l = #[trigger] self.spec_links()[t];
                link_exact(l, self.spec_nodes()[l.source as int], self.spec_nodes()[l.target as int])
                    && link_allowed(
                    self.spec_nodes()[l.source as int],
                    self.spec_nodes()[l.target as int],
                )
            }
        &&& forall|a: int, b: int|
            #![trigger link_allowed(self.spec_nodes()[a], self.spec_nodes()[b])]
            0 <= a < self.spec_nodes().len() && 0 <= b < self.spec_nodes().len() && a != b
                && link_allowed(self.spec_nodes()[a], self.spec_nodes()[b]) ==> has_link(
                self.spec_links(),
                a,
                b,
            )
    }

    /// Create an empty mesh.
    pub fn new(default_isl_range_m: u64) -> (r: Self)
        ensures
            r.spec_default_range() == default_isl_range_m,
            r.spec_nodes() == Seq::<OrbitalNode>::empty(),
            r.spec_links() == Seq::<ISLLink>::empty(),
            r.wf(),
    {
        SpaceMesh { default_isl_range_m, nodes: Vec::new(), links: Vec::new() }
    }

    /// Register a node, replacing any earlier node with the same id.
    /// Links are not touched: they may be stale until the next rebuild.
    pub fn add_node(&mut self, node: OrbitalNode)
        requires
            old(self).wf(),
            node_ok(node),
            old(self).spec_nodes().len() < 65536,
        ensures
            final(self).wf(),
            final(self).spec_links() == old(self).spec_links(),
            final(self).spec_default_range() == old(self).spec_default_range(),
            ({
                let old_n = old(self).spec_nodes();
                let new_n = final(self).spec_nodes();
                if exists|j: int| 0 <= j < old_n.len() && (#[trigger] old_n[j]).node_id@
                    == node.node_id@ {
                    exists|j: int|
                        0 <= j < old_n.len() && (#[trigger] old_n[j]).node_id@ == node.node_id@
                            && new_n == old_n.update(j, node)
                } else {
                    new_n == old_n.push(node)
                }
            }),
    {
        let mut t: usize = 0;
        while t < self.nodes.len()
            invariant
                self == old(self),
                old(self).wf(),
                node_ok(node),
                t <= self.nodes@.len(),
                forall|q: int| 0 <= q < t ==> (#[trigger] self.nodes@[q]).node_id@
                    != node.node_id@,
            decreases self.nodes@.len() - t,
        {
            if self.nodes[t].node_id == node.node_id {
                self.nodes.set(t, node);
                return ;
            }
            t = t + 1;
        }
        self.nodes.push(node);
    }

    /// Mesh statistics: node count, active undirected link count, and
    /// the average links per node in hundredths.
    pub fn get_mesh_stats(&self) -> (r: MeshStats)
        requires
            self.wf(),
        ensures
            r.total_nodes == self.spec_nodes().len(),
            r.active_links as int == undirected_count(self.spec_links()),
            r.avg_links_per_node_centi as int == if self.spec_nodes().len() == 0 {
                0int
            } else {
                200 * undirected_count(self.spec_links()) / (self.spec_nodes().len() as int)
            },
    {
        let mut count: usize = 0;
        let mut t: usize = 0;
        while t < self.links.len()
            invariant
                t <= self.links@.len(),
                self.links@.len() <= 0x200000000,
                count as int == undirected_count(self.links@.subrange(0, t as int)),
                count <= t,
            decreases self.links@.len() - t,
        {
            proof {
                assert(self.links@.subrange(0, t + 1 as int).drop_last() =~= self.links@.subrange(
                    0,
                    t as int,
                ));
                assert(self.links@.subrange(0, t + 1 as int).last() == self.links@[t as int]);
            }
            if self.links[t].active && self.links[t].source < self.links[t].target {
                count = count + 1;
            }
            t = t + 1;
        }
        proof {
            assert(self.links@.subrange(0, self.links@.len() as int) =~= self.links@);
        }
        let n = self.nodes.len();
        let avg: u64 = if n == 0 {
            0
        } else {
            proof {
                assert(200 * (count as int) >= 0);
                vstd::arithmetic::div_mod::lemma_div_pos_is_pos(200 * (count as int), n as int);
                vstd::arithmetic::div_mod::lemma_div_is_ordered_by_denominator(
                    200 * (count as int),
                    1,
                    n as int,
                );
                assert(200 * (count as int) / 1 == 200 * (count as int)) by {
                    vstd::arithmetic::div_mod::lemma_div_basics(200 * (count as int));
                }
            }
            ((200 * (count as u128)) / (n as u128)) as u64
        };
        MeshStats { total_nodes: n, active_links: count, avg_links_per_node_centi: avg }
    }
}


/// Whether some registered node carries the given id.
pub open spec fn known_id(nodes: Seq<OrbitalNode>, id: Seq<char>) -> bool {
    exists|t: int| 0 <= t < nodes.len() && (#[trigger] nodes[t]).node_id@ == id
}

/// What `find_route` returns when the request cannot be served: an
/// explicitly invalid route with an empty path.
pub open spec fn invalid_route(r: Route, src: Seq<char>, dst: Seq<char>) -> bool {
    &&& r.source_id@ == src
    &&& r.destination_id@ == dst
    &&& r.path@.len() == 0
    &&& r.total_distance_m == 0
    &&& r.total_latency_ns == 0
    &&& r.min_bandwidth_mbps == 0
    &&& r.num_hops == 0
}

/// Sum of the latencies of a list of hop links.
pub open spec fn hops_latency(links: Seq<ISLLink>, hls: Seq<usize>) -> int
    decreases hls.len(),
{
    if hls.len() == 0 {
        0
    } else {
        hops_latency(links, hls.drop_last()) + links[hls.last() as int].latency_ns
    }
}

/// Sum of the distances of a list of hop links.
pub open spec fn hops_distance(links: Seq<ISLLink>, hls: Seq<usize>) -> int
    decreases hls.len(),
{
    if hls.len() == 0 {
        0
    } else {
        hops_distance(links, hls.drop_last()) + links[hls.last() as int].distance_m
    }
}

/// Smallest bandwidth among a list of hop links; unconstrained when the
/// list is empty.
pub open spec fn hops_min_bandwidth(links: Seq<ISLLink>, hls: Seq<usize>) -> int
    decreases hls.len(),
{
    if hls.len() == 0 {
        u64::MAX as int
    } else {
        let rest = hops_min_bandwidth(links, hls.drop_last());
        let hop = links[hls.last() as int].bandwidth_mbps as int;
        if hop < rest {
            hop
        } else {
            rest
        }
    }
}

/// A returned route whose path is a genuine chain of stored active links
/// from the source to the destination, with exact totals: the witnesses
/// are the node indices along the path and, per hop, the index of the
/// stored link serving it.
pub open spec fn connected_route(
    nodes: Seq<OrbitalNode>,
    links: Seq<ISLLink>,
    r: Route,
    src: Seq<char>,
    dst: Seq<char>,
) -> bool {
    exists|idxs: Seq<usize>, hls: Seq<usize>|
        {
            &&& #[trigger] hops_exact(links, idxs, hls)
            &&& idxs.len() == r.path@.len()
            &&& idxs.len() >= 2
            &&& forall|t: int| 0 <= t < idxs.len() ==> (#[trigger] idxs[t]) < nodes.len()
            &&& nodes[idxs[0] as int].node_id@ == src
            &&& nodes[idxs[idxs.len() - 1] as int].node_id@ == dst
            &&& forall|t: int|
                0 <= t < idxs.len() ==> (#[trigger] r.path@[t])@ == nodes[idxs[t] as int].node_id@
            &&& r.total_latency_ns as int == hops_latency(links, hls)
            &&& r.total_distance_m as int == hops_distance(links, hls)
            &&& r.min_bandwidth_mbps as int == hops_min_bandwidth(links, hls)
            &&& r.num_hops == hls.len()
        }
}

impl SpaceMesh {
    /// Index of the first node with the given id.
    fn find_node_index(&self, id: &str) -> (r: Option<usize>)
        ensures
            r is Some <==> known_id(self.spec_nodes(), id@),
            r matches Some(t) ==> is_first_with_id(self.spec_nodes(), id@, t as int),
    {
        let key: String = id.to_owned();
        let mut t: usize = 0;
        while t < self.nodes.len()
            invariant
                key@ == id@,
                t <= self.nodes@.len(),
                forall|q: int| 0 <= q < t ==> (#[trigger] self.nodes@[q]).node_id@ != id@,
            decreases self.nodes@.len() - t,
        {
            if self.nodes[t].node_id == key {
                return Option::Some(t);
            }
            t = t + 1;
        }
        Option::None
    }

    /// Rebuild the link set from the current geometry: one directed link
    /// each way for every pair of distinct nodes within range and within
    /// line of sight, and nothing else. The new topology is built on the
    /// side and swapped in whole.
    pub fn update_topology(&mut self)
        requires
            old(self).wf(),
        ensures
            final(self).wf(),
            final(self).spec_nodes() == old(self).spec_nodes(),
            final(self).spec_default_range() == old(self).spec_default_range(),
            final(self).topology_fresh(),
    {
        let n = self.nodes.len();
        let mut links: Vec<ISLLink> = Vec::new();
        let mut i: usize = 0;
        while i < n
            invariant
                self == old(self),
                old(self).wf(),
                n == self.nodes@.len(),
                i <= n,
                links@.len() <= 2 * (i as int) * (n as int),
                forall|t: int|
                    0 <= t < links@.len() ==> {
                        let l = #[trigger] links@[t];
                        let a = if l.source <= l.target {
                            l.source as int
                        } else {
                            l.target as int
                        };
                        &&& l.source < n && l.target < n && l.source != l.target
                        &&& a < i
                        &&& link_exact(l, self.nodes@[l.source as int], self.nodes@[l.target as int])
                        &&& link_allowed(
                            self.nodes@[l.source as int],
                            self.nodes@[l.target as int],
                        )
                        &&& l.latency_ns <= 27000000000
                        &&& l.distance_m <= 8000000000
                    },
                forall|a: int, b: int|
                    #![trigger link_allowed(self.nodes@[a], self.nodes@[b])]
                    0 <= a < b < n && a < i && link_allowed(self.nodes@[a], self.nodes@[b])
                        ==> has_link(links@, a, b) && has_link(links@, b, a),
                forall|t1: int, t2: int|
                    0 <= t1 < t2 < links@.len() ==> !((#[trigger] links@[t1]).source == (
                    #[trigger] links@[t2]).source && links@[t1].target == links@[t2].target),
            decreases n - i,
        {
            let mut j: usize = i + 1;
            while j < n
                invariant
                    self == old(self),
                    old(self).wf(),
                    n == self.nodes@.len(),
                    i < n,
                    i < j <= n,
                    links@.len() <= 2 * (i as int) * (n as int) + 2 * (j as int),
                    forall|t: int|
                        0 <= t < links@.len() ==> {
                            let l = #[trigger] links@[t];
                            let a = if l.source <= l.target {
                                l.source as int
                            } else {
                                l.target as int
                            };
                            let b = if l.source <= l.target {
                                l.target as int
                            } else {
                                l.source as int
                            };
                            &&& l.source < n && l.target < n && l.source != l.target
                            &&& (a < i || (a == i && b < j))
                            &&& link_exact(
                                l,
                                self.nodes@[l.source as int],
                                self.nodes@[l.target as int],
                            )
                            &&& link_allowed(
                                self.nodes@[l.source as int],
                                self.nodes@[l.target as int],
                            )
                            &&& l.latency_ns <= 27000000000
                            &&& l.distance_m <= 8000000000
                        },
                    forall|a: int, b: int|
                        #![trigger link_allowed(self.nodes@[a], self.nodes@[b])]
                        0 <= a < b < n && (a < i || (a == i && b < j)) && link_allowed(
                            self.nodes@[a],
                            self.nodes@[b],
                        ) ==> has_link(links@, a, b) && has_link(links@, b, a),
                    forall|t1: int, t2: int|
                        0 <= t1 < t2 < links@.len() ==> !((#[trigger] links@[t1]).source == (
                        #[trigger] links@[t2]).source && links@[t1].target == links@[t2].target),
                decreases n - j,
            {
                let node_i = &self.nodes[i];
                let node_j = &self.nodes[j];
                let d = distance_m(node_i, node_j);
                let max_range = if node_i.isl_range_m <= node_j.isl_range_m {
                    node_i.isl_range_m
                } else {
                    node_j.isl_range_m
                };
                let los = max_los_m(node_i, node_j);
                if d <= max_range && d <= los {
                    let bandwidth = if node_i.isl_bandwidth_mbps <= node_j.isl_bandwidth_mbps {
                        node_i.isl_bandwidth_mbps
                    } else {
                        node_j.isl_bandwidth_mbps
                    };
                    let lat = latency_ns(d);
                    let ghost pre_links = links@;
                    let l1 = ISLLink {
                        source: i,
                        target: j,
                        distance_m: d,
                        bandwidth_mbps: bandwidth,
                        latency_ns: lat,
                        link_type: LinkType::Optical,
                        active: true,
                    };
                    let l2 = ISLLink {
                        source: j,
                        target: i,
                        distance_m: d,
                        bandwidth_mbps: bandwidth,
                        latency_ns: lat,
                        link_type: LinkType::Optical,
                        active: true,
                    };
                    links.push(l1);
                    links.push(l2);
                    proof {
                        lemma_distance_symm(self.nodes@[i as int], self.nodes@[j as int]);
                        assert(links@[links@.len() - 2] == l1);
                        assert(links@[links@.len() - 1] == l2);
                        assert forall|t: int| 0 <= t < pre_links.len() implies links@[t]
                            == pre_links[t] by {}
                        assert forall|a: int, b: int|
                            #![trigger link_allowed(self.nodes@[a], self.nodes@[b])]
                            0 <= a < b < n && (a < i || (a == i && b < j + 1)) && link_allowed(
                                self.nodes@[a],
                                self.nodes@[b],
                            ) implies has_link(links@, a, b) && has_link(links@, b, a) by {
                            if a == i && b == j {
                                assert(links@[links@.len() - 2].source == a && links@[links@.len()
                                    - 2].target == b);
                                assert(links@[links@.len() - 1].source == b && links@[links@.len()
                                    - 1].target == a);
                            } else {
                                assert(has_link(pre_links, a, b) && has_link(pre_links, b, a));
                                let t1 = choose|t: int|
                                    0 <= t < pre_links.len() && (#[trigger] pre_links[t]).source
                                        == a && pre_links[t].target == b;
                                let t2 = choose|t: int|
                                    0 <= t < pre_links.len() && (#[trigger] pre_links[t]).source
                                        == b && pre_links[t].target == a;
                                assert(links@[t1] == pre_links[t1]);
                                assert(links@[t2] == pre_links[t2]);
                            }
                        }
                    }
                }
                j = j + 1;
            }
            proof {
                assert(2 * (i as int) * (n as int) + 2 * (n as int) == 2 * ((i + 1) as int) * (
                n as int)) by (nonlinear_arith);
            }
            i = i + 1;
        }
        self.links = links;
        proof {
            assert forall|a: int, b: int|
                #![trigger link_allowed(self.spec_nodes()[a], self.spec_nodes()[b])]
                0 <= a < self.spec_nodes().len() && 0 <= b < self.spec_nodes().len() && a != b
                    && link_allowed(self.spec_nodes()[a], self.spec_nodes()[b]) implies has_link(
                self.spec_links(),
                a,
                b,
            ) by {
                if a < b {
                    assert(has_link(self.spec_links(), a, b));
                } else {
                    lemma_distance_symm(self.spec_nodes()[b], self.spec_nodes()[a]);
                    assert(link_allowed(self.spec_nodes()[b], self.spec_nodes()[a]));
                    assert(has_link(self.spec_links(), a, b));
                }
            }
            assert(2 * (self.spec_nodes().len() as int) * (self.spec_nodes().len() as int)
                <= 0x200000000) by (nonlinear_arith)
                requires
                    self.spec_nodes().len() <= 65536,
            ;
        }
    }
}


/// Each hop `t` of the index path is served by the stored link
/// `links[hls[t]]`.
pub open spec fn hops_exact(links: Seq<ISLLink>, idxs: Seq<usize>, hls: Seq<usize>) -> bool {
    &&& hls.len() + 1 == idxs.len()
    &&& forall|t: int|
        0 <= t < hls.len() ==> {
            let l = links[#[trigger] hls[t] as int];
            &&& hls[t] < links.len()
            &&& l.source == idxs[t]
            &&& l.target == idxs[t + 1]
            &&& l.active
        }
}

/// Index `t` is the first registered node carrying the given id: the node
/// that routing resolves the id to.
pub open spec fn is_first_with_id(nodes: Seq<OrbitalNode>, id: Seq<char>, t: int) -> bool {
    &&& 0 <= t < nodes.len()
    &&& nodes[t].node_id@ == id
    &&& forall|q: int| 0 <= q < t ==> (#[trigger] nodes[q]).node_id@ != id
}

/// A chain of stored active links leading from node index `a` to node
/// index `b` (nodes may repeat; every hop is a stored active link).
pub open spec fn chain_between(
    links: Seq<ISLLink>,
    idxs: Seq<usize>,
    hls: Seq<usize>,
    a: int,
    b: int,
    n: int,
) -> bool {
    &&& hops_exact(links, idxs, hls)
    &&& idxs.len() >= 1
    &&& forall|t: int| 0 <= t < idxs.len() ==> (#[trigger] idxs[t]) < n
    &&& idxs[0] as int == a
    &&& idxs[idxs.len() - 1] as int == b
}

/// Number of `false` entries; the measure Dijkstra's main loop decreases.
spec fn count_false(s: Seq<bool>) -> int
    decreases s.len(),
{
    if s.len() == 0 {
        0
    } else {
        count_false(s.drop_last()) + if s.last() {
            0int
        } else {
            1int
        }
    }
}

proof fn lemma_count_false_all(s: Seq<bool>)
    requires
        forall|i: int| 0 <= i < s.len() ==> !(#[trigger] s[i]),
    ensures
        count_false(s) == s.len(),
    decreases s.len(),
{
    if s.len() > 0 {
        let pre = s.drop_last();
        assert forall|i: int| 0 <= i < pre.len() implies !(#[trigger] pre[i]) by {
            assert(pre[i] == s[i]);
        }
        lemma_count_false_all(pre);
    }
}

proof fn lemma_count_false_set_true(s: Seq<bool>, i: int)
    requires
        0 <= i < s.len(),
        !s[i],
    ensures
        count_false(s.update(i, true)) == count_false(s) - 1,
    decreases s.len(),
{
    let su = s.update(i, true);
    if i == s.len() - 1 {
        assert(su.drop_last() =~= s.drop_last());
    } else {
        assert(su.drop_last() =~= s.drop_last().update(i, true));
        lemma_count_false_set_true(s.drop_last(), i);
        assert(su.last() == s.last());
    }
}

proof fn lemma_count_false_entry(s: Seq<bool>, i: int)
    requires
        0 <= i < s.len(),
        !s[i],
    ensures
        count_false(s) >= 1,
    decreases s.len(),
{
    if i == s.len() - 1 {
        assert(count_false(s.drop_last()) >= 0) by {
            lemma_count_false_nonneg(s.drop_last());
        }
    } else {
        lemma_count_false_entry(s.drop_last(), i);
    }
}

proof fn lemma_count_false_nonneg(s: Seq<bool>)
    ensures
        count_false(s) >= 0,
    decreases s.len(),
{
    if s.len() > 0 {
        lemma_count_false_nonneg(s.drop_last());
    }
}

proof fn lemma_count_false_zero(s: Seq<bool>)
    requires
        count_false(s) == 0,
    ensures
        forall|i: int| 0 <= i < s.len() ==> #[trigger] s[i],
    decreases s.len(),
{
    if s.len() > 0 {
        lemma_count_false_nonneg(s.drop_last());
        if !s.last() {
            assert(false);
        }
        lemma_count_false_zero(s.drop_last());
        assert forall|i: int| 0 <= i < s.len() implies #[trigger] s[i] by {
            if i < s.len() - 1 {
                assert(s.drop_last()[i] == s[i]);
            }
        }
    }
}

/// At the end of the relaxation phase every reached node is visited, and
/// its estimate is bounded by its hop depth.
proof fn lemma_dijkstra_exit(
    dist: Seq<u64>,
    visited: Seq<bool>,
    depth: Seq<usize>,
    vis_count: int,
    n: int,
)
    requires
        dist.len() == n && visited.len() == n && depth.len() == n,
        n <= 65536,
        vis_count + count_false(visited) == n,
        vis_count == n || forall|w: int|
            0 <= w < n && !(#[trigger] visited[w]) ==> dist[w] == u64::MAX,
        forall|v: int| 0 <= v < n && (#[trigger] visited[v]) ==> dist[v] < u64::MAX,
        forall|v: int| 0 <= v < n && (#[trigger] visited[v]) ==> depth[v] + 1 <= vis_count,
        vis_count <= n,
        forall|v: int|
            0 <= v < n && (#[trigger] dist[v]) < u64::MAX ==> (dist[v] as int) <= (
            depth[v] as int) * 27000000000,
    ensures
        forall|v: int| 0 <= v < n && (#[trigger] dist[v]) < u64::MAX ==> visited[v],
        forall|v: int|
            0 <= v < n && (#[trigger] dist[v]) < u64::MAX ==> depth[v] <= n - 1 && dist[v]
                <= 1769472000000000,
{
    if vis_count == n {
        lemma_count_false_zero(visited);
    }
    assert forall|v: int| 0 <= v < n && (#[trigger] dist[v]) < u64::MAX implies visited[v] by {
        if !visited[v] {
            if vis_count == n {
                assert(visited[v]);
            }
        }
    }
    assert forall|v: int|
        0 <= v < n && (#[trigger] dist[v]) < u64::MAX implies depth[v] <= n - 1 && dist[v]
        <= 1769472000000000 by {
        assert(visited[v]);
        assert(depth[v] + 1 <= vis_count);
        assert((depth[v] as int) * 27000000000 <= 65535 * 27000000000) by (nonlinear_arith)
            requires
                0 <= depth[v] <= 65535,
        ;
    }
}

/// When the distance estimates are closed under relaxation of every
/// stored active link, any chain from a zero-distance node reaches a node
/// whose estimate is at most the chain's latency. This is Dijkstra's
/// completeness and optimality in one statement.
proof fn lemma_dijkstra_complete(
    links: Seq<ISLLink>,
    dist: Seq<u64>,
    idxs: Seq<usize>,
    hls: Seq<usize>,
    n: int,
)
    requires
        dist.len() == n,
        hops_exact(links, idxs, hls),
        idxs.len() >= 1,
        forall|t: int| 0 <= t < idxs.len() ==> (#[trigger] idxs[t]) < n,
        dist[idxs[0] as int] == 0,
        forall|v: int|
            0 <= v < n && (#[trigger] dist[v]) < u64::MAX ==> dist[v] <= 1769472000000000,
        forall|v: int, t: int|
            #![trigger dist[v], links[t]]
            0 <= v < n && dist[v] < u64::MAX && 0 <= t < links.len() && links[t].source == v
                && links[t].active ==> (dist[links[t].target as int] as int) <= dist[v]
                + links[t].latency_ns,
        forall|t: int|
            0 <= t < links.len() ==> (#[trigger] links[t]).latency_ns <= 27000000000
                && links[t].target < n,
    ensures
        dist[idxs[idxs.len() - 1] as int] < u64::MAX,
        dist[idxs[idxs.len() - 1] as int] as int <= hops_latency(links, hls),
    decreases idxs.len(),
{
    if idxs.len() == 1 {
        assert(hls.len() == 0);
    } else {
        let pidxs = idxs.drop_last();
        let phls = hls.drop_last();
        assert forall|t: int|
            0 <= t < phls.len() implies {
            let l = links[#[trigger] phls[t] as int];
            &&& phls[t] < links.len()
            &&& l.source == pidxs[t]
            &&& l.target == pidxs[t + 1]
            &&& l.active
        } by {
            assert(phls[t] == hls[t]);
            assert(pidxs[t] == idxs[t] && pidxs[t + 1] == idxs[t + 1]);
        }
        assert forall|t: int| 0 <= t < pidxs.len() implies (#[trigger] pidxs[t]) < n by {
            assert(pidxs[t] == idxs[t]);
        }
        lemma_dijkstra_complete(links, dist, pidxs, phls, n);
        let prev = idxs[idxs.len() - 2] as int;
        let last_hop = hls[hls.len() - 1] as int;
        assert(pidxs[pidxs.len() - 1] == idxs[idxs.len() - 2]);
        assert(links[last_hop].source == idxs[hls.len() - 1] && links[last_hop].target
            == idxs[hls.len() as int] && links[last_hop].active);
        assert((dist[links[last_hop].target as int] as int) <= dist[prev]
            + links[last_hop].latency_ns);
        assert(hops_latency(links, hls) == hops_latency(links, phls)
            + links[last_hop].latency_ns);
    }
}

/// A chain whose every hop satisfies the exact predecessor-distance
/// equation, starting from a zero-distance node, has latency equal to the
/// distance estimate at its end.
proof fn lemma_chain_latency_is_dist(
    links: Seq<ISLLink>,
    dist: Seq<u64>,
    idxs: Seq<usize>,
    hls: Seq<usize>,
)
    requires
        hops_exact(links, idxs, hls),
        idxs.len() >= 1,
        dist[idxs[0] as int] == 0,
        forall|t: int|
            0 <= t < hls.len() ==> (dist[#[trigger] idxs[t + 1] as int] as int) == dist[idxs[t] as int]
                + links[hls[t] as int].latency_ns,
    ensures
        hops_latency(links, hls) == dist[idxs[idxs.len() - 1] as int] as int,
    decreases idxs.len(),
{
    if idxs.len() > 1 {
        let pidxs = idxs.drop_last();
        let phls = hls.drop_last();
        assert forall|t: int|
            0 <= t < phls.len() implies {
            let l = links[#[trigger] phls[t] as int];
            &&& phls[t] < links.len()
            &&& l.source == pidxs[t]
            &&& l.target == pidxs[t + 1]
            &&& l.active
        } by {
            assert(phls[t] == hls[t]);
            assert(pidxs[t] == idxs[t] && pidxs[t + 1] == idxs[t + 1]);
        }
        assert forall|t: int|
            0 <= t < phls.len() implies (dist[#[trigger] pidxs[t + 1] as int] as int)
            == dist[pidxs[t] as int] + links[phls[t] as int].latency_ns by {
            assert(phls[t] == hls[t]);
            assert(pidxs[t] == idxs[t] && pidxs[t + 1] == idxs[t + 1]);
        }
        lemma_chain_latency_is_dist(links, dist, pidxs, phls);
        assert(pidxs[pidxs.len() - 1] == idxs[idxs.len() - 2]);
        assert((dist[idxs[idxs.len() - 1] as int] as int) == dist[idxs[idxs.len() - 2] as int]
            + links[hls[hls.len() - 1] as int].latency_ns);
        assert(hops_latency(links, hls) == hops_latency(links, phls) + links[hls[hls.len()
            - 1] as int].latency_ns);
    }
}

impl SpaceMesh {
    /// Dijkstra's relaxation phase from `si`: returns, per node, the
    /// predecessor index, the index of the stored link serving that edge,
    /// the exact minimum-latency estimate (`u64::MAX` marks unreached),
    /// and the hop depth of the predecessor chain. At return the
    /// estimates are closed under relaxation of every stored active link,
    /// so a reached node's estimate is a true minimum.
    #[verifier::rlimit(100)]
    #[verifier::spinoff_prover]
    fn dijkstra_preds(&self, si: usize) -> (r: (Vec<usize>, Vec<usize>, Vec<u64>, Vec<usize>))
        requires
            self.wf(),
            si < self.spec_nodes().len(),
        ensures
            ({
                let pred = r.0@;
                let pred_link = r.1@;
                let dist = r.2@;
                let depth = r.3@;
                let n = self.spec_nodes().len() as int;
                let links = self.spec_links();
                &&& pred.len() == n && pred_link.len() == n && dist.len() == n && depth.len()
                    == n
                &&& dist[si as int] == 0 && depth[si as int] == 0
                &&& forall|v: int|
                    #![trigger dist[v]]
                    0 <= v < n && v != si && dist[v] < u64::MAX ==> {
                        let l = links[pred_link[v] as int];
                        &&& pred[v] < n
                        &&& pred_link[v] < links.len()
                        &&& l.source == pred[v]
                        &&& l.target == v
                        &&& l.active
                        &&& dist[pred[v] as int] < u64::MAX
                        &&& (dist[v] as int) == dist[pred[v] as int] + l.latency_ns
                        &&& depth[v] == depth[pred[v] as int] + 1
                    }
                &&& forall|v: int|
                    0 <= v < n && (#[trigger] dist[v]) < u64::MAX ==> depth[v] <= n - 1
                        && dist[v] <= 1769472000000000
                &&& forall|v: int, t: int|
                    #![trigger dist[v], links[t]]
                    0 <= v < n && dist[v] < u64::MAX && 0 <= t < links.len() && links[t].source
                        == v && links[t].active ==> (dist[links[t].target as int] as int)
                        <= dist[v] + links[t].latency_ns
            }),
    {
        let n = self.nodes.len();
        let inf: u64 = u64::MAX;
        let mut dist: Vec<u64> = vec![inf; n];
        let mut visited: Vec<bool> = vec![false; n];
        let mut pred: Vec<usize> = vec![n; n];
        let mut pred_link: Vec<usize> = vec![0; n];
        let mut depth: Vec<usize> = vec![0; n];
        dist.set(si, 0);
        proof {
            lemma_count_false_all(visited@);
        }

        let mut vis_count: usize = 0;
        let mut done: bool = false;
        while vis_count < n && !done
            invariant
                self.wf(),
                n == self.spec_nodes().len(),
                si < n,
                dist@.len() == n && visited@.len() == n && pred@.len() == n && pred_link@.len()
                    == n && depth@.len() == n,
                vis_count as int + count_false(visited@) == n as int,
                dist@[si as int] == 0 && depth@[si as int] == 0,
                forall|v: int|
                    0 <= v < n && (#[trigger] visited@[v]) ==> dist@[v] < u64::MAX,
                forall|v: int|
                    #![trigger dist@[v]]
                    0 <= v < n && v != si && dist@[v] < u64::MAX ==> {
                        let l = self.spec_links()[pred_link@[v] as int];
                        &&& pred@[v] < n
                        &&& pred_link@[v] < self.spec_links().len()
                        &&& l.source == pred@[v]
                        &&& l.target == v
                        &&& l.active
                        &&& visited@[pred@[v] as int]
                        &&& dist@[pred@[v] as int] < u64::MAX
                        &&& (dist@[v] as int) == dist@[pred@[v] as int] + l.latency_ns
                        &&& depth@[v] == depth@[pred@[v] as int] + 1
                    },
                forall|v: int|
                    0 <= v < n && (#[trigger] dist@[v]) < u64::MAX ==> depth@[v] <= vis_count
                        && (dist@[v] as int) <= (depth@[v] as int) * 27000000000,
                forall|v: int|
                    0 <= v < n && (#[trigger] visited@[v]) ==> depth@[v] + 1 <= vis_count,
                forall|v: int, t: int|
                    #![trigger visited@[v], self.spec_links()[t]]
                    0 <= v < n && visited@[v] && 0 <= t < self.spec_links().len()
                        && self.spec_links()[t].source == v && self.spec_links()[t].active ==> (
                    dist@[self.spec_links()[t].target as int] as int) <= dist@[v]
                        + self.spec_links()[t].latency_ns,
                forall|v: int, w: int|
                    #![trigger visited@[v], dist@[w]]
                    0 <= v < n && 0 <= w < n && visited@[v] && !visited@[w] && dist@[w]
                        < u64::MAX ==> dist@[v] <= dist@[w],
                done ==> forall|w: int|
                    0 <= w < n && !(#[trigger] visited@[w]) ==> dist@[w] == u64::MAX,
            decreases n - vis_count, if done { 0int } else { 1int },
        {
            // pick the unvisited node with the smallest finite estimate
            let mut u: usize = n;
            let mut best: u64 = u64::MAX;
            let mut v: usize = 0;
            while v < n
                invariant
                    n == dist@.len() == visited@.len(),
                    v <= n,
                    u == n || (u < n && !visited@[u as int] && dist@[u as int] == best && best
                        < u64::MAX),
                    u == n ==> best == u64::MAX,
                    forall|q: int|
                        0 <= q < v && !(#[trigger] visited@[q]) ==> dist@[q] >= best,
                decreases n - v,
            {
                if !visited[v] && dist[v] < best {
                    best = dist[v];
                    u = v;
                }
                v = v + 1;
            }
            if u == n {
                done = true;
            } else {
                proof {
                    lemma_count_false_entry(visited@, u as int);
                }
                // relax every stored active link out of u
                let du = dist[u];
                let mut t: usize = 0;
                while t < self.links.len()
                    invariant
                        self.wf(),
                        n == self.spec_nodes().len(),
                        si < n,
                        u < n,
                        !visited@[u as int],
                        du == dist@[u as int] && du < u64::MAX,
                        vis_count as int + count_false(visited@) == n as int,
                        vis_count <= n - 1,
                        dist@.len() == n && visited@.len() == n && pred@.len() == n
                            && pred_link@.len() == n && depth@.len() == n,
                        t <= self.spec_links().len(),
                        dist@[si as int] == 0 && depth@[si as int] == 0,
                        forall|v: int|
                            0 <= v < n && (#[trigger] visited@[v]) ==> dist@[v] < u64::MAX,
                        forall|v: int|
                            #![trigger dist@[v]]
                            0 <= v < n && v != si && dist@[v] < u64::MAX ==> {
                                let l = self.spec_links()[pred_link@[v] as int];
                                &&& pred@[v] < n
                                &&& pred_link@[v] < self.spec_links().len()
                                &&& l.source == pred@[v]
                                &&& l.target == v
                                &&& l.active
                                &&& (visited@[pred@[v] as int] || pred@[v] == u)
                                &&& dist@[pred@[v] as int] < u64::MAX
                                &&& (dist@[v] as int) == dist@[pred@[v] as int] + l.latency_ns
                                &&& depth@[v] == depth@[pred@[v] as int] + 1
                            },
                        forall|v: int|
                            0 <= v < n && (#[trigger] dist@[v]) < u64::MAX ==> depth@[v]
                                <= vis_count + 1 && (dist@[v] as int) <= (depth@[v] as int)
                                * 27000000000,
                        depth@[u as int] <= vis_count,
                        forall|v: int|
                            0 <= v < n && (#[trigger] visited@[v]) ==> depth@[v] + 1
                                <= vis_count,
                        forall|v: int, t2: int|
                            #![trigger visited@[v], self.spec_links()[t2]]
                            0 <= v < n && visited@[v] && 0 <= t2 < self.spec_links().len()
                                && self.spec_links()[t2].source == v
                                && self.spec_links()[t2].active ==> (dist@[self.spec_links()[t2].target as int] as int)
                                <= dist@[v] + self.spec_links()[t2].latency_ns,
                        forall|v: int|
                            0 <= v < n && (#[trigger] visited@[v]) ==> dist@[v]
                                <= dist@[u as int],
                        forall|w: int|
                            0 <= w < n && !(#[trigger] visited@[w]) && dist@[w] < u64::MAX
                                ==> dist@[w] >= du,
                        forall|t2: int|
                            #![trigger self.spec_links()[t2]]
                            0 <= t2 < t && self.spec_links()[t2].source == u
                                && self.spec_links()[t2].active ==> (dist@[self.spec_links()[t2].target as int] as int)
                                <= du + self.spec_links()[t2].latency_ns,
                    decreases self.spec_links().len() - t,
                {
                    let l = &self.links[t];
                    if l.source == u && l.active {
                        let nb = l.target;
                        if !visited[nb] {
                            proof {
                                assert((depth@[u as int] as int) * 27000000000 <= 65535
                                    * 27000000000) by (nonlinear_arith)
                                    requires
                                        0 <= depth@[u as int] <= 65535,
                                ;
                                assert(((depth@[u as int] + 1) as int) * 27000000000 == (
                                depth@[u as int] as int) * 27000000000 + 27000000000)
                                    by (nonlinear_arith);
                            }
                            let new_cost: u64 = du + l.latency_ns;
                            if new_cost < dist[nb] {
                                dist.set(nb, new_cost);
                                pred.set(nb, u);
                                pred_link.set(nb, t);
                                let dd = depth[u];
                                depth.set(nb, dd + 1);
                            }
                        }
                    }
                    t = t + 1;
                }
                // u now satisfies the relaxation closure; mark it visited
                let ghost old_visited = visited@;
                visited.set(u, true);
                proof {
                    lemma_count_false_set_true(old_visited, u as int);
                }
                vis_count = vis_count + 1;
            }
        }
        proof {
            lemma_count_false_nonneg(visited@);
            lemma_dijkstra_exit(dist@, visited@, depth@, vis_count as int, n as int);
        }
        (pred, pred_link, dist, depth)
    }

    /// Follow the predecessor arrays back from a reached destination;
    /// returns the forward index path and, per hop, the serving link's
    /// index. Each hop carries the exact predecessor-distance equation,
    /// so the chain's latency equals the destination's estimate.
    #[verifier::rlimit(100)]
    #[verifier::spinoff_prover]
    fn reconstruct_path(
        &self,
        pred: &Vec<usize>,
        pred_link: &Vec<usize>,
        dist: &Vec<u64>,
        depth: &Vec<usize>,
        si: usize,
        di: usize,
    ) -> (r: (Vec<usize>, Vec<usize>))
        requires
            self.wf(),
            si < self.spec_nodes().len(),
            di < self.spec_nodes().len(),
            si != di,
            pred@.len() == self.spec_nodes().len(),
            pred_link@.len() == self.spec_nodes().len(),
            dist@.len() == self.spec_nodes().len(),
            depth@.len() == self.spec_nodes().len(),
            dist@[si as int] == 0 && depth@[si as int] == 0,
            dist@[di as int] < u64::MAX,
            forall|v: int|
                #![trigger dist@[v]]
                0 <= v < pred@.len() && v != si && dist@[v] < u64::MAX ==> {
                    let l = self.spec_links()[pred_link@[v] as int];
                    &&& pred@[v] < pred@.len()
                    &&& pred_link@[v] < self.spec_links().len()
                    &&& l.source == pred@[v]
                    &&& l.target == v
                    &&& l.active
                    &&& dist@[pred@[v] as int] < u64::MAX
                    &&& (dist@[v] as int) == dist@[pred@[v] as int] + l.latency_ns
                    &&& depth@[v] == depth@[pred@[v] as int] + 1
                },
            forall|v: int|
                0 <= v < pred@.len() && (#[trigger] dist@[v]) < u64::MAX ==> depth@[v]
                    <= pred@.len() - 1,
        ensures
            ({
                let idxs = r.0@;
                let hls = r.1@;
                &&& 2 <= idxs.len() <= self.spec_nodes().len()
                &&& idxs[0] == si
                &&& idxs[idxs.len() - 1] == di
                &&& forall|t: int| 0 <= t < idxs.len() ==> (#[trigger] idxs[t])
                    < self.spec_nodes().len()
                &&& hops_exact(self.spec_links(), idxs, hls)
                &&& forall|t: int|
                    0 <= t < hls.len() ==> (dist@[#[trigger] idxs[t + 1] as int] as int)
                        == dist@[idxs[t] as int] + self.spec_links()[hls[t] as int].latency_ns
            }),
    {
        let n = self.nodes.len();
        let mut rev: Vec<usize> = Vec::new();
        let mut rev_hl: Vec<usize> = Vec::new();
        let mut cur: usize = di;
        // Walk back: rev[q] is a node, rev_hl[q] the link from its
        // predecessor (which is rev[q+1], or finally cur) into it. The
        // hop depth strictly decreases along predecessors, so the walk
        // reaches the source in depth(di) steps.
        while cur != si
            invariant
                self.wf(),
                n == self.spec_nodes().len(),
                si < n && di < n && cur < n,
                si != di,
                pred@.len() == n && pred_link@.len() == n && dist@.len() == n && depth@.len()
                    == n,
                dist@[si as int] == 0 && depth@[si as int] == 0,
                dist@[cur as int] < u64::MAX,
                forall|v: int|
                    #![trigger dist@[v]]
                    0 <= v < n && v != si && dist@[v] < u64::MAX ==> {
                        let l = self.spec_links()[pred_link@[v] as int];
                        &&& pred@[v] < n
                        &&& pred_link@[v] < self.spec_links().len()
                        &&& l.source == pred@[v]
                        &&& l.target == v
                        &&& l.active
                        &&& dist@[pred@[v] as int] < u64::MAX
                        &&& (dist@[v] as int) == dist@[pred@[v] as int] + l.latency_ns
                        &&& depth@[v] == depth@[pred@[v] as int] + 1
                    },
                depth@[cur as int] as int + rev@.len() == depth@[di as int] as int,
                depth@[di as int] <= n - 1,
                rev_hl@.len() == rev@.len(),
                rev@.len() == 0 ==> cur == di,
                rev@.len() > 0 ==> rev@[0] == di,
                rev@.len() > 0 ==> {
                    let l = self.spec_links()[rev_hl@[rev@.len() - 1] as int];
                    &&& rev_hl@[rev@.len() - 1] < self.spec_links().len()
                    &&& l.source == cur
                    &&& l.target == rev@[rev@.len() - 1]
                    &&& l.active
                    &&& (dist@[rev@[rev@.len() - 1] as int] as int) == dist@[cur as int]
                        + l.latency_ns
                },
                forall|q: int|
                    0 <= q < rev@.len() - 1 ==> {
                        let l = self.spec_links()[#[trigger] rev_hl@[q] as int];
                        &&& rev_hl@[q] < self.spec_links().len()
                        &&& l.source == rev@[q + 1]
                        &&& l.target == rev@[q]
                        &&& l.active
                        &&& (dist@[rev@[q] as int] as int) == dist@[rev@[q + 1] as int]
                            + l.latency_ns
                    },
                forall|q: int| 0 <= q < rev@.len() ==> (#[trigger] rev@[q]) < n,
            decreases depth@[cur as int],
        {
            let pc = pred[cur];
            rev.push(cur);
            rev_hl.push(pred_link[cur]);
            cur = pc;
        }
        let mut idxs: Vec<usize> = Vec::new();
        let mut hls: Vec<usize> = Vec::new();
        idxs.push(si);
        proof {
            // the walk took at least one step, since the endpoints differ
            assert(rev@.len() >= 1);
        }
        let mut q: usize = rev.len();
        while q > 0
            invariant
                self.wf(),
                n == self.spec_nodes().len(),
                si < n && di < n,
                rev@.len() >= 1,
                rev@.len() <= n - 1,
                rev_hl@.len() == rev@.len(),
                rev@[0] == di,
                forall|w: int| 0 <= w < rev@.len() ==> (#[trigger] rev@[w]) < n,
                ({
                    let l = self.spec_links()[rev_hl@[rev@.len() - 1] as int];
                    &&& rev_hl@[rev@.len() - 1] < self.spec_links().len()
                    &&& l.source == si
                    &&& l.target == rev@[rev@.len() - 1]
                    &&& l.active
                    &&& (dist@[rev@[rev@.len() - 1] as int] as int) == dist@[si as int]
                        + l.latency_ns
                }),
                forall|w: int|
                    0 <= w < rev@.len() - 1 ==> {
                        let l = self.spec_links()[#[trigger] rev_hl@[w] as int];
                        &&& rev_hl@[w] < self.spec_links().len()
                        &&& l.source == rev@[w + 1]
                        &&& l.target == rev@[w]
                        &&& l.active
                        &&& (dist@[rev@[w] as int] as int) == dist@[rev@[w + 1] as int]
                            + l.latency_ns
                    },
                q <= rev@.len(),
                idxs@.len() == 1 + (rev@.len() - q),
                hls@.len() == rev@.len() - q,
                idxs@[0] == si,
                dist@.len() == n,
                forall|w: int|
                    1 <= w < idxs@.len() ==> (#[trigger] idxs@[w]) == rev@[rev@.len() - w],
                forall|w: int| 0 <= w < idxs@.len() ==> (#[trigger] idxs@[w]) < n,
                forall|w: int|
                    0 <= w < hls@.len() ==> {
                        let l = self.spec_links()[#[trigger] hls@[w] as int];
                        &&& hls@[w] < self.spec_links().len()
                        &&& l.source == idxs@[w]
                        &&& l.target == idxs@[w + 1]
                        &&& l.active
                        &&& (dist@[idxs@[w + 1] as int] as int) == dist@[idxs@[w] as int]
                            + l.latency_ns
                    },
            decreases q,
        {
            idxs.push(rev[q - 1]);
            hls.push(rev_hl[q - 1]);
            q = q - 1;
        }
        proof {
            assert(idxs@[idxs@.len() - 1] == rev@[0]);
            assert(hops_exact(self.spec_links(), idxs@, hls@));
        }
        (idxs, hls)
    }

    /// Assemble the route for a forward index path: the node-id strings
    /// and the exact hop totals.
    fn route_of_path(
        &self,
        idxs: &Vec<usize>,
        hls: &Vec<usize>,
        src_owned: String,
        dst_owned: String,
    ) -> (r: Route)
        requires
            self.wf(),
            2 <= idxs@.len() <= self.spec_nodes().len(),
            forall|t: int| 0 <= t < idxs@.len() ==> (#[trigger] idxs@[t]) < self.spec_nodes().len(),
            hops_exact(self.spec_links(), idxs@, hls@),
            self.spec_nodes()[idxs@[0] as int].node_id@ == src_owned@,
            self.spec_nodes()[idxs@[idxs@.len() - 1] as int].node_id@ == dst_owned@,
        ensures
            r.source_id@ == src_owned@,
            r.destination_id@ == dst_owned@,
            connected_route(self.spec_nodes(), self.spec_links(), r, src_owned@, dst_owned@),
            r.path@.len() >= 2,
            r.total_latency_ns as int == hops_latency(self.spec_links(), hls@),
    {
        let mut total_latency: u64 = 0;
        let mut total_distance: u64 = 0;
        let mut min_bw: u64 = u64::MAX;
        let mut path: Vec<String> = Vec::new();
        let mut w: usize = 0;
        while w < idxs.len()
            invariant
                idxs@.len() >= 2,
                idxs@.len() <= 65536,
                forall|t: int|
                    0 <= t < idxs@.len() ==> (#[trigger] idxs@[t]) < self.spec_nodes().len(),
                hops_exact(self.spec_links(), idxs@, hls@),
                forall|t: int|
                    0 <= t < self.spec_links().len() ==> (#[trigger] self.spec_links()[t]).latency_ns
                        <= 27000000000 && self.spec_links()[t].distance_m <= 8000000000,
                w <= idxs@.len(),
                path@.len() == w,
                forall|t: int|
                    0 <= t < w ==> (#[trigger] path@[t])@ == self.spec_nodes()[idxs@[t] as int].node_id@,
                total_latency as int == hops_latency(
                    self.spec_links(),
                    hls@.subrange(0, if w >= 1 { w - 1 } else { 0int }),
                ),
                total_distance as int == hops_distance(
                    self.spec_links(),
                    hls@.subrange(0, if w >= 1 { w - 1 } else { 0int }),
                ),
                min_bw as int == hops_min_bandwidth(
                    self.spec_links(),
                    hls@.subrange(0, if w >= 1 { w - 1 } else { 0int }),
                ),
                total_latency as int <= (w as int) * 27000000000,
                total_distance as int <= (w as int) * 8000000000,
            decreases idxs@.len() - w,
        {
            path.push(self.nodes[idxs[w]].node_id.clone());
            if w > 0 {
                let l = &self.links[hls[w - 1]];
                proof {
                    let sub_pre = hls@.subrange(0, w - 1);
                    let sub_post = hls@.subrange(0, w as int);
                    assert(sub_post.drop_last() =~= sub_pre);
                    assert(sub_post.last() == hls@[w - 1]);
                    assert((w as int - 1) * 27000000000 + 27000000000 == (w as int)
                        * 27000000000) by (nonlinear_arith);
                    assert((w as int - 1) * 8000000000 + 8000000000 == (w as int) * 8000000000)
                        by (nonlinear_arith);
                    assert((w as int) * 27000000000 <= 65536 * 27000000000) by (nonlinear_arith)
                        requires
                            0 <= w <= 65536,
                    ;
                    assert((w as int) * 8000000000 <= 65536 * 8000000000) by (nonlinear_arith)
                        requires
                            0 <= w <= 65536,
                    ;
                }
                total_latency = total_latency + l.latency_ns;
                total_distance = total_distance + l.distance_m;
                if l.bandwidth_mbps < min_bw {
                    min_bw = l.bandwidth_mbps;
                }
            }
            w = w + 1;
        }
        proof {
            assert(hls@.subrange(0, idxs@.len() - 1) =~= hls@);
        }
        let hops = idxs.len() - 1;
        let r = Route {
            source_id: src_owned,
            destination_id: dst_owned,
            path,
            total_distance_m: total_distance,
            total_latency_ns: total_latency,
            min_bandwidth_mbps: min_bw,
            num_hops: hops,
        };
        r
    }

    /// Find a minimum-latency route between two registered nodes, by
    /// Dijkstra's algorithm over the stored active links.
    ///
    /// An unknown id yields an explicitly invalid route (an empty path)
    /// rather than an error, and routing a node to itself yields a
    /// zero-hop, zero-latency route with unconstrained bandwidth. For two
    /// distinct registered ids, each id names its first registered node:
    /// the route is invalid exactly when no chain of stored active links
    /// joins those two nodes; otherwise it is a genuine chain between them
    /// with exact totals, and its total latency is minimal over every such
    /// chain. Unreachability is a steady-state condition in an evolving
    /// mesh, not an error.
    #[verifier::rlimit(100)]
    #[verifier::spinoff_prover]
    pub fn find_route(&self, source_id: &str, destination_id: &str) -> (r: Route)
        requires
            self.wf(),
        ensures
            r.source_id@ == source_id@,
            r.destination_id@ == destination_id@,
            !(known_id(self.spec_nodes(), source_id@) && known_id(
                self.spec_nodes(),
                destination_id@,
            )) ==> invalid_route(r, source_id@, destination_id@),
            known_id(self.spec_nodes(), source_id@) && known_id(
                self.spec_nodes(),
                destination_id@,
            ) && source_id@ == destination_id@ ==> {
                &&& r.path@.len() == 1
                &&& r.path@[0]@ == source_id@
                &&& r.total_distance_m == 0
                &&& r.total_latency_ns == 0
                &&& r.min_bandwidth_mbps == u64::MAX
                &&& r.num_hops == 0
            },
            known_id(self.spec_nodes(), source_id@) && known_id(
                self.spec_nodes(),
                destination_id@,
            ) && source_id@ != destination_id@ ==> forall|fs: int, fd: int|
                #![trigger is_first_with_id(self.spec_nodes(), source_id@, fs), is_first_with_id(self.spec_nodes(), destination_id@, fd)]
                is_first_with_id(self.spec_nodes(), source_id@, fs) && is_first_with_id(
                    self.spec_nodes(),
                    destination_id@,
                    fd,
                ) ==> {
                    &&& (invalid_route(r, source_id@, destination_id@) || connected_route(
                        self.spec_nodes(),
                        self.spec_links(),
                        r,
                        source_id@,
                        destination_id@,
                    ))
                    &&& ((exists|idxs: Seq<usize>, hls: Seq<usize>|
                        chain_between(
                            self.spec_links(),
                            idxs,
                            hls,
                            fs,
                            fd,
                            self.spec_nodes().len() as int,
                        )) <==> !invalid_route(r, source_id@, destination_id@))
                    &&& forall|idxs: Seq<usize>, hls: Seq<usize>|
                        chain_between(
                            self.spec_links(),
                            idxs,
                            hls,
                            fs,
                            fd,
                            self.spec_nodes().len() as int,
                        ) ==> (r.total_latency_ns as int) <= hops_latency(self.spec_links(), hls)
                },
    {
        let n = self.nodes.len();
        let si_opt = self.find_node_index(source_id);
        let di_opt = self.find_node_index(destination_id);
        let (si, di) = match (si_opt, di_opt) {
            (Option::Some(a), Option::Some(b)) => (a, b),
            _ => {
                return Route {
                    source_id: source_id.to_owned(),
                    destination_id: destination_id.to_owned(),
                    path: Vec::new(),
                    total_distance_m: 0,
                    total_latency_ns: 0,
                    min_bandwidth_mbps: 0,
                    num_hops: 0,
                };
            },
        };

        let src_owned: String = source_id.to_owned();
        let dst_owned: String = destination_id.to_owned();
        if src_owned == dst_owned {
            let mut path: Vec<String> = Vec::new();
            path.push(source_id.to_owned());
            return Route {
                source_id: src_owned,
                destination_id: dst_owned,
                path,
                total_distance_m: 0,
                total_latency_ns: 0,
                min_bandwidth_mbps: u64::MAX,
                num_hops: 0,
            };
        }
        proof {
            // distinct ids resolve to distinct first nodes
            assert(self.spec_nodes()[si as int].node_id@ != self.spec_nodes()[di as int].node_id@);
        }

        let (pred, pred_link, dist, depth) = self.dijkstra_preds(si);
        let ghost links = self.spec_links();
        let ghost nodes = self.spec_nodes();

        if dist[di] == u64::MAX {
            let r = Route {
                source_id: src_owned,
                destination_id: dst_owned,
                path: Vec::new(),
                total_distance_m: 0,
                total_latency_ns: 0,
                min_bandwidth_mbps: 0,
                num_hops: 0,
            };
            proof {
                // no chain can join the endpoints: the estimates are
                // closed under relaxation, so a chain would have given
                // the destination a finite estimate
                assert forall|fs: int, fd: int|
                    is_first_with_id(nodes, source_id@, fs) && is_first_with_id(
                        nodes,
                        destination_id@,
                        fd,
                    ) implies !(exists|idxs: Seq<usize>, hls: Seq<usize>|
                    chain_between(links, idxs, hls, fs, fd, nodes.len() as int)) by {
                    assert(fs == si as int && fd == di as int);
                    if exists|idxs: Seq<usize>, hls: Seq<usize>|
                        chain_between(links, idxs, hls, fs, fd, nodes.len() as int) {
                        let (idxs, hls) = choose|idxs: Seq<usize>, hls: Seq<usize>|
                            chain_between(links, idxs, hls, fs, fd, nodes.len() as int);
                        lemma_dijkstra_complete(links, dist@, idxs, hls, nodes.len() as int);
                    }
                }
            }
            return r;
        }

        let (idxs, hls) = self.reconstruct_path(&pred, &pred_link, &dist, &depth, si, di);
        let r = self.route_of_path(&idxs, &hls, src_owned, dst_owned);
        proof {
            lemma_chain_latency_is_dist(links, dist@, idxs@, hls@);
            assert forall|fs: int, fd: int|
                is_first_with_id(nodes, source_id@, fs) && is_first_with_id(
                    nodes,
                    destination_id@,
                    fd,
                ) implies {
                &&& (exists|idxs2: Seq<usize>, hls2: Seq<usize>|
                    chain_between(links, idxs2, hls2, fs, fd, nodes.len() as int))
                &&& forall|idxs2: Seq<usize>, hls2: Seq<usize>|
                    chain_between(links, idxs2, hls2, fs, fd, nodes.len() as int) ==> (
                    r.total_latency_ns as int) <= hops_latency(links, hls2)
            } by {
                assert(fs == si as int && fd == di as int);
                assert(chain_between(links, idxs@, hls@, fs, fd, nodes.len() as int));
                assert forall|idxs2: Seq<usize>, hls2: Seq<usize>|
                    chain_between(links, idxs2, hls2, fs, fd, nodes.len() as int) implies (
                r.total_latency_ns as int) <= hops_latency(links, hls2) by {
                    lemma_dijkstra_complete(links, dist@, idxs2, hls2, nodes.len() as int);
                }
            }
        }
        r
    }
}

/// The id given to satellite `s` of plane `p` of a constellation.
pub open spec fn constellation_id(name: Seq<char>, p: nat, s: nat) -> Seq<char> {
    name + "_P"@ + dec_str(p) + "_S"@ + dec_str(s)
}

proof fn lemma_plane_slot_unique(a: int, b: int, p: int, q: int, s: int)
    requires
        s >= 1,
        0 <= b < s,
        0 <= q < s,
        a * s + b == p * s + q,
    ensures
        a == p && b == q,
{
    assert(a == p && b == q) by (nonlinear_arith)
        requires
            s >= 1,
            0 <= b < s,
            0 <= q < s,
            a * s + b == p * s + q,
    ;
}

/// Create a Walker-Delta constellation mesh: planes evenly spaced in
/// right ascension, satellites evenly spaced within a plane plus an
/// inter-plane phase offset against coverage seams, with the topology
/// built immediately.
pub fn create_constellation(
    name: &str,
    num_planes: usize,
    sats_per_plane: usize,
    altitude_m: u64,
    inclination_mdeg: u64,
    isl_range_m: u64,
) -> (r: SpaceMesh)
    requires
        1 <= num_planes,
        1 <= sats_per_plane,
        (num_planes as int) * (sats_per_plane as int) <= 65536,
        altitude_m <= 1000000000,
        inclination_mdeg <= 1000000000,
    ensures
        r.wf(),
        r.spec_default_range() == isl_range_m,
        r.spec_nodes().len() == (num_planes as int) * (sats_per_plane as int),
        r.topology_fresh(),
        forall|p: int, q: int|
            0 <= p < num_planes && 0 <= q < sats_per_plane ==> {
                let nd = #[trigger] r.spec_nodes()[p * (sats_per_plane as int) + q];
                &&& nd.node_id@ == constellation_id(name@, p as nat, q as nat)
                &&& nd.orbit_altitude_m == altitude_m
                &&& nd.orbit_inclination_mdeg == inclination_mdeg
                &&& nd.raan_mdeg as int == 360000 * p / (num_planes as int)
                &&& nd.mean_anomaly_mdeg as int == 360000 * q / (sats_per_plane as int) + 360000
                    * p / ((num_planes as int) * (sats_per_plane as int))
                &&& nd.isl_range_m == isl_range_m
                &&& nd.isl_bandwidth_mbps == 10000
                &&& nd.compute_gflops == 10000
            },
{
    let spp = sats_per_plane;
    proof {
        assert(1 <= (num_planes as int) * (spp as int) && num_planes <= 65536 && spp <= 65536)
            by (nonlinear_arith)
            requires
                1 <= num_planes,
                1 <= spp,
                (num_planes as int) * (spp as int) <= 65536,
        ;
    }
    let mut nodes: Vec<OrbitalNode> = Vec::new();
    let mut p: usize = 0;
    while p < num_planes
        invariant
            1 <= num_planes <= 65536,
            1 <= spp <= 65536,
            spp == sats_per_plane,
            1 <= (num_planes as int) * (spp as int) <= 65536,
            altitude_m <= 1000000000,
            inclination_mdeg <= 1000000000,
            p <= num_planes,
            nodes@.len() == (p as int) * (spp as int),
            forall|a: int, b: int|
                0 <= a < num_planes && 0 <= b < spp && a * (spp as int) + b < nodes@.len() ==> {
                    let nd = #[trigger] nodes@[a * (spp as int) + b];
                    &&& nd.node_id@ == constellation_id(name@, a as nat, b as nat)
                    &&& nd.orbit_altitude_m == altitude_m
                    &&& nd.orbit_inclination_mdeg == inclination_mdeg
                    &&& nd.raan_mdeg as int == 360000 * a / (num_planes as int)
                    &&& nd.mean_anomaly_mdeg as int == 360000 * b / (spp as int) + 360000 * a / ((
                    num_planes as int) * (spp as int))
                    &&& nd.isl_range_m == isl_range_m
                    &&& nd.isl_bandwidth_mbps == 10000
                    &&& nd.compute_gflops == 10000
                    &&& node_ok(nd)
                },
        decreases num_planes - p,
    {
        proof {
            assert((p as int) * (spp as int) + (spp as int) == ((p + 1) as int) * (spp as int))
                by (nonlinear_arith);
            assert((p as int) * (spp as int) <= (num_planes as int) * (spp as int))
                by (nonlinear_arith)
                requires
                    0 <= p < num_planes,
                    spp >= 1,
            ;
            assert(((p + 1) as int) * (spp as int) <= (num_planes as int) * (spp as int))
                by (nonlinear_arith)
                requires
                    0 <= p + 1 <= num_planes,
                    spp >= 1,
            ;
        }
        proof {
            vstd::arithmetic::div_mod::lemma_div_is_ordered_by_denominator(
                360000 * (p as int),
                1,
                num_planes as int,
            );
            vstd::arithmetic::div_mod::lemma_div_basics(360000 * (p as int));
            vstd::arithmetic::div_mod::lemma_div_pos_is_pos(
                360000 * (p as int),
                num_planes as int,
            );
        }
        let raan: u64 = (360000 * (p as u64)) / (num_planes as u64);
        let plane_digits = u64_to_dec_string(p as u64);
        let mut q: usize = 0;
        while q < spp
            invariant
                1 <= num_planes <= 65536,
                1 <= spp <= 65536,
                spp == sats_per_plane,
                1 <= (num_planes as int) * (spp as int) <= 65536,
                (p as int) * (spp as int) + (spp as int) <= (num_planes as int) * (spp as int),
                altitude_m <= 1000000000,
                inclination_mdeg <= 1000000000,
                p < num_planes,
                q <= spp,
                raan as int == 360000 * (p as int) / (num_planes as int),
                raan <= 24000000000,
                plane_digits@ == dec_str(p as nat),
                nodes@.len() == (p as int) * (spp as int) + q,
                nodes@.len() <= 65536,
                forall|a: int, b: int|
                    0 <= a < num_planes && 0 <= b < spp && a * (spp as int) + b < nodes@.len()
                        ==> {
                        let nd = #[trigger] nodes@[a * (spp as int) + b];
                        &&& nd.node_id@ == constellation_id(name@, a as nat, b as nat)
                        &&& nd.orbit_altitude_m == altitude_m
                        &&& nd.orbit_inclination_mdeg == inclination_mdeg
                        &&& nd.raan_mdeg as int == 360000 * a / (num_planes as int)
                        &&& nd.mean_anomaly_mdeg as int == 360000 * b / (spp as int) + 360000 * a
                            / ((num_planes as int) * (spp as int))
                        &&& nd.isl_range_m == isl_range_m
                        &&& nd.isl_bandwidth_mbps == 10000
                        &&& nd.compute_gflops == 10000
                        &&& node_ok(nd)
                    },
            decreases spp - q,
        {
            proof {
                vstd::arithmetic::div_mod::lemma_div_is_ordered_by_denominator(
                    360000 * (q as int),
                    1,
                    spp as int,
                );
                vstd::arithmetic::div_mod::lemma_div_basics(360000 * (q as int));
                vstd::arithmetic::div_mod::lemma_div_pos_is_pos(360000 * (q as int), spp as int);
                vstd::arithmetic::div_mod::lemma_div_is_ordered_by_denominator(
                    360000 * (p as int),
                    1,
                    (num_planes as int) * (spp as int),
                );
                vstd::arithmetic::div_mod::lemma_div_basics(360000 * (p as int));
                vstd::arithmetic::div_mod::lemma_div_pos_is_pos(
                    360000 * (p as int),
                    (num_planes as int) * (spp as int),
                );
            }
            let ma: u64 = (360000 * (q as u64)) / (spp as u64) + (360000 * (p as u64)) / ((
            num_planes as u64) * (spp as u64));
            let mut id: String = name.to_owned();
            id.append("_P");
            id.append(plane_digits.as_str());
            id.append("_S");
            let sat_digits = u64_to_dec_string(q as u64);
            id.append(sat_digits.as_str());
            proof {
                assert(id@ =~= constellation_id(name@, p as nat, q as nat));
            }
            let node = OrbitalNode {
                node_id: id,
                orbit_altitude_m: altitude_m,
                orbit_inclination_mdeg: inclination_mdeg,
                raan_mdeg: raan,
                mean_anomaly_mdeg: ma,
                isl_range_m,
                isl_bandwidth_mbps: 10000,
                compute_gflops: 10000,
            };
            let ghost pre = nodes@;
            nodes.push(node);
            proof {
                assert(nodes@[pre.len() as int] == node);
                assert forall|a: int, b: int|
                    0 <= a < num_planes && 0 <= b < spp && a * (spp as int) + b
                        < nodes@.len() implies {
                    let nd = #[trigger] nodes@[a * (spp as int) + b];
                    &&& nd.node_id@ == constellation_id(name@, a as nat, b as nat)
                    &&& nd.orbit_altitude_m == altitude_m
                    &&& nd.orbit_inclination_mdeg == inclination_mdeg
                    &&& nd.raan_mdeg as int == 360000 * a / (num_planes as int)
                    &&& nd.mean_anomaly_mdeg as int == 360000 * b / (spp as int) + 360000 * a / ((
                    num_planes as int) * (spp as int))
                    &&& nd.isl_range_m == isl_range_m
                    &&& nd.isl_bandwidth_mbps == 10000
                    &&& nd.compute_gflops == 10000
                    &&& node_ok(nd)
                } by {
                    if a * (spp as int) + b < pre.len() {
                        assert(nodes@[a * (spp as int) + b] == pre[a * (spp as int) + b]);
                    } else {
                        lemma_plane_slot_unique(a, b, p as int, q as int, spp as int);
                    }
                }
            }
            q = q + 1;
        }
        p = p + 1;
    }
    let mut mesh = SpaceMesh { default_isl_range_m: isl_range_m, nodes, links: Vec::new() };
    proof {
        assert forall|i: int| 0 <= i < mesh.spec_nodes().len() implies node_ok(
            #[trigger] mesh.spec_nodes()[i],
        ) by {
            vstd::arithmetic::div_mod::lemma_fundamental_div_mod(i, spp as int);
            vstd::arithmetic::div_mod::lemma_mod_bound(i, spp as int);
            let a = i / (spp as int);
            let b = i % (spp as int);
            assert((spp as int) * a + b == a * (spp as int) + b) by (nonlinear_arith);
            assert(a < num_planes) by (nonlinear_arith)
                requires
                    a * (spp as int) + b == i,
                    0 <= b < spp,
                    i < (num_planes as int) * (spp as int),
                    0 <= a,
                    1 <= spp,
            ;
            assert(a >= 0) by (nonlinear_arith)
                requires
                    (spp as int) * a + b == i,
                    0 <= b < spp,
                    i >= 0,
                    1 <= spp,
            ;
            assert(node_ok(mesh.spec_nodes()[a * (spp as int) + b]));
        }
        assert(mesh.wf());
        assert forall|pp: int, qq: int|
            0 <= pp < num_planes && 0 <= qq < sats_per_plane implies #[trigger] (pp * (
        sats_per_plane as int) + qq) < mesh.spec_nodes().len() by {
            assert(pp * (spp as int) + qq < (num_planes as int) * (spp as int))
                by (nonlinear_arith)
                requires
                    0 <= pp < num_planes,
                    0 <= qq < spp,
            ;
        }
    }
    mesh.update_topology();
    mesh
}

} // verus!

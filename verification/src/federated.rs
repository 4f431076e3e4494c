//! Lossy gradient compression with error feedback, and server-side
//! aggregation of the compressed submissions.
//!
//! Gradient components are fixed-point integers: the caller picks a scale
//! (for example micro-units) and every contract here is exact integer
//! arithmetic on those components.
use vstd::prelude::*;

use crate::errors::DistributedError;

verus! {

/// Largest magnitude accepted for an input gradient component.
pub const GRAD_LIMIT: i64 = 0x100_0000_0000;

/// Window the stored error-feedback residual is clamped into: four times
/// the input window, so a residual computed from a working vector whose
/// accumulated residual still lies within the input window is stored
/// exactly, with no clamping (see `lemma_residual_exact`).
pub const RESID_LIMIT: i64 = 0x400_0000_0000;

/// Largest magnitude a working or kept component can take: an input
/// component plus a stored residual.
pub const VAL_LIMIT: i64 = 0x800_0000_0000;

/// Gradient compression method.
#[derive(Debug, Clone, Copy, PartialEq, Eq, Structural)]
pub enum CompressionMethod {
    /// No compression: every position is kept.
    NoCompression,
    /// Top-K sparsification only.
    TopK,
    /// Top-K sparsification followed by uniform quantization.
    TopKQuantized,
    /// Pseudo-random K-subset sparsification.
    RandomK,
    /// Dense uniform quantization, no sparsification.
    Quantization,
}

/// Strategy for combining gradients from multiple nodes.
#[derive(Debug, Clone, Copy, PartialEq, Eq, Structural)]
pub enum AggregationStrategy {
    /// Sample-weighted federated averaging.
    FedAvg,
    /// Uniform averaging over however many nodes reported.
    AsyncFedAvg,
    /// Sample-weighted averaging; combined exactly as `FedAvg`.
    WeightedAvg,
}

/// Configuration for gradient compression.
///
/// The sparsification ratio is held in parts per million: `10000` keeps
/// the top 1 percent.
#[derive(Debug, Clone, Copy, PartialEq, Eq, Structural)]
pub struct CompressionConfig {
    /// Compression method to use.
    pub method: CompressionMethod,
    /// For K-subset methods, the fraction of components kept, in parts
    /// per million; must lie in `(0, 1000000]`.
    pub k_ratio_ppm: u32,
    /// Quantization bit-width; one of 2, 4, 8, 16 or 32.
    pub quantization_bits: u8,
    /// Whether the discarded remainder is carried into the next round.
    pub error_feedback: bool,
}

/// The balanced default configuration: top 1 percent, 8 bits, error
/// feedback on.
pub open spec fn balanced_config() -> CompressionConfig {
    CompressionConfig {
        method: CompressionMethod::TopKQuantized,
        k_ratio_ppm: 10000,
        quantization_bits: 8,
        error_feedback: true,
    }
}

/// The minimal-compression configuration: dense 16-bit quantization, no
/// error feedback.
pub open spec fn low_config() -> CompressionConfig {
    CompressionConfig {
        method: CompressionMethod::Quantization,
        k_ratio_ppm: 1000000,
        quantization_bits: 16,
        error_feedback: false,
    }
}

/// The supported quantization bit-widths.
pub open spec fn bits_supported(bits: u8) -> bool {
    bits == 2 || bits == 4 || bits == 8 || bits == 16 || bits == 32
}

/// A configuration every compressor operation accepts.
pub open spec fn config_ok(c: CompressionConfig) -> bool {
    &&& 0 < c.k_ratio_ppm <= 1000000
    &&& bits_supported(c.quantization_bits)
}

impl CompressionConfig {
    /// Create a configuration with error feedback enabled.
    ///
    /// Rejects a bit-width outside the supported set or a ratio outside
    /// `(0, 1000000]` parts per million.
    pub fn new(method: CompressionMethod, k_ratio_ppm: u32, quantization_bits: u8) -> (r: Result<
        Self,
        DistributedError,
    >)
        ensures
            r is Ok <==> config_ok(
                CompressionConfig { method, k_ratio_ppm, quantization_bits, error_feedback: true },
            ),
            r matches Ok(c) ==> c == (CompressionConfig {
                method,
                k_ratio_ppm,
                quantization_bits,
                error_feedback: true,
            }),
            r is Err ==> r == Result::<Self, DistributedError>::Err(
                DistributedError::UnsupportedParameter,
            ),
    {
        let supported = quantization_bits == 2 || quantization_bits == 4 || quantization_bits == 8
            || quantization_bits == 16 || quantization_bits == 32;
        if !supported || k_ratio_ppm == 0 || k_ratio_ppm > 1000000 {
            return Result::Err(DistributedError::UnsupportedParameter);
        }
        Result::Ok(CompressionConfig { method, k_ratio_ppm, quantization_bits, error_feedback: true })
    }

    /// Aggressive compression: top 0.1 percent, 4-bit quantization.
    pub fn high_compression() -> (r: Self)
        ensures
            r.method == CompressionMethod::TopKQuantized,
            r.k_ratio_ppm == 1000,
            r.quantization_bits == 4,
            r.error_feedback == true,
            config_ok(r),
    {
        CompressionConfig {
            method: CompressionMethod::TopKQuantized,
            k_ratio_ppm: 1000,
            quantization_bits: 4,
            error_feedback: true,
        }
    }

    /// Balanced compression: top 1 percent, 8-bit quantization.
    pub fn balanced() -> (r: Self)
        ensures
            r.method == CompressionMethod::TopKQuantized,
            r.k_ratio_ppm == 10000,
            r.quantization_bits == 8,
            r.error_feedback == true,
            r == balanced_config(),
            config_ok(r),
    {
        CompressionConfig {
            method: CompressionMethod::TopKQuantized,
            k_ratio_ppm: 10000,
            quantization_bits: 8,
            error_feedback: true,
        }
    }

    /// Minimal compression for high-bandwidth links: dense 16-bit
    /// quantization, no error feedback.
    pub fn low_compression() -> (r: Self)
        ensures
            r.method == CompressionMethod::Quantization,
            r.k_ratio_ppm == 1000000,
            r.quantization_bits == 16,
            r.error_feedback == false,
            r == low_config(),
            config_ok(r),
    {
        CompressionConfig {
            method: CompressionMethod::Quantization,
            k_ratio_ppm: 1000000,
            quantization_bits: 16,
            error_feedback: false,
        }
    }

    /// The compression ratio this configuration aims for, in parts per
    /// million of the uncompressed size; smaller means more compression.
    pub open spec fn spec_theoretical_ratio_ppm(self) -> int {
        match self.method {
            CompressionMethod::NoCompression => 1000000,
            CompressionMethod::TopK => 2 * self.k_ratio_ppm as int,
            CompressionMethod::TopKQuantized => self.k_ratio_ppm as int * (32
                + self.quantization_bits as int) / 32,
            CompressionMethod::Quantization => self.quantization_bits as int * 1000000 / 32,
            CompressionMethod::RandomK => self.k_ratio_ppm as int,
        }
    }

    /// Executable form of [`Self::spec_theoretical_ratio_ppm`].
    pub fn theoretical_compression_ratio_ppm(&self) -> (r: u64)
        ensures
            r as int == self.spec_theoretical_ratio_ppm(),
    {
        proof {
            assert((self.k_ratio_ppm as int) * (32 + self.quantization_bits as int) <= 0xffffffff
                * 287) by (nonlinear_arith)
                requires
                    self.k_ratio_ppm <= 0xffffffff,
                    self.quantization_bits <= 255,
            ;
        }
        match self.method {
            CompressionMethod::NoCompression => 1000000,
            CompressionMethod::TopK => 2 * self.k_ratio_ppm as u64,
            CompressionMethod::TopKQuantized => (self.k_ratio_ppm as u64) * (32
                + self.quantization_bits as u64) / 32,
            CompressionMethod::Quantization => (self.quantization_bits as u64) * 1000000 / 32,
            CompressionMethod::RandomK => self.k_ratio_ppm as u64,
        }
    }
}

/// Compressed gradient representation: the values kept and the positions
/// they came from.
#[derive(Debug, Clone)]
pub struct CompressedGradient {
    /// Positions of the retained components, pairwise distinct.
    pub indices: Vec<usize>,
    /// Retained (possibly quantized) values, one per index.
    pub values: Vec<i64>,
    /// Original tensor shape; here always the flat length.
    pub shape: Vec<usize>,
    /// Number of components of the uncompressed gradient.
    pub original_size: usize,
    /// Compressed size in bytes.
    pub compressed_size: usize,
    /// Achieved ratio of compressed to uncompressed bytes, in parts per
    /// million.
    pub compression_ratio_ppm: u64,
    /// Bit-width used, when the values were quantized.
    pub quantization_bits: Option<u8>,
}

/// Structural well-formedness of a compressed gradient: one value per
/// index, indices distinct and in range, values within the magnitude the
/// compressor can produce.
pub open spec fn gradient_wf(g: CompressedGradient) -> bool {
    &&& g.values@.len() == g.indices@.len()
    &&& g.indices@.len() <= g.original_size
    &&& forall|i: int| 0 <= i < g.indices@.len() ==> (#[trigger] g.indices@[i]) < g.original_size
    &&& g.indices@.no_duplicates()
    &&& forall|i: int|
        0 <= i < g.values@.len() ==> -VAL_LIMIT <= #[trigger] g.values@[i] <= VAL_LIMIT
}

/// The dense component at position `p` contributed by the first `upto`
/// index/value pairs: the paired value where some index equals `p`, and
/// zero otherwise (indices are distinct, so at most one pair contributes).
pub open spec fn scatter_at(ind: Seq<usize>, vals: Seq<i64>, upto: int, p: int) -> int
    decreases upto,
{
    if upto <= 0 {
        0
    } else {
        scatter_at(ind, vals, upto - 1, p) + if ind[upto - 1] == p {
            vals[upto - 1] as int
        } else {
            0
        }
    }
}

/// The dense component at position `p` of a compressed gradient.
pub open spec fn scattered(g: CompressedGradient, p: int) -> int {
    scatter_at(g.indices@, g.values@, g.indices@.len() as int, p)
}

/// Positions no pair mentions scatter to zero.
proof fn lemma_scatter_at_missing(ind: Seq<usize>, vals: Seq<i64>, upto: int, p: int)
    requires
        0 <= upto <= ind.len(),
        forall|t: int| 0 <= t < upto ==> (#[trigger] ind[t]) != p,
    ensures
        scatter_at(ind, vals, upto, p) == 0,
    decreases upto,
{
    if upto > 0 {
        lemma_scatter_at_missing(ind, vals, upto - 1, p);
    }
}

/// With distinct indices, the scatter at `ind[i]` is exactly `vals[i]`.
pub proof fn lemma_scatter_at_hit(ind: Seq<usize>, vals: Seq<i64>, i: int)
    requires
        vals.len() == ind.len(),
        ind.no_duplicates(),
        0 <= i < ind.len(),
    ensures
        scatter_at(ind, vals, ind.len() as int, ind[i] as int) == vals[i],
    decreases ind.len(),
{
    let n = ind.len() as int;
    lemma_scatter_hit_rec(ind, vals, n, i);
}

proof fn lemma_scatter_hit_rec(ind: Seq<usize>, vals: Seq<i64>, upto: int, i: int)
    requires
        vals.len() == ind.len(),
        ind.no_duplicates(),
        0 <= i < upto <= ind.len(),
    ensures
        scatter_at(ind, vals, upto, ind[i] as int) == vals[i],
    decreases upto,
{
    if i == upto - 1 {
        lemma_scatter_at_missing(ind, vals, upto - 1, ind[i] as int);
    } else {
        lemma_scatter_hit_rec(ind, vals, upto - 1, i);
    }
}

/// Scatter index/value pairs into a dense zero-initialized vector.
fn scatter_exec(ind: &Vec<usize>, vals: &Vec<i64>, n: usize) -> (r: Vec<i64>)
    requires
        vals@.len() == ind@.len(),
        ind@.no_duplicates(),
        forall|i: int| 0 <= i < ind@.len() ==> (#[trigger] ind@[i]) < n,
        forall|i: int| 0 <= i < vals@.len() ==> -VAL_LIMIT <= #[trigger] vals@[i] <= VAL_LIMIT,
    ensures
        r@.len() == n,
        forall|p: int| 0 <= p < n ==> r@[p] as int == scatter_at(ind@, vals@, ind@.len() as int, p),
        forall|p: int| 0 <= p < n ==> -VAL_LIMIT <= #[trigger] r@[p] <= VAL_LIMIT,
{
    let mut r: Vec<i64> = vec![0i64; n];
    let mut i: usize = 0;
    while i < ind.len()
        invariant
            vals@.len() == ind@.len(),
            ind@.no_duplicates(),
            forall|t: int| 0 <= t < ind@.len() ==> (#[trigger] ind@[t]) < n,
            forall|t: int| 0 <= t < vals@.len() ==> -VAL_LIMIT <= #[trigger] vals@[t] <= VAL_LIMIT,
            i <= ind@.len(),
            r@.len() == n,
            forall|p: int| 0 <= p < n ==> r@[p] as int == scatter_at(ind@, vals@, i as int, p),
            forall|p: int| 0 <= p < n ==> -VAL_LIMIT <= #[trigger] r@[p] <= VAL_LIMIT,
        decreases ind@.len() - i,
    {
        let idx = ind[i];
        proof {
            lemma_scatter_at_missing_prefix(ind@, vals@, i as int);
        }
        r.set(idx, vals[i]);
        i = i + 1;
    }
    r
}

/// In a duplicate-free index sequence, position `ind[i]` receives nothing
/// from the pairs before `i`.
proof fn lemma_scatter_at_missing_prefix(ind: Seq<usize>, vals: Seq<i64>, i: int)
    requires
        ind.no_duplicates(),
        0 <= i < ind.len(),
    ensures
        scatter_at(ind, vals, i, ind[i] as int) == 0,
{
    lemma_scatter_at_missing(ind, vals, i, ind[i] as int);
}

/// The integer values of a vector of fixed-point components.
pub open spec fn int_seq(s: Seq<i64>) -> Seq<int> {
    Seq::new(s.len(), |i: int| s[i] as int)
}

/// Absolute value.
pub open spec fn abs_i(x: int) -> int {
    if x < 0 {
        -x
    } else {
        x
    }
}

/// Whether position `p` occurs in the index sequence.
pub open spec fn in_sel(ind: Seq<usize>, p: int) -> bool {
    exists|t: int| 0 <= t < ind.len() && (#[trigger] ind[t]) == p
}

/// The selection order of Top-K: position `a` comes before `b` when its
/// component has strictly larger magnitude, or equal magnitude and a
/// smaller index (the stable tie-break).
pub open spec fn key_before(w: Seq<int>, a: int, b: int) -> bool {
    abs_i(w[a]) > abs_i(w[b]) || (abs_i(w[a]) == abs_i(w[b]) && a < b)
}

/// `ind` lists the `k` positions of the largest-magnitude components of
/// `w`, in selection order: pairwise distinct, internally sorted by the
/// selection order, and every selected position beats every unselected one.
pub open spec fn is_topk_selection(w: Seq<int>, ind: Seq<usize>, k: nat) -> bool {
    &&& ind.len() == k
    &&& ind.no_duplicates()
    &&& forall|i: int| 0 <= i < ind.len() ==> (#[trigger] ind[i]) < w.len()
    &&& forall|i: int, j: int|
        0 <= i < j < ind.len() ==> key_before(w, #[trigger] ind[i] as int, #[trigger] ind[j] as int)
    &&& forall|i: int, p: int|
        #![trigger ind[i], in_sel(ind, p)]
        0 <= i < ind.len() && 0 <= p < w.len() && !in_sel(ind, p) ==> key_before(
            w,
            ind[i] as int,
            p,
        )
}

/// The number of components kept for a gradient of `n` components at a
/// ratio of `ppm` parts per million: the rounded-up share, at least one,
/// at most `n`.
pub open spec fn k_of(n: nat, ppm: nat) -> nat {
    let c = (n * ppm + 999999) / 1000000;
    let c1 = if c < 1 {
        1
    } else {
        c
    };
    if c1 > n {
        n
    } else {
        c1
    }
}

/// A sequence of distinct positions below `n` has at most `n` entries.
proof fn lemma_distinct_below(ind: Seq<usize>, n: nat)
    requires
        ind.no_duplicates(),
        forall|i: int| 0 <= i < ind.len() ==> (#[trigger] ind[i]) < n,
    ensures
        ind.len() <= n,
{
    let indi = ind.map_values(|x: usize| x as int);
    assert forall|i: int, j: int| 0 <= i < j < indi.len() implies indi[i] != indi[j] by {
        assert(ind[i] != ind[j]);
    }
    indi.unique_seq_to_set();
    assert forall|x: int| indi.to_set().contains(x) implies vstd::set_lib::set_int_range(
        0,
        n as int,
    ).contains(x) by {
        assert(indi.contains(x));
        let t = choose|t: int| 0 <= t < indi.len() && indi[t] == x;
        assert(ind[t] < n);
    }
    vstd::set_lib::lemma_int_range(0, n as int);
    vstd::set_lib::lemma_len_subset(indi.to_set(), vstd::set_lib::set_int_range(0, n as int));
}

/// A sequence of positions covering all of `0 .. n` has at least `n`
/// entries.
proof fn lemma_covers_range(ind: Seq<usize>, n: nat)
    requires
        forall|p: int| 0 <= p < n ==> in_sel(ind, p),
    ensures
        ind.len() >= n,
{
    broadcast use vstd::seq_lib::seq_to_set_is_finite;

    let indi = ind.map_values(|x: usize| x as int);
    assert forall|p: int| vstd::set_lib::set_int_range(0, n as int).contains(p) implies indi
        .to_set().contains(p) by {
        assert(in_sel(ind, p));
        let t = choose|t: int| 0 <= t < ind.len() && (#[trigger] ind[t]) == p;
        assert(indi[t] == p);
        assert(indi.contains(p));
    }
    assert(vstd::set_lib::set_int_range(0, n as int).subset_of(indi.to_set()));
    vstd::set_lib::lemma_int_range(0, n as int);
    indi.lemma_cardinality_of_set();
    vstd::set_lib::lemma_len_subset(vstd::set_lib::set_int_range(0, n as int), indi.to_set());
}

/// Select the `k` positions of `w` with the largest magnitudes, stably.
fn select_topk(w: &Vec<i64>, k: usize) -> (ind: Vec<usize>)
    requires
        k <= w@.len(),
        forall|i: int| 0 <= i < w@.len() ==> -VAL_LIMIT <= #[trigger] w@[i] <= VAL_LIMIT,
    ensures
        is_topk_selection(int_seq(w@), ind@, k as nat),
        forall|i: int| 0 <= i < ind@.len() ==> in_sel(ind@, ind@[i] as int),
{
    let n = w.len();
    let ghost wi = int_seq(w@);
    let mut selected: Vec<bool> = vec![false; n];
    let mut ind: Vec<usize> = Vec::new();
    let mut t: usize = 0;
    while t < k
        invariant
            k <= n == w@.len() == selected@.len(),
            forall|i: int| 0 <= i < w@.len() ==> -VAL_LIMIT <= #[trigger] w@[i] <= VAL_LIMIT,
            wi == int_seq(w@),
            t == ind@.len() <= k,
            ind@.no_duplicates(),
            forall|i: int| 0 <= i < ind@.len() ==> (#[trigger] ind@[i]) < n,
            forall|p: int| 0 <= p < n ==> ((#[trigger] selected@[p]) <==> in_sel(ind@, p)),
            forall|i: int, j: int|
                0 <= i < j < ind@.len() ==> key_before(
                    wi,
                    #[trigger] ind@[i] as int,
                    #[trigger] ind@[j] as int,
                ),
            forall|i: int, p: int|
                #![trigger ind@[i], in_sel(ind@, p)]
                0 <= i < ind@.len() && 0 <= p < n && !in_sel(ind@, p) ==> key_before(
                    wi,
                    ind@[i] as int,
                    p,
                ),
        decreases k - t,
    {
        let mut best: usize = n;
        let mut p: usize = 0;
        while p < n
            invariant
                n == w@.len() == selected@.len(),
                forall|i: int| 0 <= i < w@.len() ==> -VAL_LIMIT <= #[trigger] w@[i] <= VAL_LIMIT,
                wi == int_seq(w@),
                p <= n,
                best == n || (best < p && !selected@[best as int]),
                best == n ==> forall|q: int| 0 <= q < p ==> #[trigger] selected@[q],
                best < n ==> forall|q: int|
                    0 <= q < p && !(#[trigger] selected@[q]) ==> (q == best || key_before(
                        wi,
                        best as int,
                        q,
                    )),
            decreases n - p,
        {
            if !selected[p] {
                if best == n {
                    best = p;
                } else {
                    let ap = if w[p] < 0 {
                        -w[p]
                    } else {
                        w[p]
                    };
                    let ab = if w[best] < 0 {
                        -w[best]
                    } else {
                        w[best]
                    };
                    if ap > ab {
                        best = p;
                    }
                }
            }
            p = p + 1;
        }
        if best == n {
            // Every position is already selected, which contradicts
            // having selected fewer than k <= n of them.
            proof {
                assert forall|q: int| 0 <= q < n implies in_sel(ind@, q) by {
                    assert(selected@[q]);
                }
                lemma_covers_range(ind@, n as nat);
                assert(false);
            }
            return ind;
        }
        let ghost old_ind = ind@;
        let ghost old_selected = selected@;
        selected.set(best, true);
        ind.push(best);
        proof {
            assert(!old_selected[best as int]);
            assert(!in_sel(old_ind, best as int));
            lemma_mark_push(old_ind, ind@, best, n as nat);
            assert(ind@[ind@.len() - 1] == best);
            assert forall|pp: int| 0 <= pp < n implies ((#[trigger] selected@[pp]) <==> in_sel(
                ind@,
                pp,
            )) by {
                if pp != best {
                    assert(selected@[pp] == old_selected[pp]);
                    assert(in_sel(ind@, pp) <==> (in_sel(old_ind, pp) || pp == best));
                }
            }
            assert forall|i: int, p: int|
                #![trigger ind@[i], in_sel(ind@, p)]
                0 <= i < ind@.len() && 0 <= p < n && !in_sel(ind@, p) implies key_before(
                wi,
                ind@[i] as int,
                p,
            ) by {
                assert(!(in_sel(old_ind, p) || p == best));
                assert(!old_selected[p]);
                if i < old_ind.len() {
                    assert(ind@[i] == old_ind[i]);
                } else {
                    assert(ind@[i] == best);
                }
            }
            assert forall|i: int, j: int|
                0 <= i < j < ind@.len() implies key_before(
                wi,
                #[trigger] ind@[i] as int,
                #[trigger] ind@[j] as int,
            ) by {
                if j == ind@.len() - 1 {
                    assert(ind@[i] == old_ind[i]);
                    assert(!in_sel(old_ind, best as int));
                } else {
                    assert(ind@[i] == old_ind[i] && ind@[j] == old_ind[j]);
                }
            }
        }
        t = t + 1;
    }
    proof {
        assert forall|i: int| 0 <= i < ind@.len() implies in_sel(ind@, ind@[i] as int) by {
            assert(ind@[i] == ind@[i]);
        }
    }
    ind
}

/// Phase one of the pseudo-random selection: scan the fixed
/// linear-congruential sequence from step `j`, appending each position
/// not yet chosen, until `k` positions are held.
pub open spec fn randomk_scan(n: nat, k: nat, j: nat, acc: Seq<usize>) -> Seq<usize>
    decreases n - j,
    when j <= n
{
    if j >= n || acc.len() >= k {
        acc
    } else {
        let idx = (j * 1103515245 + 12345) % n;
        if in_sel(acc, idx as int) {
            randomk_scan(n, k, j + 1, acc)
        } else {
            randomk_scan(n, k, j + 1, acc.push(idx as usize))
        }
    }
}

/// Phase two: fill any shortfall with the smallest unused positions.
pub open spec fn randomk_fill(n: nat, k: nat, p: nat, acc: Seq<usize>) -> Seq<usize>
    decreases n - p,
    when p <= n
{
    if p >= n || acc.len() >= k {
        acc
    } else if in_sel(acc, p as int) {
        randomk_fill(n, k, p + 1, acc)
    } else {
        randomk_fill(n, k, p + 1, acc.push(p as usize))
    }
}

/// The positions Random-K keeps for `n` components at `k` kept: a pure
/// function of `n` and `k`, so equal-state compressions select equally.
pub open spec fn randomk_selection(n: nat, k: nat) -> Seq<usize> {
    randomk_fill(n, k, 0, randomk_scan(n, k, 0, Seq::empty()))
}

/// Select `k` distinct positions below `n` from a fixed linear-congruential
/// sequence, filling any shortfall with the smallest unused positions.
fn select_randomk(n: usize, k: usize) -> (ind: Vec<usize>)
    requires
        k <= n,
        n <= 0x10000000,
    ensures
        ind@.len() == k,
        ind@.no_duplicates(),
        forall|i: int| 0 <= i < ind@.len() ==> (#[trigger] ind@[i]) < n,
        ind@ == randomk_selection(n as nat, k as nat),
{
    let mut ind: Vec<usize> = Vec::new();
    if n == 0 {
        return ind;
    }
    let mut marked: Vec<bool> = vec![false; n];
    let mut j: usize = 0;
    proof {
        assert(ind@ =~= Seq::<usize>::empty());
    }
    while j < n
        invariant
            0 < n <= 0x10000000,
            k <= n == marked@.len(),
            j <= n,
            ind@.len() <= k,
            ind@.no_duplicates(),
            forall|i: int| 0 <= i < ind@.len() ==> (#[trigger] ind@[i]) < n,
            forall|p: int| 0 <= p < n ==> ((#[trigger] marked@[p]) <==> in_sel(ind@, p)),
            randomk_scan(n as nat, k as nat, j as nat, ind@) == randomk_scan(
                n as nat,
                k as nat,
                0,
                Seq::<usize>::empty(),
            ),
        decreases n - j,
    {
        if ind.len() < k {
            let idx = (((j as u64) * 1103515245 + 12345) % (n as u64)) as usize;
            proof {
                assert((idx as nat) == ((j as nat) * 1103515245 + 12345) % (n as nat));
            }
            if !marked[idx] {
                let ghost old_ind = ind@;
                marked.set(idx, true);
                ind.push(idx);
                proof {
                    lemma_mark_push(old_ind, ind@, idx, n as nat);
                    assert(randomk_scan(n as nat, k as nat, (j + 1) as nat, ind@)
                        == randomk_scan(n as nat, k as nat, j as nat, old_ind));
                }
            } else {
                proof {
                    assert(randomk_scan(n as nat, k as nat, (j + 1) as nat, ind@)
                        == randomk_scan(n as nat, k as nat, j as nat, ind@));
                }
            }
        } else {
            proof {
                assert(randomk_scan(n as nat, k as nat, (j + 1) as nat, ind@) == randomk_scan(
                    n as nat,
                    k as nat,
                    j as nat,
                    ind@,
                ));
            }
        }
        j = j + 1;
    }
    let ghost scanned = ind@;
    proof {
        assert(randomk_scan(n as nat, k as nat, n as nat, scanned) == scanned);
    }
    let mut p: usize = 0;
    while p < n
        invariant
            0 < n == marked@.len(),
            k <= n,
            p <= n,
            ind@.len() <= k,
            ind@.no_duplicates(),
            forall|i: int| 0 <= i < ind@.len() ==> (#[trigger] ind@[i]) < n,
            forall|q: int| 0 <= q < n ==> ((#[trigger] marked@[q]) <==> in_sel(ind@, q)),
            ind@.len() == k || forall|q: int| 0 <= q < p ==> #[trigger] marked@[q],
            randomk_fill(n as nat, k as nat, p as nat, ind@) == randomk_fill(
                n as nat,
                k as nat,
                0,
                scanned,
            ),
        decreases n - p,
    {
        if ind.len() < k && !marked[p] {
            let ghost old_ind = ind@;
            marked.set(p, true);
            ind.push(p);
            proof {
                lemma_mark_push(old_ind, ind@, p, n as nat);
                assert(randomk_fill(n as nat, k as nat, (p + 1) as nat, ind@) == randomk_fill(
                    n as nat,
                    k as nat,
                    p as nat,
                    old_ind,
                ));
            }
        } else {
            proof {
                assert(randomk_fill(n as nat, k as nat, (p + 1) as nat, ind@) == randomk_fill(
                    n as nat,
                    k as nat,
                    p as nat,
                    ind@,
                ));
            }
        }
        p = p + 1;
    }
    proof {
        if ind@.len() < k {
            assert forall|q: int| 0 <= q < n implies in_sel(ind@, q) by {
                assert(marked@[q]);
            }
            lemma_covers_range(ind@, n as nat);
            assert(false);
        }
        assert(randomk_fill(n as nat, k as nat, n as nat, ind@) == ind@);
    }
    ind
}

/// Pushing a fresh position onto a duplicate-free selection keeps it
/// duplicate-free and extends membership by exactly that position.
proof fn lemma_mark_push(old_ind: Seq<usize>, new_ind: Seq<usize>, idx: usize, n: nat)
    requires
        new_ind == old_ind.push(idx),
        old_ind.no_duplicates(),
        !in_sel(old_ind, idx as int),
        forall|i: int| 0 <= i < old_ind.len() ==> (#[trigger] old_ind[i]) < n,
        idx < n,
    ensures
        new_ind.no_duplicates(),
        forall|i: int| 0 <= i < new_ind.len() ==> (#[trigger] new_ind[i]) < n,
        forall|p: int| in_sel(new_ind, p) <==> (in_sel(old_ind, p) || p == idx),
{
    assert(new_ind[new_ind.len() - 1] == idx);
    assert forall|i: int, j: int| 0 <= i < j < new_ind.len() implies new_ind[i] != new_ind[j] by {
        if j == new_ind.len() - 1 {
            assert(new_ind[i] == old_ind[i]);
        }
    }
    assert forall|p: int| in_sel(new_ind, p) implies (in_sel(old_ind, p) || p == idx) by {
        let t = choose|t: int| 0 <= t < new_ind.len() && (#[trigger] new_ind[t]) == p;
        if t < old_ind.len() {
            assert(old_ind[t] == p);
        }
    }
    assert forall|p: int| (in_sel(old_ind, p) || p == idx) implies in_sel(new_ind, p) by {
        if in_sel(old_ind, p) {
            let t = choose|t: int| 0 <= t < old_ind.len() && (#[trigger] old_ind[t]) == p;
            assert(new_ind[t] == p);
        } else {
            assert(new_ind[new_ind.len() - 1] == p);
        }
    }
}

/// Smallest element of a nonempty integer sequence.
pub open spec fn seq_min_i(s: Seq<int>) -> int
    decreases s.len(),
{
    if s.len() <= 1 {
        s[0]
    } else {
        let m = seq_min_i(s.drop_last());
        if s.last() < m {
            s.last()
        } else {
            m
        }
    }
}

/// Largest element of a nonempty integer sequence.
pub open spec fn seq_max_i(s: Seq<int>) -> int
    decreases s.len(),
{
    if s.len() <= 1 {
        s[0]
    } else {
        let m = seq_max_i(s.drop_last());
        if s.last() > m {
            s.last()
        } else {
            m
        }
    }
}

proof fn lemma_min_max_range(s: Seq<int>)
    requires
        s.len() > 0,
    ensures
        forall|i: int| 0 <= i < s.len() ==> seq_min_i(s) <= #[trigger] s[i] <= seq_max_i(s),
    decreases s.len(),
{
    if s.len() > 1 {
        lemma_min_max_range(s.drop_last());
        assert forall|i: int| 0 <= i < s.len() implies seq_min_i(s) <= #[trigger] s[i]
            <= seq_max_i(s) by {
            if i < s.len() - 1 {
                assert(s.drop_last()[i] == s[i]);
            }
        }
    }
}

proof fn lemma_min_max_are_elements(s: Seq<int>)
    requires
        s.len() > 0,
    ensures
        exists|i: int| 0 <= i < s.len() && #[trigger] s[i] == seq_min_i(s),
        exists|j: int| 0 <= j < s.len() && #[trigger] s[j] == seq_max_i(s),
    decreases s.len(),
{
    if s.len() > 1 {
        let pre = s.drop_last();
        lemma_min_max_are_elements(pre);
        if s.last() < seq_min_i(pre) {
            assert(s[s.len() - 1] == seq_min_i(s));
        } else {
            let i = choose|i: int| 0 <= i < pre.len() && #[trigger] pre[i] == seq_min_i(pre);
            assert(s[i] == seq_min_i(s));
        }
        if s.last() > seq_max_i(pre) {
            assert(s[s.len() - 1] == seq_max_i(s));
        } else {
            let j = choose|j: int| 0 <= j < pre.len() && #[trigger] pre[j] == seq_max_i(pre);
            assert(s[j] == seq_max_i(s));
        }
    } else {
        assert(s[0] == seq_min_i(s));
        assert(s[0] == seq_max_i(s));
    }
}

/// The number of quantization levels for a supported bit-width.
pub open spec fn levels_of(bits: u8) -> int {
    if bits == 2 {
        4
    } else if bits == 4 {
        16
    } else if bits == 8 {
        256
    } else if bits == 16 {
        65536
    } else {
        4294967296
    }
}

/// Division of nonnegative integers rounded half up.
pub open spec fn rdiv_nn(a: int, b: int) -> int {
    (a + b / 2) / b
}

/// One value mapped onto `lv` uniform levels spanning `[mn, mx]` and back:
/// the nearest level index, then that level's value.
pub open spec fn quant_step(v: int, mn: int, mx: int, lv: int) -> int {
    let q = rdiv_nn((v - mn) * (lv - 1), mx - mn);
    mn + rdiv_nn(q * (mx - mn), lv - 1)
}

/// Uniform quantization of one value among values spanning `[mn, mx]`;
/// a degenerate range passes the value through unchanged.
pub open spec fn quantized_value(v: int, mn: int, mx: int, bits: u8) -> int {
    if mn == mx {
        v
    } else {
        quant_step(v, mn, mx, levels_of(bits))
    }
}

/// The level index is between 0 and `lv - 1`, and the reconstructed value
/// stays within `[mn, mx]`; the endpoints are reconstructed exactly.
proof fn lemma_quant_bounds(v: int, mn: int, mx: int, lv: int)
    requires
        mn <= v <= mx,
        mn < mx,
        4 <= lv <= 0x100000000,
    ensures
        0 <= rdiv_nn((v - mn) * (lv - 1), mx - mn) <= lv - 1,
        mn <= quant_step(v, mn, mx, lv) <= mx,
{
    let r = mx - mn;
    let d = (v - mn) * (lv - 1);
    let q = rdiv_nn(d, r);
    assert(0 <= d <= r * (lv - 1)) by (nonlinear_arith)
        requires
            0 <= v - mn <= r,
            lv >= 4,
            d == (v - mn) * (lv - 1),
    ;
    vstd::arithmetic::div_mod::lemma_div_pos_is_pos(d + r / 2, r);
    vstd::arithmetic::div_mod::lemma_div_is_ordered(d + r / 2, r / 2 + (lv - 1) * r, r);
    vstd::arithmetic::div_mod::lemma_hoist_over_denominator(r / 2, lv - 1, r as nat);
    vstd::arithmetic::div_mod::lemma_basic_div_specific_divisor(r);
    assert((r / 2) / r == 0);
    assert(q <= lv - 1);

    let e = q * r;
    assert(0 <= e <= (lv - 1) * r) by (nonlinear_arith)
        requires
            0 <= q <= lv - 1,
            r >= 1,
            e == q * r,
    ;
    vstd::arithmetic::div_mod::lemma_div_pos_is_pos(e + (lv - 1) / 2, lv - 1);
    vstd::arithmetic::div_mod::lemma_div_is_ordered(
        e + (lv - 1) / 2,
        (lv - 1) / 2 + r * (lv - 1),
        lv - 1,
    );
    vstd::arithmetic::div_mod::lemma_hoist_over_denominator(
        (lv - 1) / 2,
        r,
        (lv - 1) as nat,
    );
    vstd::arithmetic::div_mod::lemma_basic_div_specific_divisor(lv - 1);
    assert(((lv - 1) / 2) / (lv - 1) == 0);
}

/// Map each value onto `2^bits` uniform levels spanning the values' own
/// range, and back to the nearest level value.
fn quantize_values(vals: &Vec<i64>, bits: u8) -> (q: Vec<i64>)
    requires
        bits_supported(bits),
        vals@.len() > 0,
        forall|i: int| 0 <= i < vals@.len() ==> -VAL_LIMIT <= #[trigger] vals@[i] <= VAL_LIMIT,
    ensures
        q@.len() == vals@.len(),
        forall|i: int|
            0 <= i < q@.len() ==> (#[trigger] q@[i]) as int == quantized_value(
                vals@[i] as int,
                seq_min_i(int_seq(vals@)),
                seq_max_i(int_seq(vals@)),
                bits,
            ),
        forall|i: int| 0 <= i < q@.len() ==> -VAL_LIMIT <= #[trigger] q@[i] <= VAL_LIMIT,
{
    let ghost vi = int_seq(vals@);
    let n = vals.len();
    let mut mn: i64 = vals[0];
    let mut mx: i64 = vals[0];
    let mut i: usize = 1;
    proof {
        assert(vi.subrange(0, 1) =~= seq![vi[0]]);
    }
    while i < n
        invariant
            n == vals@.len(),
            vi == int_seq(vals@),
            1 <= i <= n,
            forall|t: int| 0 <= t < vals@.len() ==> -VAL_LIMIT <= #[trigger] vals@[t] <= VAL_LIMIT,
            -VAL_LIMIT <= mn <= VAL_LIMIT,
            -VAL_LIMIT <= mx <= VAL_LIMIT,
            mn as int == seq_min_i(vi.subrange(0, i as int)),
            mx as int == seq_max_i(vi.subrange(0, i as int)),
        decreases n - i,
    {
        proof {
            assert(vi.subrange(0, i + 1 as int).drop_last() =~= vi.subrange(0, i as int));
            assert(vi.subrange(0, i + 1 as int).last() == vi[i as int]);
        }
        if vals[i] < mn {
            mn = vals[i];
        }
        if vals[i] > mx {
            mx = vals[i];
        }
        i = i + 1;
    }
    proof {
        assert(vi.subrange(0, n as int) =~= vi);
        lemma_min_max_range(vi);
    }
    let mut q: Vec<i64> = Vec::new();
    if mn == mx {
        let mut j: usize = 0;
        while j < n
            invariant
                n == vals@.len(),
                vi == int_seq(vals@),
                forall|t: int|
                    0 <= t < vals@.len() ==> -VAL_LIMIT <= #[trigger] vals@[t] <= VAL_LIMIT,
                mn == mx,
                mn as int == seq_min_i(vi) && mx as int == seq_max_i(vi),
                j <= n,
                q@.len() == j,
                forall|t: int|
                    0 <= t < j ==> (#[trigger] q@[t]) as int == quantized_value(
                        vals@[t] as int,
                        seq_min_i(vi),
                        seq_max_i(vi),
                        bits,
                    ),
                forall|t: int| 0 <= t < j ==> -VAL_LIMIT <= #[trigger] q@[t] <= VAL_LIMIT,
            decreases n - j,
        {
            q.push(vals[j]);
            j = j + 1;
        }
        return q;
    }
    let lv: u64 = if bits == 2 {
        4
    } else if bits == 4 {
        16
    } else if bits == 8 {
        256
    } else if bits == 16 {
        65536
    } else {
        4294967296
    };
    proof {
        assert(mn as int <= vi[0] <= mx as int);
    }
    let range: u64 = (mx - mn) as u64;
    let mut j: usize = 0;
    while j < n
        invariant
            n == vals@.len(),
            vi == int_seq(vals@),
            forall|t: int| 0 <= t < vals@.len() ==> -VAL_LIMIT <= #[trigger] vals@[t] <= VAL_LIMIT,
            mn as int == seq_min_i(vi),
            mx as int == seq_max_i(vi),
            mn < mx,
            -VAL_LIMIT <= mn <= VAL_LIMIT && -VAL_LIMIT <= mx <= VAL_LIMIT,
            forall|t: int| 0 <= t < vals@.len() ==> mn as int <= #[trigger] vi[t] <= mx as int,
            range as int == mx - mn,
            lv as int == levels_of(bits),
            4 <= lv <= 0x100000000,
            j <= n,
            q@.len() == j,
            forall|t: int|
                0 <= t < j ==> (#[trigger] q@[t]) as int == quantized_value(
                    vals@[t] as int,
                    seq_min_i(vi),
                    seq_max_i(vi),
                    bits,
                ),
            forall|t: int| 0 <= t < j ==> -VAL_LIMIT <= #[trigger] q@[t] <= VAL_LIMIT,
        decreases n - j,
    {
        let v = vals[j];
        proof {
            assert(vi[j as int] == v as int);
            lemma_quant_bounds(v as int, mn as int, mx as int, lv as int);
        }
        let dv: u128 = (v - mn) as u128;
        proof {
            assert((dv as int) * ((lv - 1) as int) <= 0x100000000000 * 0x100000000)
                by (nonlinear_arith)
                requires
                    0 <= dv as int <= 0x100000000000,
                    0 <= (lv - 1) as int <= 0x100000000,
            ;
            assert((rdiv_nn((v - mn) as int * ((lv - 1) as int), range as int)) * (range as int)
                <= 0x100000000 * 0x100000000000) by (nonlinear_arith)
                requires
                    0 <= rdiv_nn((v - mn) as int * ((lv - 1) as int), range as int)
                        <= 0x100000000,
                    0 <= range <= 0x100000000000,
            ;
        }
        let lvl: u128 = ((dv * ((lv - 1) as u128) + ((range / 2) as u128)) / (range as u128));
        let back: u128 = (lvl * (range as u128) + (((lv - 1) / 2) as u128)) / ((lv - 1) as u128);
        let dq: i64 = mn + (back as i64);
        q.push(dq);
        j = j + 1;
    }
    q
}

/// The working vector compression operates on: the input plus, when error
/// feedback is on, the stored residual (paired positionally; a residual of
/// another length contributes zeros past its end).
pub open spec fn working_of(cfg: CompressionConfig, acc: Option<Seq<i64>>, g: Seq<i64>) -> Seq<
    int,
> {
    Seq::new(
        g.len(),
        |i: int|
            g[i] + (match acc {
                Option::Some(r) => if cfg.error_feedback && i < r.len() {
                    r[i] as int
                } else {
                    0
                },
                Option::None => 0,
            }),
    )
}

/// Bits per transmitted value in the size accounting: the quantization
/// width for the quantizing methods, full width otherwise.
pub open spec fn bits_per_value(cfg: CompressionConfig) -> int {
    match cfg.method {
        CompressionMethod::TopKQuantized => cfg.quantization_bits as int,
        CompressionMethod::Quantization => cfg.quantization_bits as int,
        _ => 32,
    }
}

/// Clamp a residual component into the stored residual window.
pub open spec fn clamp_resid(x: int) -> int {
    if x > RESID_LIMIT as int {
        RESID_LIMIT as int
    } else if x < -(RESID_LIMIT as int) {
        -(RESID_LIMIT as int)
    } else {
        x
    }
}

/// The byte-size accounting shared by the sparsifying and quantizing
/// methods: `32 + bpv` bits per kept component, and the ratio of
/// compressed to uncompressed bytes in parts per million (one for an
/// empty input).
pub open spec fn sizes_post(c: CompressedGradient, n: nat, bpv: int) -> bool {
    &&& c.compressed_size as int == c.indices@.len() * (32 + bpv) / 8
    &&& c.compression_ratio_ppm as int == if n == 0 {
        1000000int
    } else {
        (c.compressed_size as int) * 1000000 / (4 * n as int)
    }
}

/// The kept values are the selected working values quantized over their
/// own range.
pub open spec fn quantized_sel_post(w: Seq<int>, c: CompressedGradient, bits: u8) -> bool {
    let sel = Seq::new(c.indices@.len(), |i: int| w[c.indices@[i] as int]);
    c.indices@.len() == 0 || forall|i: int|
        0 <= i < c.values@.len() ==> (#[trigger] c.values@[i]) as int == quantized_value(
            sel[i],
            seq_min_i(sel),
            seq_max_i(sel),
            bits,
        )
}

/// The stored residual is the working vector minus the reconstruction,
/// clamped into the residual window.
pub open spec fn residual_post(w: Seq<int>, c: CompressedGradient, acc1: Option<Seq<i64>>) -> bool {
    match acc1 {
        Option::Some(r) => {
            &&& r.len() == w.len()
            &&& forall|i: int|
                0 <= i < r.len() ==> (#[trigger] r[i]) as int == clamp_resid(
                    w[i] - scatter_at(c.indices@, c.values@, c.indices@.len() as int, i),
                )
        },
        Option::None => false,
    }
}

/// Everything `compress` promises about the compressed gradient `c` and
/// the error-feedback state `acc1` it leaves behind, given the
/// configuration, the prior state `acc0` and the input `g`.
pub open spec fn compress_post(
    cfg: CompressionConfig,
    acc0: Option<Seq<i64>>,
    g: Seq<i64>,
    c: CompressedGradient,
    acc1: Option<Seq<i64>>,
) -> bool {
    let n = g.len();
    let w = working_of(cfg, acc0, g);
    let k = k_of(n, cfg.k_ratio_ppm as nat);
    &&& c.original_size == n
    &&& c.shape@ == seq![c.original_size]
    &&& c.values@.len() == c.indices@.len()
    &&& c.indices@.no_duplicates()
    &&& forall|i: int| 0 <= i < c.indices@.len() ==> (#[trigger] c.indices@[i]) < n
    &&& match cfg.method {
        CompressionMethod::NoCompression => {
            &&& c.indices@.len() == n
            &&& forall|i: int| 0 <= i < n ==> (#[trigger] c.indices@[i]) == i
            &&& forall|i: int| 0 <= i < n ==> (#[trigger] c.values@[i]) as int == w[i]
            &&& c.compressed_size == n * 4
            &&& c.compression_ratio_ppm == 1000000
            &&& c.quantization_bits is None
        },
        CompressionMethod::TopK => {
            &&& is_topk_selection(w, c.indices@, k)
            &&& forall|i: int|
                0 <= i < c.indices@.len() ==> (#[trigger] c.values@[i]) as int == w[c.indices@[i] as int]
            &&& sizes_post(c, n, 32)
            &&& c.quantization_bits is None
        },
        CompressionMethod::TopKQuantized => {
            &&& is_topk_selection(w, c.indices@, k)
            &&& quantized_sel_post(w, c, cfg.quantization_bits)
            &&& sizes_post(c, n, cfg.quantization_bits as int)
            &&& c.quantization_bits == Option::Some(cfg.quantization_bits)
        },
        CompressionMethod::RandomK => {
            &&& c.indices@.len() == k
            &&& c.indices@ == randomk_selection(n, k)
            &&& forall|i: int|
                0 <= i < c.indices@.len() ==> (#[trigger] c.values@[i]) as int == w[c.indices@[i] as int]
            &&& sizes_post(c, n, 32)
            &&& c.quantization_bits is None
        },
        CompressionMethod::Quantization => {
            &&& c.indices@.len() == n
            &&& forall|i: int| 0 <= i < n ==> (#[trigger] c.indices@[i]) == i
            &&& quantized_sel_post(w, c, cfg.quantization_bits)
            &&& sizes_post(c, n, cfg.quantization_bits as int)
            &&& c.quantization_bits == Option::Some(cfg.quantization_bits)
        },
    }
    &&& if cfg.method == CompressionMethod::NoCompression || !cfg.error_feedback {
        acc1 == acc0
    } else {
        residual_post(w, c, acc1)
    }
}

impl CompressedGradient {
    /// Fraction of positions discarded, in parts per million:
    /// `1000000 - len(indices) * 1000000 / original_size`.
    pub fn sparsity_ppm(&self) -> (r: u64)
        requires
            self.original_size > 0,
            self.indices@.len() <= self.original_size,
        ensures
            r as int == 1000000 - (self.indices@.len() as int) * 1000000 / (
            self.original_size as int),
    {
        proof {
            assert((self.indices@.len() as int) * 1000000 <= (self.original_size as int) * 1000000)
                by (nonlinear_arith)
                requires
                    self.indices@.len() <= self.original_size,
            ;
            vstd::arithmetic::div_mod::lemma_div_is_ordered(
                (self.indices@.len() as int) * 1000000,
                (self.original_size as int) * 1000000,
                self.original_size as int,
            );
            vstd::arithmetic::div_mod::lemma_div_by_multiple(1000000, self.original_size as int);
            vstd::arithmetic::div_mod::lemma_div_pos_is_pos(
                (self.indices@.len() as int) * 1000000,
                self.original_size as int,
            );
        }
        let covered: u64 = ((self.indices.len() as u128) * 1000000 / (self.original_size as u128))
            as u64;
        1000000 - covered
    }
}


/// Compresses gradients for bandwidth-efficient synchronization, carrying
/// the discarded remainder across rounds when error feedback is enabled.
#[derive(Debug)]
pub struct GradientCompressor {
    config: CompressionConfig,
    error_accumulator: Option<Vec<i64>>,
}

impl GradientCompressor {
    /// The configuration this compressor was built with.
    pub closed spec fn spec_config(&self) -> CompressionConfig {
        self.config
    }

    /// The stored error-feedback residual, if any.
    pub closed spec fn spec_acc(&self) -> Option<Seq<i64>> {
        match self.error_accumulator {
            Option::Some(v) => Option::Some(v@),
            Option::None => Option::None,
        }
    }

    /// A compressor whose configuration is valid and whose residual lies
    /// within the accepted window.
    pub open spec fn wf(&self) -> bool {
        &&& config_ok(self.spec_config())
        &&& match self.spec_acc() {
            Option::Some(r) => forall|i: int|
                0 <= i < r.len() ==> -RESID_LIMIT <= #[trigger] r[i] <= RESID_LIMIT,
            Option::None => true,
        }
    }

    /// Create a compressor; rejects an invalid configuration.
    pub fn new(config: CompressionConfig) -> (r: Result<Self, DistributedError>)
        ensures
            r is Ok <==> config_ok(config),
            r matches Ok(c) ==> c.wf() && c.spec_config() == config && c.spec_acc() is None,
            r is Err ==> (r matches Err(e) && e == DistributedError::UnsupportedParameter),
    {
        let supported = config.quantization_bits == 2 || config.quantization_bits == 4
            || config.quantization_bits == 8 || config.quantization_bits == 16
            || config.quantization_bits == 32;
        if !supported || config.k_ratio_ppm == 0 || config.k_ratio_ppm > 1000000 {
            return Result::Err(DistributedError::UnsupportedParameter);
        }
        Result::Ok(GradientCompressor { config, error_accumulator: Option::None })
    }

    /// Compress a gradient.
    ///
    /// With error feedback on, the previous round's residual is first
    /// added to the input; afterwards the new residual (input minus
    /// reconstruction, clamped into the accepted window) is stored for
    /// the next round. The method with no compression leaves the stored
    /// residual untouched.
    pub fn compress(&mut self, gradients: &Vec<i64>) -> (c: CompressedGradient)
        requires
            old(self).wf(),
            gradients@.len() <= 0x10000000,
            forall|i: int|
                0 <= i < gradients@.len() ==> -GRAD_LIMIT <= #[trigger] gradients@[i]
                    <= GRAD_LIMIT,
        ensures
            final(self).wf(),
            final(self).spec_config() == old(self).spec_config(),
            gradient_wf(c),
            compress_post(
                old(self).spec_config(),
                old(self).spec_acc(),
                gradients@,
                c,
                final(self).spec_acc(),
            ),
    {
        let n = gradients.len();
        let ghost cfg = self.config;
        let ghost acc0 = self.spec_acc();
        let ghost w = working_of(cfg, acc0, gradients@);

        let mut working: Vec<i64> = Vec::new();
        let mut i: usize = 0;
        while i < n
            invariant
                self == old(self),
                old(self).wf(),
                cfg == self.config,
                acc0 == self.spec_acc(),
                n == gradients@.len() <= 0x10000000,
                forall|t: int|
                    0 <= t < gradients@.len() ==> -GRAD_LIMIT <= #[trigger] gradients@[t]
                        <= GRAD_LIMIT,
                w == working_of(cfg, acc0, gradients@),
                i <= n,
                working@.len() == i,
                forall|t: int| 0 <= t < i ==> (#[trigger] working@[t]) as int == w[t],
                forall|t: int| 0 <= t < i ==> -VAL_LIMIT <= #[trigger] working@[t] <= VAL_LIMIT,
            decreases n - i,
        {
            let add: i64 = if self.config.error_feedback {
                match &self.error_accumulator {
                    Option::Some(acc) => if i < acc.len() {
                        acc[i]
                    } else {
                        0
                    },
                    Option::None => 0,
                }
            } else {
                0
            };
            working.push(gradients[i] + add);
            i = i + 1;
        }

        if matches!(self.config.method, CompressionMethod::NoCompression) {
            let mut ind: Vec<usize> = Vec::new();
            let mut vals: Vec<i64> = Vec::new();
            let mut t: usize = 0;
            while t < n
                invariant
                    n == gradients@.len() <= 0x10000000,
                    w.len() == n,
                    working@.len() == n,
                    forall|q: int| 0 <= q < n ==> (#[trigger] working@[q]) as int == w[q],
                    forall|q: int|
                        0 <= q < n ==> -VAL_LIMIT <= #[trigger] working@[q] <= VAL_LIMIT,
                    t <= n,
                    ind@.len() == t,
                    vals@.len() == t,
                    forall|q: int| 0 <= q < t ==> (#[trigger] ind@[q]) == q,
                    forall|q: int| 0 <= q < t ==> (#[trigger] vals@[q]) == working@[q],
                decreases n - t,
            {
                ind.push(t);
                vals.push(working[t]);
                t = t + 1;
            }
            proof {
                assert forall|a: int, b: int| 0 <= a < b < ind@.len() implies ind@[a]
                    != ind@[b] by {}
            }
            let mut shape: Vec<usize> = Vec::new();
            shape.push(n);
            proof {
                assert(shape@ =~= seq![n]);
            }
            return CompressedGradient {
                indices: ind,
                values: vals,
                shape,
                original_size: n,
                compressed_size: n * 4,
                compression_ratio_ppm: 1000000,
                quantization_bits: Option::None,
            };
        }

        proof {
            assert((n as int) * (self.config.k_ratio_ppm as int) <= 0x10000000 * 1000000)
                by (nonlinear_arith)
                requires
                    0 <= n <= 0x10000000,
                    0 <= self.config.k_ratio_ppm <= 1000000,
            ;
        }
        let k64: u64 = (n as u64) * (self.config.k_ratio_ppm as u64);
        let kc: u64 = (k64 + 999999) / 1000000;
        let k1: u64 = if kc < 1 {
            1
        } else {
            kc
        };
        let k: usize = if k1 > n as u64 {
            n
        } else {
            k1 as usize
        };
        proof {
            assert(k as nat == k_of(n as nat, cfg.k_ratio_ppm as nat));
        }

        let quantizing = matches!(self.config.method, CompressionMethod::TopKQuantized)
            || matches!(self.config.method, CompressionMethod::Quantization);

        let ind: Vec<usize> = if matches!(self.config.method, CompressionMethod::TopK)
            || matches!(self.config.method, CompressionMethod::TopKQuantized) {
            select_topk(&working, k)
        } else if matches!(self.config.method, CompressionMethod::RandomK) {
            select_randomk(n, k)
        } else {
            let mut id: Vec<usize> = Vec::new();
            let mut t: usize = 0;
            while t < n
                invariant
                    t <= n,
                    id@.len() == t,
                    forall|q: int| 0 <= q < t ==> (#[trigger] id@[q]) == q,
                decreases n - t,
            {
                id.push(t);
                t = t + 1;
            }
            proof {
                assert forall|a: int, b: int| 0 <= a < b < id@.len() implies id@[a] != id@[b] by {}
            }
            id
        };

        let mut vals: Vec<i64> = Vec::new();
        let mut t: usize = 0;
        while t < ind.len()
            invariant
                n == gradients@.len(),
                w.len() == n,
                working@.len() == n,
                forall|q: int| 0 <= q < n ==> (#[trigger] working@[q]) as int == w[q],
                forall|q: int| 0 <= q < n ==> -VAL_LIMIT <= #[trigger] working@[q] <= VAL_LIMIT,
                forall|q: int| 0 <= q < ind@.len() ==> (#[trigger] ind@[q]) < n,
                t <= ind@.len(),
                vals@.len() == t,
                forall|q: int| 0 <= q < t ==> (#[trigger] vals@[q]) as int == w[ind@[q] as int],
                forall|q: int| 0 <= q < t ==> -VAL_LIMIT <= #[trigger] vals@[q] <= VAL_LIMIT,
            decreases ind@.len() - t,
        {
            vals.push(working[ind[t]]);
            t = t + 1;
        }

        let ghost sel = Seq::new(ind@.len(), |i: int| w[ind@[i] as int]);
        proof {
            assert(int_seq(vals@) =~= sel);
        }
        let vals2: Vec<i64> = if quantizing && vals.len() > 0 {
            let qv = quantize_values(&vals, self.config.quantization_bits);
            proof {
                assert forall|q: int| 0 <= q < qv@.len() implies (#[trigger] qv@[q]) as int
                    == quantized_value(sel[q], seq_min_i(sel), seq_max_i(sel),
                    cfg.quantization_bits) by {
                    assert(int_seq(vals@)[q] == vals@[q] as int);
                }
                assert(seq_min_i(int_seq(vals@)) == seq_min_i(sel));
                assert(seq_max_i(int_seq(vals@)) == seq_max_i(sel));
            }
            qv
        } else {
            vals
        };

        if self.config.error_feedback {
            let recon = scatter_exec(&ind, &vals2, n);
            let mut resid: Vec<i64> = Vec::new();
            let mut q: usize = 0;
            while q < n
                invariant
                    n == working@.len() == recon@.len(),
                    w.len() == n,
                    forall|p: int| 0 <= p < n ==> (#[trigger] working@[p]) as int == w[p],
                    forall|p: int|
                        0 <= p < n ==> -VAL_LIMIT <= #[trigger] working@[p] <= VAL_LIMIT,
                    forall|p: int| 0 <= p < n ==> -VAL_LIMIT <= #[trigger] recon@[p] <= VAL_LIMIT,
                    forall|p: int|
                        0 <= p < n ==> (#[trigger] recon@[p]) as int == scatter_at(
                            ind@,
                            vals2@,
                            ind@.len() as int,
                            p,
                        ),
                    q <= n,
                    resid@.len() == q,
                    forall|p: int|
                        0 <= p < q ==> (#[trigger] resid@[p]) as int == clamp_resid(
                            w[p] - scatter_at(ind@, vals2@, ind@.len() as int, p),
                        ),
                    forall|p: int| 0 <= p < q ==> -RESID_LIMIT <= #[trigger] resid@[p]
                        <= RESID_LIMIT,
                decreases n - q,
            {
                let d: i64 = working[q] - recon[q];
                let cl: i64 = if d > RESID_LIMIT {
                    RESID_LIMIT
                } else if d < -RESID_LIMIT {
                    -RESID_LIMIT
                } else {
                    d
                };
                resid.push(cl);
                q = q + 1;
            }
            self.error_accumulator = Option::Some(resid);
        }

        let bpv: u64 = if quantizing {
            self.config.quantization_bits as u64
        } else {
            32
        };
        proof {
            assert((ind@.len() as int) * (32 + bpv as int) <= 0x10000000 * 64)
                by (nonlinear_arith)
                requires
                    0 <= ind@.len() <= 0x10000000,
                    0 <= bpv <= 32,
            ;
        }
        let cs64: u64 = (ind.len() as u64) * (32 + bpv) / 8;
        let cs: usize = cs64 as usize;
        let ratio: u64 = if n == 0 {
            1000000
        } else {
            cs64 * 1000000 / (4 * n as u64)
        };
        let qbits: Option<u8> = if quantizing {
            Option::Some(self.config.quantization_bits)
        } else {
            Option::None
        };
        let mut shape: Vec<usize> = Vec::new();
        shape.push(n);
        proof {
            assert(shape@ =~= seq![n]);
        }
        CompressedGradient {
            indices: ind,
            values: vals2,
            shape,
            original_size: n,
            compressed_size: cs,
            compression_ratio_ppm: ratio,
            quantization_bits: qbits,
        }
    }

    /// Scatter a compressed gradient back into a dense vector: exact at
    /// the recorded indices, zero everywhere else.
    pub fn decompress(&self, compressed: &CompressedGradient) -> (r: Vec<i64>)
        requires
            gradient_wf(*compressed),
        ensures
            r@.len() == compressed.original_size,
            forall|p: int|
                0 <= p < r@.len() ==> (#[trigger] r@[p]) as int == scattered(*compressed, p),
            forall|p: int| 0 <= p < r@.len() ==> -VAL_LIMIT <= #[trigger] r@[p] <= VAL_LIMIT,
    {
        scatter_exec(&compressed.indices, &compressed.values, compressed.original_size)
    }
}


/// Every kept value of a compressed gradient lies within twice the input
/// window when the input and the accumulated residual do: the
/// non-quantizing methods keep working values, and quantization stays
/// within the range of the selected working values.
proof fn lemma_values_within_working(
    cfg: CompressionConfig,
    acc0: Option<Seq<i64>>,
    g: Seq<i64>,
    c: CompressedGradient,
    acc1: Option<Seq<i64>>,
)
    requires
        compress_post(cfg, acc0, g, c, acc1),
        gradient_wf(c),
        config_ok(cfg),
        !(cfg.method is NoCompression),
        forall|i: int| 0 <= i < g.len() ==> -GRAD_LIMIT <= #[trigger] g[i] <= GRAD_LIMIT,
        (acc0 matches Option::Some(r0) ==> forall|i: int|
            0 <= i < r0.len() ==> -GRAD_LIMIT <= #[trigger] r0[i] <= GRAD_LIMIT),
    ensures
        forall|i: int|
            0 <= i < c.values@.len() ==> -2 * (GRAD_LIMIT as int) <= (#[trigger] c.values@[i]) as int
                <= 2 * (GRAD_LIMIT as int),
{
    let w = working_of(cfg, acc0, g);
    let lim = 2 * (GRAD_LIMIT as int);
    assert forall|i: int| 0 <= i < w.len() implies -lim <= #[trigger] w[i] <= lim by {}
    let quantizing = cfg.method is TopKQuantized || cfg.method is Quantization;
    if !quantizing {
        assert forall|i: int|
            0 <= i < c.values@.len() implies -lim <= (#[trigger] c.values@[i]) as int <= lim by {
            assert(c.values@[i] as int == w[c.indices@[i] as int]);
        }
    } else {
        if c.indices@.len() > 0 {
            let sel = Seq::new(c.indices@.len(), |i: int| w[c.indices@[i] as int]);
            let mn = seq_min_i(sel);
            let mx = seq_max_i(sel);
            lemma_min_max_range(sel);
            lemma_min_max_are_elements(sel);
            assert(-lim <= mn <= lim && -lim <= mx <= lim) by {
                let i = choose|i: int| 0 <= i < sel.len() && #[trigger] sel[i] == mn;
                let j = choose|j: int| 0 <= j < sel.len() && #[trigger] sel[j] == mx;
                assert(sel[i] == w[c.indices@[i] as int]);
                assert(sel[j] == w[c.indices@[j] as int]);
            }
            assert forall|i: int|
                0 <= i < c.values@.len() implies -lim <= (#[trigger] c.values@[i]) as int
                <= lim by {
                assert(c.values@[i] as int == quantized_value(
                    sel[i],
                    mn,
                    mx,
                    cfg.quantization_bits,
                ));
                assert(mn <= sel[i] <= mx);
                if mn < mx {
                    lemma_quant_bounds(sel[i], mn, mx, levels_of(cfg.quantization_bits));
                }
            }
        }
    }
}

/// Law: with error feedback on and the accumulated residual still within
/// the input window, the stored residual is exact: the clamp cannot bite,
/// so every stored component equals the working component minus the
/// reconstruction, which is how the residual equation defines it.
pub proof fn lemma_residual_exact(
    cfg: CompressionConfig,
    acc0: Option<Seq<i64>>,
    g: Seq<i64>,
    c: CompressedGradient,
    acc1: Option<Seq<i64>>,
)
    requires
        compress_post(cfg, acc0, g, c, acc1),
        gradient_wf(c),
        config_ok(cfg),
        cfg.error_feedback,
        !(cfg.method is NoCompression),
        forall|i: int| 0 <= i < g.len() ==> -GRAD_LIMIT <= #[trigger] g[i] <= GRAD_LIMIT,
        (acc0 matches Option::Some(r0) ==> forall|i: int|
            0 <= i < r0.len() ==> -GRAD_LIMIT <= #[trigger] r0[i] <= GRAD_LIMIT),
    ensures
        acc1 matches Option::Some(r1) && r1.len() == g.len() && forall|i: int|
            0 <= i < r1.len() ==> (#[trigger] r1[i]) as int == working_of(cfg, acc0, g)[i]
                - scattered(c, i),
{
    let w = working_of(cfg, acc0, g);
    let lim = 2 * (GRAD_LIMIT as int);
    lemma_values_within_working(cfg, acc0, g, c, acc1);
    let r1 = acc1->Some_0;
    assert forall|i: int|
        0 <= i < r1.len() implies (#[trigger] r1[i]) as int == w[i] - scattered(c, i) by {
        lemma_scattered_bound(c.indices@, c.values@, c.indices@.len() as int, i, lim);
        assert(-lim <= w[i] <= lim);
        assert(r1[i] as int == clamp_resid(w[i] - scattered(c, i)));
        assert(-(RESID_LIMIT as int) <= w[i] - scattered(c, i) <= RESID_LIMIT as int);
    }
}

/// One node's pending submission: its latest compressed gradient and the
/// number of samples it was computed from.
#[derive(Debug, Clone)]
pub struct Submission {
    /// The submitting node.
    pub node_id: String,
    /// The node's latest compressed gradient.
    pub gradient: CompressedGradient,
    /// Number of local samples behind the gradient.
    pub samples: u64,
}

/// Sum of the sample counts of a submission sequence.
pub open spec fn total_samples(s: Seq<Submission>) -> int
    decreases s.len(),
{
    if s.len() == 0 {
        0
    } else {
        total_samples(s.drop_last()) + s.last().samples
    }
}

/// The combined numerator at position `p`: each submission's dense
/// component, weighted by its sample count or uniformly by one.
pub open spec fn entry_sum(s: Seq<Submission>, p: int, weighted: bool) -> int
    decreases s.len(),
{
    if s.len() == 0 {
        0
    } else {
        entry_sum(s.drop_last(), p, weighted) + scattered(s.last().gradient, p) * (
        if weighted {
            s.last().samples as int
        } else {
            1
        })
    }
}

/// The divisor matching [`entry_sum`]: the total samples when weighted,
/// the participant count otherwise.
pub open spec fn entry_divisor(s: Seq<Submission>, weighted: bool) -> int {
    if weighted {
        total_samples(s)
    } else {
        s.len() as int
    }
}

/// A dense component of a well-formed gradient is a single kept value or
/// zero, so any bound on the kept values bounds it too.
proof fn lemma_scattered_bound(ind: Seq<usize>, vals: Seq<i64>, upto: int, p: int, b: int)
    requires
        vals.len() == ind.len(),
        0 <= upto <= ind.len(),
        ind.no_duplicates(),
        b >= 0,
        forall|i: int| 0 <= i < vals.len() ==> -b <= #[trigger] vals[i] as int <= b,
    ensures
        -b <= scatter_at(ind, vals, upto, p) <= b,
    decreases upto,
{
    if upto > 0 {
        if ind[upto - 1] == p {
            assert forall|t: int| 0 <= t < upto - 1 implies (#[trigger] ind[t]) != p by {}
            lemma_scatter_at_missing(ind, vals, upto - 1, p);
        } else {
            lemma_scattered_bound(ind, vals, upto - 1, p, b);
        }
    }
}

/// The combined numerator is bounded by the value window times the
/// divisor, which makes the aggregate a value-window quantity.
proof fn lemma_entry_sum_bound(s: Seq<Submission>, p: int, weighted: bool)
    requires
        forall|j: int| 0 <= j < s.len() ==> gradient_wf(#[trigger] s[j].gradient),
        forall|j: int| 0 <= j < s.len() ==> (#[trigger] s[j].samples) >= 1,
    ensures
        vstd::math::abs(entry_sum(s, p, weighted)) <= VAL_LIMIT as int * entry_divisor(
            s,
            weighted,
        ),
        s.len() <= entry_divisor(s, weighted) <= (s.len() as int) * 0xffffffffffffffff,
    decreases s.len(),
{
    if s.len() == 0 {
    } else {
        let pre = s.drop_last();
        assert forall|j: int| 0 <= j < pre.len() implies gradient_wf(
            #[trigger] pre[j].gradient,
        ) && pre[j].samples >= 1 by {
            assert(pre[j] == s[j]);
        }
        lemma_entry_sum_bound(pre, p, weighted);
        let g = s.last().gradient;
        lemma_scattered_bound(g.indices@, g.values@, g.indices@.len() as int, p, VAL_LIMIT as int);
        let sc = scattered(g, p);
        let m: int = if weighted {
            s.last().samples as int
        } else {
            1
        };
        assert(vstd::math::abs(sc * m) <= VAL_LIMIT as int * m) by (nonlinear_arith)
            requires
                -VAL_LIMIT <= sc <= VAL_LIMIT,
                m >= 1,
        ;
        assert(VAL_LIMIT as int * entry_divisor(pre, weighted) + VAL_LIMIT as int * m
            == VAL_LIMIT as int * (entry_divisor(pre, weighted) + m)) by (nonlinear_arith);
        assert((pre.len() as int) * 0xffffffffffffffff + 0xffffffffffffffff == (s.len() as int)
            * 0xffffffffffffffff) by (nonlinear_arith)
            requires
                s.len() == pre.len() + 1,
        ;
    }
}

/// Central aggregator that combines each node's latest submission into one
/// global update.
#[derive(Debug)]
pub struct GradientAggregator {
    /// Aggregation strategy.
    pub strategy: AggregationStrategy,
    /// Number of distinct nodes required before aggregation makes sense.
    pub min_participants: usize,
    /// Dense model size, when known in advance; otherwise inferred from
    /// the first submission.
    pub model_size: Option<usize>,
    pending: Vec<Submission>,
    round: u64,
}

/// The dense size an aggregation round works at: the configured model
/// size, or the first pending submission's size.
pub open spec fn agg_size(model_size: Option<usize>, pending: Seq<Submission>) -> int {
    match model_size {
        Option::Some(m) => m as int,
        Option::None => if pending.len() > 0 {
            pending[0].gradient.original_size as int
        } else {
            0
        },
    }
}

impl GradientAggregator {
    /// The submissions waiting for the next aggregation round.
    pub closed spec fn spec_pending(&self) -> Seq<Submission> {
        self.pending@
    }

    /// The configured strategy.
    pub closed spec fn spec_strategy(&self) -> AggregationStrategy {
        self.strategy
    }

    /// The configured participation threshold.
    pub closed spec fn spec_min_participants(&self) -> usize {
        self.min_participants
    }

    /// The configured dense model size, if any.
    pub closed spec fn spec_model_size(&self) -> Option<usize> {
        self.model_size
    }

    /// The number of completed aggregation rounds.
    pub closed spec fn spec_round(&self) -> u64 {
        self.round
    }

    /// Pending state the aggregator maintains: one submission per node,
    /// each well formed, with at least one sample, and few enough that
    /// the combination arithmetic stays exact.
    pub open spec fn wf(&self) -> bool {
        &&& self.spec_pending().len() <= 65536
        &&& forall|i: int, j: int|
            0 <= i < j < self.spec_pending().len() ==> (#[trigger] self.spec_pending()[i]).node_id@
                != (#[trigger] self.spec_pending()[j]).node_id@
        &&& forall|j: int|
            0 <= j < self.spec_pending().len() ==> gradient_wf(
                (#[trigger] self.spec_pending()[j]).gradient,
            )
        &&& forall|j: int|
            0 <= j < self.spec_pending().len() ==> (#[trigger] self.spec_pending()[j]).samples >= 1
    }

    /// Create an aggregator with no pending submissions.
    pub fn new(strategy: AggregationStrategy, min_participants: usize) -> (r: Self)
        ensures
            r.spec_strategy() == strategy,
            r.spec_min_participants() == min_participants,
            r.spec_model_size() is None,
            r.spec_pending() == Seq::<Submission>::empty(),
            r.spec_round() == 0,
            r.wf(),
    {
        GradientAggregator {
            strategy,
            min_participants,
            model_size: Option::None,
            pending: Vec::new(),
            round: 0,
        }
    }

    /// Record a node's submission, overwriting any earlier one from the
    /// same node. A submission carries at least one sample, since the
    /// weighted combination divides by the total sample count.
    pub fn receive_gradients(&mut self, node_id: &str, gradients: CompressedGradient, samples: u64)
        requires
            old(self).wf(),
            gradient_wf(gradients),
            samples >= 1,
            old(self).spec_pending().len() < 65536,
        ensures
            final(self).wf(),
            final(self).spec_strategy() == old(self).spec_strategy(),
            final(self).spec_min_participants() == old(self).spec_min_participants(),
            final(self).spec_model_size() == old(self).spec_model_size(),
            final(self).spec_round() == old(self).spec_round(),
            ({
                let old_p = old(self).spec_pending();
                let new_p = final(self).spec_pending();
                if exists|j: int| 0 <= j < old_p.len() && (#[trigger] old_p[j]).node_id@
                    == node_id@ {
                    exists|j: int|
                        {
                            &&& 0 <= j < old_p.len()
                            &&& (#[trigger] old_p[j]).node_id@ == node_id@
                            &&& new_p.len() == old_p.len()
                            &&& new_p[j].node_id@ == node_id@
                            &&& new_p[j].gradient == gradients
                            &&& new_p[j].samples == samples
                            &&& forall|t: int| 0 <= t < old_p.len() && t != j ==> new_p[t]
                                == old_p[t]
                        }
                } else {
                    &&& new_p.len() == old_p.len() + 1
                    &&& new_p.subrange(0, old_p.len() as int) == old_p
                    &&& new_p.last().node_id@ == node_id@
                    &&& new_p.last().gradient == gradients
                    &&& new_p.last().samples == samples
                }
            }),
    {
        let key: String = node_id.to_owned();
        let mut t: usize = 0;
        while t < self.pending.len()
            invariant
                self == old(self),
                old(self).wf(),
                old(self).spec_pending().len() < 65536,
                gradient_wf(gradients),
                samples >= 1,
                key@ == node_id@,
                t <= self.pending@.len(),
                forall|q: int| 0 <= q < t ==> (#[trigger] self.pending@[q]).node_id@ != node_id@,
            decreases self.pending@.len() - t,
        {
            if self.pending[t].node_id == key {
                let ghost oldp = self.pending@;
                let sub = Submission { node_id: key, gradient: gradients, samples };
                self.pending.set(t, sub);
                proof {
                    let op = old(self).spec_pending();
                    assert(op == oldp);
                    assert(op[t as int].node_id@ == node_id@);
                    assert(self.pending@ == oldp.update(t as int, sub));
                    assert(self.pending@[t as int].node_id@ == node_id@);
                    assert forall|i: int, j: int|
                        0 <= i < j < self.pending@.len() implies (
                        #[trigger] self.pending@[i]).node_id@ != (
                        #[trigger] self.pending@[j]).node_id@ by {
                        assert((#[trigger] op[i]).node_id@ != (#[trigger] op[j]).node_id@);
                        if i != t && j != t {
                            assert(self.pending@[i] == op[i] && self.pending@[j] == op[j]);
                        } else if i == t {
                            assert(self.pending@[j] == op[j]);
                            assert(self.pending@[i].node_id@ == op[t as int].node_id@);
                        } else {
                            assert(self.pending@[i] == op[i]);
                            assert(self.pending@[j].node_id@ == op[t as int].node_id@);
                        }
                    }
                }
                return ;
            }
            t = t + 1;
        }
        let sub = Submission { node_id: key, gradient: gradients, samples };
        self.pending.push(sub);
        proof {
            let ghost newp = self.pending@;
            assert forall|i: int, j: int|
                0 <= i < j < newp.len() implies (#[trigger] newp[i]).node_id@ != (
                #[trigger] newp[j]).node_id@ by {
                if j == newp.len() - 1 {
                    assert(newp[i] == old(self).spec_pending()[i]);
                    assert(old(self).spec_pending()[i].node_id@ != node_id@);
                }
            }
            assert(newp.subrange(0, newp.len() - 1) =~= old(self).spec_pending());
        }
    }

    /// Number of nodes with a pending submission.
    pub fn num_participants(&self) -> (r: usize)
        ensures
            r == self.spec_pending().len(),
    {
        self.pending.len()
    }

    /// Whether enough nodes have reported to aggregate.
    pub fn ready_to_aggregate(&self) -> (r: bool)
        ensures
            r == (self.spec_pending().len() >= self.spec_min_participants()),
    {
        self.num_participants() >= self.min_participants
    }

    /// Combine all pending submissions into one dense update, clear the
    /// pending set, and advance the round counter.
    ///
    /// `FedAvg` and `WeightedAvg` weight each node by its share of the
    /// total samples; `AsyncFedAvg` weights every node equally. Each
    /// output component is the exact weighted sum divided once, with
    /// truncation, by the total weight. Fails if, and only if, nothing is
    /// pending.
    pub fn aggregate(&mut self) -> (r: Result<Vec<i64>, DistributedError>)
        requires
            old(self).wf(),
            old(self).spec_round() < u64::MAX,
            forall|j: int|
                0 <= j < old(self).spec_pending().len() ==> (#[trigger] old(
                    self,
                ).spec_pending()[j]).gradient.original_size <= agg_size(
                    old(self).spec_model_size(),
                    old(self).spec_pending(),
                ),
        ensures
            final(self).wf(),
            final(self).spec_strategy() == old(self).spec_strategy(),
            final(self).spec_min_participants() == old(self).spec_min_participants(),
            final(self).spec_model_size() == old(self).spec_model_size(),
            r is Ok <==> old(self).spec_pending().len() > 0,
            old(self).spec_pending().len() == 0 ==> r == Result::<Vec<i64>, DistributedError>::Err(
                DistributedError::NoPendingData,
            ) && *final(self) == *old(self),
            old(self).spec_pending().len() > 0 ==> {
                &&& final(self).spec_pending().len() == 0
                &&& final(self).spec_round() == old(self).spec_round() + 1
                &&& r matches Ok(v) && v@.len() == agg_size(
                    old(self).spec_model_size(),
                    old(self).spec_pending(),
                ) && ({
                    let weighted = !(old(self).spec_strategy() is AsyncFedAvg);
                    let old_p = old(self).spec_pending();
                    forall|p: int|
                        0 <= p < v@.len() ==> (#[trigger] v@[p]) as int == crate::intmath::tdiv(
                            entry_sum(old_p, p, weighted),
                            entry_divisor(old_p, weighted),
                        )
                })
            },
    {
        if self.pending.is_empty() {
            return Result::Err(DistributedError::NoPendingData);
        }
        let ghost old_p = self.pending@;
        let weighted = !matches!(self.strategy, AggregationStrategy::AsyncFedAvg);
        let msize: usize = match self.model_size {
            Option::Some(m) => m,
            Option::None => self.pending[0].gradient.original_size,
        };

        let mut divisor: u128 = 0;
        let mut j: usize = 0;
        while j < self.pending.len()
            invariant
                self == old(self),
                old(self).wf(),
                old_p == self.pending@,
                weighted == !(old(self).spec_strategy() is AsyncFedAvg),
                j <= old_p.len(),
                divisor as int == entry_divisor(old_p.subrange(0, j as int), weighted),
                divisor as int >= j,
                divisor as int <= (j as int) * 0xffffffffffffffff,
            decreases old_p.len() - j,
        {
            proof {
                assert(old_p.subrange(0, j + 1 as int).drop_last() =~= old_p.subrange(0, j as int));
                assert(old_p.subrange(0, j + 1 as int).last() == old_p[j as int]);
                assert((j as int) * 0xffffffffffffffff + 0xffffffffffffffff == (j + 1)
                    * 0xffffffffffffffff) by (nonlinear_arith);
                assert((j + 1) * 0xffffffffffffffff <= 65536 * 0xffffffffffffffff)
                    by (nonlinear_arith)
                    requires
                        0 <= j + 1 <= 65536,
                ;
            }
            if weighted {
                divisor = divisor + (self.pending[j].samples as u128);
            } else {
                divisor = divisor + 1;
            }
            j = j + 1;
        }
        proof {
            assert(old_p.subrange(0, old_p.len() as int) =~= old_p);
            assert((old_p.len() as int) * 0xffffffffffffffff <= 65536 * 0xffffffffffffffff)
                by (nonlinear_arith)
                requires
                    0 <= old_p.len() <= 65536,
            ;
        }

        let mut acc: Vec<i128> = vec![0i128; msize];
        let mut jj: usize = 0;
        while jj < self.pending.len()
            invariant
                self == old(self),
                old(self).wf(),
                old_p == self.pending@,
                weighted == !(old(self).spec_strategy() is AsyncFedAvg),
                forall|q: int|
                    0 <= q < old_p.len() ==> (#[trigger] old_p[q]).gradient.original_size
                        <= msize,
                jj <= old_p.len(),
                acc@.len() == msize,
                forall|p: int|
                    0 <= p < msize ==> (#[trigger] acc@[p]) as int == entry_sum(
                        old_p.subrange(0, jj as int),
                        p,
                        weighted,
                    ),
                forall|p: int|
                    0 <= p < msize ==> vstd::math::abs(#[trigger] acc@[p] as int) <= VAL_LIMIT
                        as int * entry_divisor(old_p.subrange(0, jj as int), weighted),
            decreases old_p.len() - jj,
        {
            let ghost pre = old_p.subrange(0, jj as int);
            let ghost post = old_p.subrange(0, jj + 1 as int);
            proof {
                assert(post.drop_last() =~= pre);
                assert(post.last() == old_p[jj as int]);
                assert forall|q: int| 0 <= q < pre.len() implies gradient_wf(
                    (#[trigger] pre[q]).gradient,
                ) && pre[q].samples >= 1 by {
                    assert(pre[q] == old_p[q]);
                }
            }
            proof {
                assert forall|q: int| 0 <= q < msize implies vstd::math::abs(
                    entry_sum(pre, q, weighted),
                ) <= VAL_LIMIT as int * entry_divisor(pre, weighted) by {
                    lemma_entry_sum_bound(pre, q, weighted);
                }
                lemma_entry_sum_bound(pre, 0, weighted);
                assert((pre.len() as int) * 0xffffffffffffffff <= 65536 * 0xffffffffffffffff)
                    by (nonlinear_arith)
                    requires
                        0 <= pre.len() <= 65536,
                ;
            }
            let g = &self.pending[jj].gradient;
            let m: i128 = if weighted {
                self.pending[jj].samples as i128
            } else {
                1
            };
            let ghost mi = m as int;
            let mut t: usize = 0;
            while t < g.indices.len()
                invariant
                    gradient_wf(*g),
                    g.original_size <= msize,
                    1 <= mi == m as int <= 0xffffffffffffffff,
                    t <= g.indices@.len(),
                    acc@.len() == msize,
                    forall|p: int|
                        0 <= p < msize ==> (#[trigger] acc@[p]) as int == entry_sum(
                            pre,
                            p,
                            weighted,
                        ) + scatter_at(g.indices@, g.values@, t as int, p) * mi,
                    forall|p: int|
                        0 <= p < msize ==> vstd::math::abs(
                            entry_sum(pre, p, weighted),
                        ) <= VAL_LIMIT as int * entry_divisor(pre, weighted),
                    forall|p: int|
                        0 <= p < msize ==> vstd::math::abs(
                            scatter_at(g.indices@, g.values@, t as int, p),
                        ) <= VAL_LIMIT as int,
                    entry_divisor(pre, weighted) <= 65536 * 0xffffffffffffffff,
                decreases g.indices@.len() - t,
            {
                let idx = g.indices[t];
                proof {
                    assert(vstd::math::abs(g.values@[t as int] as int * mi) <= VAL_LIMIT as int
                        * mi) by (nonlinear_arith)
                        requires
                            -VAL_LIMIT <= g.values@[t as int] <= VAL_LIMIT,
                            mi >= 1,
                    ;
                    assert(VAL_LIMIT as int * mi <= VAL_LIMIT as int * 0xffffffffffffffff)
                        by (nonlinear_arith)
                        requires
                            1 <= mi <= 0xffffffffffffffff,
                    ;
                }
                let term: i128 = (g.values[t] as i128) * m;
                proof {
                    assert(VAL_LIMIT as int * mi <= VAL_LIMIT as int * 0xffffffffffffffff)
                        by (nonlinear_arith)
                        requires
                            1 <= mi <= 0xffffffffffffffff,
                    ;
                    assert(VAL_LIMIT as int * entry_divisor(pre, weighted) <= VAL_LIMIT as int * (
                    65536 * 0xffffffffffffffff)) by (nonlinear_arith)
                        requires
                            0 <= entry_divisor(pre, weighted) <= 65536 * 0xffffffffffffffff,
                    ;
                    assert((scatter_at(g.indices@, g.values@, t as int, idx as int)
                        + g.values@[t as int] as int) * mi == scatter_at(
                        g.indices@,
                        g.values@,
                        t as int,
                        idx as int,
                    ) * mi + g.values@[t as int] as int * mi) by (nonlinear_arith);
                    assert(vstd::math::abs(
                        scatter_at(g.indices@, g.values@, t + 1 as int, idx as int),
                    ) <= VAL_LIMIT as int) by {
                        lemma_scattered_bound(g.indices@, g.values@, t + 1 as int, idx as int, VAL_LIMIT as int);
                    }
                    assert(vstd::math::abs(
                        scatter_at(g.indices@, g.values@, t + 1 as int, idx as int) * mi,
                    ) <= VAL_LIMIT as int * mi) by (nonlinear_arith)
                        requires
                            vstd::math::abs(
                                scatter_at(g.indices@, g.values@, t + 1 as int, idx as int),
                            ) <= VAL_LIMIT as int,
                            mi >= 1,
                    ;
                }
                let cur = acc[idx];
                acc.set(idx, cur + term);
                proof {
                    assert forall|pp: int| 0 <= pp < msize implies #[trigger] vstd::math::abs(
                        scatter_at(g.indices@, g.values@, t + 1 as int, pp),
                    ) <= VAL_LIMIT as int by {
                        lemma_scattered_bound(g.indices@, g.values@, t + 1 as int, pp, VAL_LIMIT as int);
                    }
                }
                t = t + 1;
            }
            proof {
                assert forall|p: int| 0 <= p < msize implies (#[trigger] acc@[p]) as int
                    == entry_sum(post, p, weighted) by {
                    assert(scatter_at(g.indices@, g.values@, g.indices@.len() as int, p)
                        == scattered(old_p[jj as int].gradient, p));
                }
                lemma_entry_sum_bound(post, 0, weighted);
                assert forall|p: int| 0 <= p < msize implies vstd::math::abs(
                    #[trigger] acc@[p] as int,
                ) <= VAL_LIMIT as int * entry_divisor(post, weighted) by {
                    lemma_entry_sum_bound(post, p, weighted);
                }
            }
            jj = jj + 1;
        }
        proof {
            assert(old_p.subrange(0, old_p.len() as int) =~= old_p);
        }

        let mut result: Vec<i64> = Vec::new();
        let mut p: usize = 0;
        while p < msize
            invariant
                weighted == !(old(self).spec_strategy() is AsyncFedAvg),
                acc@.len() == msize,
                divisor as int == entry_divisor(old_p, weighted),
                divisor >= 1,
                divisor as int <= 65536 * 0xffffffffffffffff,
                forall|q: int|
                    0 <= q < msize ==> (#[trigger] acc@[q]) as int == entry_sum(
                        old_p,
                        q,
                        weighted,
                    ),
                forall|q: int|
                    0 <= q < msize ==> vstd::math::abs(#[trigger] acc@[q] as int) <= VAL_LIMIT
                        as int * (divisor as int),
                p <= msize,
                result@.len() == p,
                forall|q: int|
                    0 <= q < p ==> (#[trigger] result@[q]) as int == crate::intmath::tdiv(
                        entry_sum(old_p, q, weighted),
                        entry_divisor(old_p, weighted),
                    ),
            decreases msize - p,
        {
            let a = acc[p];
            let d = crate::intmath::tdiv_i128(a, divisor);
            proof {
                if a >= 0 {
                    vstd::arithmetic::div_mod::lemma_div_is_ordered(
                        a as int,
                        VAL_LIMIT as int * (divisor as int),
                        divisor as int,
                    );
                    vstd::arithmetic::div_mod::lemma_div_by_multiple(
                        VAL_LIMIT as int,
                        divisor as int,
                    );
                } else {
                    vstd::arithmetic::div_mod::lemma_div_is_ordered(
                        -(a as int),
                        VAL_LIMIT as int * (divisor as int),
                        divisor as int,
                    );
                    vstd::arithmetic::div_mod::lemma_div_by_multiple(
                        VAL_LIMIT as int,
                        divisor as int,
                    );
                }
            }
            result.push(d as i64);
            p = p + 1;
        }

        self.pending.clear();
        self.round = self.round + 1;
        Result::Ok(result)
    }
}


/// The simulated gradient component for a training step: a fixed
/// congruential formula mapped into `[-100000, 100000]` micro-units.
pub open spec fn sim_gradient(step: nat, i: nat) -> int {
    ((step * 1000 + i) * 1103515245 + 12345) % 200001 - 100000
}

/// A federated-learning client on a ground or orbital node: local
/// (simulated) training plus gradient compression for transmission.
#[derive(Debug)]
pub struct FederatedClient {
    /// This node's identifier.
    pub node_id: String,
    /// The kind of node, free-form (for example "orbital" or "ground").
    pub node_type: String,
    /// The compression configuration in force.
    pub compression: CompressionConfig,
    compressor: GradientCompressor,
    local_steps: u64,
}

impl FederatedClient {
    /// The client's node identifier.
    pub closed spec fn spec_node_id(&self) -> Seq<char> {
        self.node_id@
    }

    /// The client's node kind.
    pub closed spec fn spec_node_type(&self) -> Seq<char> {
        self.node_type@
    }

    /// The configuration in force.
    pub closed spec fn spec_compression(&self) -> CompressionConfig {
        self.compression
    }

    /// Local training steps taken so far.
    pub closed spec fn spec_steps(&self) -> u64 {
        self.local_steps
    }

    /// The compressor state, including any error-feedback residual.
    pub closed spec fn spec_acc(&self) -> Option<Seq<i64>> {
        self.compressor.spec_acc()
    }

    /// A client whose compressor matches its configuration and is well
    /// formed.
    pub closed spec fn wf(&self) -> bool {
        &&& self.compressor.wf()
        &&& self.compressor.spec_config() == self.compression
    }

    /// Create a client; a missing configuration defaults to the balanced
    /// one. Rejects an invalid configuration.
    pub fn new(node_id: &str, compression: Option<CompressionConfig>, node_type: &str) -> (r:
        Result<Self, DistributedError>)
        ensures
            ({
                let cfg = match compression {
                    Option::Some(c) => c,
                    Option::None => balanced_config(),
                };
                &&& (r is Ok <==> config_ok(cfg))
                &&& r matches Ok(c) ==> c.wf() && c.spec_node_id() == node_id@
                    && c.spec_node_type() == node_type@ && c.spec_compression() == cfg
                    && c.spec_steps() == 0 && c.spec_acc() is None
            }),
    {
        let config = match compression {
            Option::Some(c) => c,
            Option::None => CompressionConfig::balanced(),
        };
        match GradientCompressor::new(config) {
            Result::Ok(compressor) => Result::Ok(
                FederatedClient {
                    node_id: node_id.to_owned(),
                    node_type: node_type.to_owned(),
                    compression: config,
                    compressor,
                    local_steps: 0,
                },
            ),
            Result::Err(e) => Result::Err(e),
        }
    }

    /// An orbital client with the balanced default compression.
    pub fn orbital(node_id: &str) -> (r: Self)
        ensures
            r.wf(),
            r.spec_node_id() == node_id@,
            r.spec_node_type() == "orbital"@,
            r.spec_compression() == balanced_config(),
            r.spec_steps() == 0,
            r.spec_acc() is None,
    {
        match Self::new(node_id, Option::Some(CompressionConfig::balanced()), "orbital") {
            Result::Ok(c) => c,
            Result::Err(_) => vstd::pervasive::unreached(),
        }
    }

    /// A ground client with the minimal default compression.
    pub fn ground(node_id: &str) -> (r: Self)
        ensures
            r.wf(),
            r.spec_node_id() == node_id@,
            r.spec_node_type() == "ground"@,
            r.spec_compression() == low_config(),
            r.spec_steps() == 0,
            r.spec_acc() is None,
    {
        match Self::new(node_id, Option::Some(CompressionConfig::low_compression()), "ground") {
            Result::Ok(c) => c,
            Result::Err(_) => vstd::pervasive::unreached(),
        }
    }

    /// Simulate one local training step and return its gradient.
    pub fn compute_gradients(&mut self, model_params: &Vec<i64>, local_data: &Vec<i64>) -> (r: Vec<
        i64,
    >)
        requires
            old(self).spec_steps() < u64::MAX,
        ensures
            final(self).spec_steps() == old(self).spec_steps() + 1,
            final(self).wf() == old(self).wf(),
            final(self).spec_compression() == old(self).spec_compression(),
            final(self).spec_acc() == old(self).spec_acc(),
            r@.len() == model_params@.len(),
            forall|i: int|
                0 <= i < r@.len() ==> (#[trigger] r@[i]) as int == sim_gradient(
                    final(self).spec_steps() as nat,
                    i as nat,
                ),
            forall|i: int| 0 <= i < r@.len() ==> -100000 <= #[trigger] r@[i] <= 100000,
    {
        let _ = local_data;
        self.local_steps = self.local_steps + 1;
        let step = self.local_steps;
        let n = model_params.len();
        let mut r: Vec<i64> = Vec::new();
        let mut i: usize = 0;
        while i < n
            invariant
                i <= n,
                r@.len() == i,
                forall|t: int|
                    0 <= t < i ==> (#[trigger] r@[t]) as int == sim_gradient(
                        step as nat,
                        t as nat,
                    ),
                forall|t: int| 0 <= t < i ==> -100000 <= #[trigger] r@[t] <= 100000,
            decreases n - i,
        {
            let x: u128 = ((step as u128) * 1000 + (i as u128)) * 1103515245 + 12345;
            let g: i64 = ((x % 200001) as i64) - 100000;
            proof {
                assert((x % 200001) < 200001);
            }
            r.push(g);
            i = i + 1;
        }
        r
    }

    /// Compress a gradient for transmission, updating the error-feedback
    /// state.
    pub fn compress(&mut self, gradients: &Vec<i64>) -> (c: CompressedGradient)
        requires
            old(self).wf(),
            gradients@.len() <= 0x10000000,
            forall|i: int|
                0 <= i < gradients@.len() ==> -GRAD_LIMIT <= #[trigger] gradients@[i]
                    <= GRAD_LIMIT,
        ensures
            final(self).wf(),
            final(self).spec_compression() == old(self).spec_compression(),
            final(self).spec_node_id() == old(self).spec_node_id(),
            final(self).spec_steps() == old(self).spec_steps(),
            gradient_wf(c),
            compress_post(
                old(self).spec_compression(),
                old(self).spec_acc(),
                gradients@,
                c,
                final(self).spec_acc(),
            ),
    {
        self.compressor.compress(gradients)
    }

    /// Apply an aggregated update to model parameters with the given
    /// learning rate in parts per million: each component becomes
    /// `p - (u * lr) / 1000000`, truncated. The result pairs the shorter
    /// of the two vectors.
    pub fn apply_update(&self, model_params: &Vec<i64>, update: &Vec<i64>, lr_ppm: u64) -> (r: Vec<
        i64,
    >)
        requires
            lr_ppm <= 1000000,
            forall|i: int|
                0 <= i < model_params@.len() ==> -GRAD_LIMIT <= #[trigger] model_params@[i]
                    <= GRAD_LIMIT,
            forall|i: int|
                0 <= i < update@.len() ==> -VAL_LIMIT <= #[trigger] update@[i] <= VAL_LIMIT,
        ensures
            r@.len() == if model_params@.len() <= update@.len() {
                model_params@.len()
            } else {
                update@.len()
            },
            forall|i: int|
                0 <= i < r@.len() ==> (#[trigger] r@[i]) as int == model_params@[i]
                    - crate::intmath::tdiv(update@[i] as int * lr_ppm as int, 1000000),
    {
        let n = if model_params.len() <= update.len() {
            model_params.len()
        } else {
            update.len()
        };
        let mut r: Vec<i64> = Vec::new();
        let mut i: usize = 0;
        while i < n
            invariant
                n <= model_params@.len() && n <= update@.len(),
                lr_ppm <= 1000000,
                forall|t: int|
                    0 <= t < model_params@.len() ==> -GRAD_LIMIT <= #[trigger] model_params@[t]
                        <= GRAD_LIMIT,
                forall|t: int|
                    0 <= t < update@.len() ==> -VAL_LIMIT <= #[trigger] update@[t] <= VAL_LIMIT,
                i <= n,
                r@.len() == i,
                forall|t: int|
                    0 <= t < i ==> (#[trigger] r@[t]) as int == model_params@[t]
                        - crate::intmath::tdiv(update@[t] as int * lr_ppm as int, 1000000),
            decreases n - i,
        {
            proof {
                assert(vstd::math::abs(update@[i as int] as int * lr_ppm as int) <= VAL_LIMIT
                    as int * 1000000) by (nonlinear_arith)
                    requires
                        -VAL_LIMIT <= update@[i as int] <= VAL_LIMIT,
                        0 <= lr_ppm <= 1000000,
                ;
            }
            let scaled: i128 = (update[i] as i128) * (lr_ppm as i128);
            let d: i128 = crate::intmath::tdiv_i128(scaled, 1000000);
            r.push(model_params[i] - (d as i64));
            i = i + 1;
        }
        r
    }
}

/// Snapshot of a client's identity and training progress.
#[derive(Debug)]
pub struct ClientStats {
    /// The node's identifier.
    pub node_id: String,
    /// The node's kind.
    pub node_type: String,
    /// Local training steps taken.
    pub local_steps: u64,
    /// The configuration's theoretical compression ratio, parts per
    /// million.
    pub compression_ratio_ppm: u64,
}

impl FederatedClient {
    /// A statistics snapshot of this client.
    pub fn get_stats(&self) -> (r: ClientStats)
        ensures
            r.node_id@ == self.spec_node_id(),
            r.node_type@ == self.spec_node_type(),
            r.local_steps == self.spec_steps(),
            r.compression_ratio_ppm as int == self.spec_compression().spec_theoretical_ratio_ppm(),
    {
        ClientStats {
            node_id: self.node_id.clone(),
            node_type: self.node_type.clone(),
            local_steps: self.local_steps,
            compression_ratio_ppm: self.compression.theoretical_compression_ratio_ppm(),
        }
    }
}

/// Law: for the non-quantizing methods with no stored residual, the
/// decompressed gradient equals the input exactly at the selected indices
/// and is zero everywhere else.
pub proof fn lemma_roundtrip_exact(
    cfg: CompressionConfig,
    g: Seq<i64>,
    c: CompressedGradient,
    acc1: Option<Seq<i64>>,
    d: Seq<i64>,
)
    requires
        cfg.method == CompressionMethod::NoCompression || cfg.method == CompressionMethod::TopK
            || cfg.method == CompressionMethod::RandomK,
        compress_post(cfg, Option::None, g, c, acc1),
        gradient_wf(c),
        d.len() == c.original_size,
        forall|p: int| 0 <= p < d.len() ==> (#[trigger] d[p]) as int == scattered(c, p),
    ensures
        forall|i: int|
            0 <= i < c.indices@.len() ==> d[#[trigger] c.indices@[i] as int] == g[c.indices@[i] as int],
        forall|p: int| 0 <= p < d.len() && !in_sel(c.indices@, p) ==> d[p] == 0,
{
    let w = working_of(cfg, Option::None, g);
    assert forall|p: int| 0 <= p < g.len() implies w[p] == g[p] by {}
    assert forall|i: int| 0 <= i < c.indices@.len() implies d[#[trigger] c.indices@[i] as int]
        == g[c.indices@[i] as int] by {
        lemma_scatter_at_hit(c.indices@, c.values@, i);
        assert(c.values@[i] as int == w[c.indices@[i] as int]);
    }
    assert forall|p: int| 0 <= p < d.len() && !in_sel(c.indices@, p) implies d[p] == 0 by {
        assert forall|t: int| 0 <= t < c.indices@.len() implies (#[trigger] c.indices@[t]) != p by {}
        lemma_scatter_at_missing(c.indices@, c.values@, c.indices@.len() as int, p);
    }
}

/// Law: when two nodes submit with equal sample counts, sample-weighted
/// aggregation yields, at every position, the truncated mean of their two
/// dense gradients.
pub proof fn lemma_fedavg_pair_mean(s: Seq<Submission>, p: int, v: int)
    requires
        s.len() == 2,
        s[0].samples == s[1].samples,
        s[0].samples >= 1,
        v == crate::intmath::tdiv(entry_sum(s, p, true), entry_divisor(s, true)),
    ensures
        v == crate::intmath::tdiv(
            scattered(s[0].gradient, p) + scattered(s[1].gradient, p),
            2,
        ),
{
    let a = scattered(s[0].gradient, p);
    let b = scattered(s[1].gradient, p);
    let m = s[0].samples as int;
    let dl = s.drop_last();
    assert(dl.drop_last() =~= Seq::<Submission>::empty());
    assert(dl.last() == s[0]);
    assert(s.last() == s[1]);
    assert(entry_sum(dl.drop_last(), p, true) == 0);
    assert(total_samples(dl.drop_last()) == 0);
    assert(entry_sum(dl, p, true) == a * m);
    assert(total_samples(dl) == m);
    assert(entry_sum(s, p, true) == a * m + b * m);
    assert(total_samples(s) == 2 * m);
    assert(a * m + b * m == (a + b) * m) by (nonlinear_arith);
    let x = a + b;
    assert(crate::intmath::tdiv(x * m, 2 * m) == crate::intmath::tdiv(x, 2)) by {
        if x >= 0 {
            vstd::arithmetic::div_mod::lemma_div_multiples_vanish_quotient(m, x, 2);
            assert(x * m == m * x && 2 * m == m * 2) by (nonlinear_arith);
        } else {
            vstd::arithmetic::div_mod::lemma_div_multiples_vanish_quotient(m, -x, 2);
            assert(-(x * m) == m * -x && 2 * m == m * 2) by (nonlinear_arith);
        }
    }
}


/// Snapshot of an aggregator's configuration and progress.
#[derive(Debug, Clone, Copy, PartialEq, Eq, Structural)]
pub struct AggregatorStats {
    /// Aggregation strategy in force.
    pub strategy: AggregationStrategy,
    /// Completed aggregation rounds.
    pub round: u64,
    /// Nodes with a pending submission.
    pub pending_participants: usize,
    /// Configured participation threshold.
    pub min_participants: usize,
}

impl GradientAggregator {
    /// A statistics snapshot of this aggregator.
    pub fn get_stats(&self) -> (r: AggregatorStats)
        ensures
            r.strategy == self.spec_strategy(),
            r.round == self.spec_round(),
            r.pending_participants == self.spec_pending().len(),
            r.min_participants == self.spec_min_participants(),
    {
        AggregatorStats {
            strategy: self.strategy,
            round: self.round,
            pending_participants: self.pending.len(),
            min_participants: self.min_participants,
        }
    }
}

} // verus!

//! Distribution statistics over per-read metrics.
//!
//! Quantiles use the nearest-rank method over the sorted observations;
//! mean and population variance are kept as exact rationals of the sum
//! and the sum of squares, so no observation is ever rounded.

use vstd::prelude::*;
use vstd::relations::{sorted_by, total_ordering};
use vstd::seq_lib::lemma_sorted_unique;
use vstd::seq_lib::group_to_multiset_ensures;
use vstd::seq_lib::to_multiset_insert;
use crate::errors::AccordError;
use crate::rational::{Factor, Ratio, quant_index, spec_quant_index};

verus! {

/// The ascending order on observations.
pub open spec fn value_leq() -> spec_fn(u32, u32) -> bool {
    |x: u32, y: u32| x <= y
}

/// The observations in ascending order.
pub open spec fn sorted_of(s: Seq<u32>) -> Seq<u32> {
    s.sort_by(value_leq())
}

/// The sum of a sequence of observations.
pub open spec fn sum_of(s: Seq<u32>) -> int
    decreases s.len(),
{
    if s.len() == 0 {
        0
    } else {
        sum_of(s.drop_last()) + s.last()
    }
}

/// The sum of squares of a sequence of observations.
pub open spec fn sum_sq_of(s: Seq<u32>) -> int
    decreases s.len(),
{
    if s.len() == 0 {
        0
    } else {
        sum_sq_of(s.drop_last()) + s.last() * s.last()
    }
}

/// The ascending order on observations is total.
pub proof fn lemma_value_leq_total_ordering()
    ensures
        total_ordering(value_leq()),
{
    let leq = value_leq();
    assert forall|x: u32, y: u32| x <= y implies #[trigger] leq(x, y) by {}
    assert forall|x: u32, y: u32| #[trigger] leq(x, y) && #[trigger] leq(y, x) implies x == y by {}
}

/// Sum and sum of squares are bounded by the extreme value of the
/// element type.
pub proof fn lemma_sum_bounds(s: Seq<u32>)
    ensures
        0 <= sum_of(s) <= s.len() * 0xffff_ffff,
        0 <= sum_sq_of(s) <= s.len() * (0xffff_ffff * 0xffff_ffff),
    decreases s.len(),
{
    if s.len() == 0 {
    } else {
        lemma_sum_bounds(s.drop_last());
        let y = s.last() as int;
        assert(y * y <= 0xffff_ffff * 0xffff_ffff) by (nonlinear_arith)
            requires 0 <= y <= 0xffff_ffff;
        assert(sum_sq_of(s) == sum_sq_of(s.drop_last()) + y * y);
        assert(s.drop_last().len() == s.len() - 1);
        assert((s.len() - 1) * 0xffff_ffff + 0xffff_ffff == s.len() * 0xffff_ffff)
            by (nonlinear_arith);
        assert((s.len() - 1) * (0xffff_ffff * 0xffff_ffff) + 0xffff_ffff * 0xffff_ffff
            == s.len() * (0xffff_ffff * 0xffff_ffff)) by (nonlinear_arith);
    }
}

/// For every value `x`: `sum_sq(s) + len(s) * x^2 >= 2 * sum(s) * x`,
/// the summed form of `(s[i] - x)^2 >= 0`.
proof fn lemma_sum_sq_cross(s: Seq<u32>, x: int)
    ensures
        sum_sq_of(s) + s.len() * (x * x) >= 2 * (sum_of(s) * x),
    decreases s.len(),
{
    if s.len() == 0 {
    } else {
        let s0 = s.drop_last();
        let y = s.last() as int;
        lemma_sum_sq_cross(s0, x);
        assert(sum_sq_of(s0) + y * y + (s0.len() + 1) * (x * x) >= 2 * ((sum_of(s0) + y) * x))
            by (nonlinear_arith)
            requires
                sum_sq_of(s0) + s0.len() * (x * x) >= 2 * (sum_of(s0) * x),
        ;
    }
}

/// The discriminant of the population variance is non-negative:
/// `len(s) * sum_sq(s) >= sum(s)^2`.
pub proof fn lemma_variance_nonneg(s: Seq<u32>)
    ensures
        s.len() * sum_sq_of(s) >= sum_of(s) * sum_of(s),
    decreases s.len(),
{
    if s.len() == 0 {
    } else {
        let s0 = s.drop_last();
        let y = s.last() as int;
        lemma_variance_nonneg(s0);
        lemma_sum_sq_cross(s0, y);
        lemma_sum_bounds(s0);
        assert((s0.len() + 1) * (sum_sq_of(s0) + y * y)
            >= (sum_of(s0) + y) * (sum_of(s0) + y))
            by (nonlinear_arith)
            requires
                s0.len() * sum_sq_of(s0) >= sum_of(s0) * sum_of(s0),
                sum_sq_of(s0) + s0.len() * (y * y) >= 2 * (sum_of(s0) * y),
                sum_sq_of(s0) >= 0,
        ;
    }
}

/// Copy the observations into ascending order by insertion sort.
fn sorted_copy(values: &Vec<u32>) -> (r: Vec<u32>)
    ensures
        r@ == sorted_of(values@),
        r@.len() == values@.len(),
{
    broadcast use group_to_multiset_ensures;
    broadcast use to_multiset_insert;

    let mut out: Vec<u32> = Vec::new();
    let mut i: usize = 0;
    proof {
        assert(values@.take(0) =~= Seq::<u32>::empty());
        assert(out@.to_multiset() =~= values@.take(0).to_multiset());
    }
    while i < values.len()
        invariant
            i <= values@.len(),
            out@.len() == i,
            sorted_by(out@, value_leq()),
            out@.to_multiset() == values@.take(i as int).to_multiset(),
        decreases values@.len() - i,
    {
        let x = values[i];
        let mut j: usize = 0;
        while j < out.len() && out[j] <= x
            invariant
                j <= out@.len(),
                forall|k: int| 0 <= k < j ==> out@[k] <= x,
            decreases out@.len() - j,
        {
            j += 1;
        }
        let ghost pre = out@;
        out.insert(j, x);
        proof {
            broadcast use group_to_multiset_ensures;
            broadcast use to_multiset_insert;
            let leq = value_leq();
            pre.insert_ensures(j as int, x);
            assert(out@ == pre.insert(j as int, x));
            assert forall|a: int, b: int| 0 <= a < b < out@.len()
                implies #[trigger] leq(out@[a], out@[b]) by {
                if a < j && b < j {
                    assert(out@[a] == pre[a] && out@[b] == pre[b]);
                    assert(leq(pre[a], pre[b]));
                } else if a < j && b == j {
                    assert(out@[a] == pre[a] && out@[b] == x);
                } else if a < j && b > j {
                    assert(out@[a] == pre[a] && out@[b] == pre[b - 1]);
                    assert(!(pre[j as int] <= x));
                    if j < b - 1 {
                        assert(leq(pre[j as int], pre[b - 1]));
                    }
                } else if a == j {
                    assert(out@[a] == x && out@[b] == pre[b - 1]);
                    assert(!(pre[j as int] <= x));
                    if j < b - 1 {
                        assert(leq(pre[j as int], pre[b - 1]));
                    }
                } else {
                    assert(out@[a] == pre[a - 1] && out@[b] == pre[b - 1]);
                    assert(leq(pre[a - 1], pre[b - 1]));
                }
            }
            assert(pre.insert(j as int, x).to_multiset() == pre.to_multiset().insert(x));
            assert(values@.take(i + 1) =~= values@.take(i as int).push(x));
            assert(values@.take(i as int).push(x).to_multiset()
                == values@.take(i as int).to_multiset().insert(x));
            assert(out@.to_multiset() == values@.take(i + 1).to_multiset());
        }
        i += 1;
    }
    proof {
        assert(values@.take(values@.len() as int) =~= values@);
        lemma_value_leq_total_ordering();
        values@.lemma_sort_by_ensures(value_leq());
        lemma_sorted_unique(out@, sorted_of(values@), value_leq());
    }
    out
}

/// Sum the observations exactly.
fn sum_values(values: &Vec<u32>) -> (r: u64)
    requires
        values@.len() <= u32::MAX,
    ensures
        r == sum_of(values@),
{
    let mut total: u64 = 0;
    let mut i: usize = 0;
    proof {
        assert(values@.take(0) =~= Seq::<u32>::empty());
    }
    while i < values.len()
        invariant
            i <= values@.len() <= u32::MAX,
            total == sum_of(values@.take(i as int)),
        decreases values@.len() - i,
    {
        proof {
            lemma_sum_bounds(values@.take(i as int));
            assert((i as int) * 0xffff_ffff <= 0xffff_ffffint * 0xffff_ffff)
                by (nonlinear_arith)
                requires 0 <= i <= 0xffff_ffff;
            assert(values@.take(i + 1).drop_last() =~= values@.take(i as int));
        }
        total = total + (values[i] as u64);
        i += 1;
    }
    proof {
        assert(values@.take(values@.len() as int) =~= values@);
    }
    total
}

/// Sum the squared observations exactly.
fn sum_squared_values(values: &Vec<u32>) -> (r: u128)
    requires
        values@.len() <= u32::MAX,
    ensures
        r == sum_sq_of(values@),
{
    let mut total: u128 = 0;
    let mut i: usize = 0;
    proof {
        assert(values@.take(0) =~= Seq::<u32>::empty());
    }
    while i < values.len()
        invariant
            i <= values@.len() <= u32::MAX,
            total == sum_sq_of(values@.take(i as int)),
        decreases values@.len() - i,
    {
        proof {
            lemma_sum_bounds(values@.take(i as int));
            assert((i as int) * (0xffff_ffff * 0xffff_ffff)
                <= 0xffff_ffffint * (0xffff_ffff * 0xffff_ffff))
                by (nonlinear_arith)
                requires 0 <= i <= 0xffff_ffff;
            assert(values@.take(i + 1).drop_last() =~= values@.take(i as int));
        }
        let x = values[i] as u128;
        proof {
            assert((x as int) * (x as int) <= 0xffff_ffff * 0xffff_ffff)
                by (nonlinear_arith)
                requires 0 <= x <= 0xffff_ffff;
        }
        total = total + x * x;
        i += 1;
    }
    proof {
        assert(values@.take(values@.len() as int) =~= values@);
    }
    total
}

/// Quantile data of unsigned integral values: a quantile factor and the
/// value at its nearest rank. E.g. with factor `1/5` and value `3`,
/// 20 % of the observations are at or below `3`.
#[derive(Clone, Copy, Debug, PartialEq, Eq, Structural)]
pub struct Quantile {
    pub factor: Factor,
    pub value: u32,
}

/// Metrics describing the distribution of unsigned, integral data:
/// nearest-rank quantiles, the sample size, and the exact sum and sum of
/// squares from which mean and population variance derive.
#[derive(Clone, Debug)]
pub struct DistributionStats {
    pub quantiles: Vec<Quantile>,
    pub sample_size: usize,
    pub total: u64,
    pub sum_sq: u128,
}

impl DistributionStats {
    /// The moment fields are consistent: bounds forced by the element
    /// type, and a non-negative variance discriminant.
    pub open spec fn wf(self) -> bool {
        &&& 1 <= self.sample_size <= u32::MAX
        &&& self.total <= self.sample_size * 0xffff_ffff
        &&& self.sum_sq <= self.sample_size * (0xffff_ffff * 0xffff_ffff)
        &&& self.sample_size * self.sum_sq >= self.total * self.total
    }

    /// The stats describe exactly the observation sequence `s`.
    pub open spec fn describes(self, s: Seq<u32>, factors: Seq<Factor>) -> bool {
        &&& self.sample_size == s.len()
        &&& self.total == sum_of(s)
        &&& self.sum_sq == sum_sq_of(s)
        &&& self.quantiles.len() == factors.len()
        &&& forall|i: int| 0 <= i < factors.len()
            ==> (#[trigger] self.quantiles[i]).factor == factors[i]
                && self.quantiles[i].value == sorted_of(s)[spec_quant_index(s.len() as int, factors[i])]
    }

    /// Determine the distribution of some numbers.
    ///
    /// Fails with `InsufficientData` when the dataset is empty or holds
    /// fewer values than there are requested quantile factors. The length
    /// bound keeps the exact sum of squares within its carrier type.
    pub fn from_numbers(numbers: Vec<u32>, quantile_factors: &Vec<Factor>) -> (r: Result<
        DistributionStats,
        AccordError,
    >)
        requires
            numbers@.len() <= u32::MAX,
            forall|i: int| 0 <= i < quantile_factors@.len()
                ==> (#[trigger] quantile_factors@[i]).wf(),
        ensures
            r is Ok <==> (1 <= numbers@.len() && quantile_factors@.len() <= numbers@.len()),
            r is Ok ==> r->Ok_0.describes(numbers@, quantile_factors@),
            r is Ok ==> r->Ok_0.wf(),
            r is Err ==> r->Err_0 == AccordError::InsufficientData,
    {
        let n = numbers.len();
        if n == 0 || n < quantile_factors.len() {
            return Err(AccordError::InsufficientData);
        }
        let sorted = sorted_copy(&numbers);
        let quantiles = calculate_quants(&sorted, quantile_factors);
        let total = sum_values(&numbers);
        let sum_sq = sum_squared_values(&numbers);
        proof {
            lemma_sum_bounds(numbers@);
            lemma_variance_nonneg(numbers@);
        }
        Ok(DistributionStats { quantiles, sample_size: n, total, sum_sq })
    }

    /// The exact arithmetic mean of the observations.
    pub fn mean(&self) -> (r: Ratio)
        requires
            self.wf(),
        ensures
            r.num == self.total,
            r.den == self.sample_size,
    {
        Ratio { num: self.total as u128, den: self.sample_size as u128 }
    }

    /// The exact population variance: the sum of squared deviations from
    /// the mean, divided by the sample size, as the single fraction
    /// `(n * sum_sq - total^2) / n^2`.
    pub fn variance(&self) -> (r: Ratio)
        requires
            self.wf(),
        ensures
            r.num == self.sample_size * self.sum_sq - self.total * self.total,
            r.den == self.sample_size * self.sample_size,
    {
        let n = self.sample_size as u128;
        proof {
            assert((self.sample_size as int) * (self.sum_sq as int)
                <= 0xffff_ffffint * (0xffff_ffffint * (0xffff_ffff * 0xffff_ffff)))
                by (nonlinear_arith)
                requires
                    self.sample_size <= 0xffff_ffff,
                    self.sum_sq <= (self.sample_size as int) * (0xffff_ffff * 0xffff_ffff),
                    self.sample_size >= 0,
            ;
            assert((self.total as int) * (self.total as int)
                <= (self.sample_size as int) * (self.sum_sq as int))
                by (nonlinear_arith)
                requires
                    (self.sample_size as int) * (self.sum_sq as int)
                        >= (self.total as int) * (self.total as int),
            ;
            assert((self.sample_size as int) * (self.sample_size as int)
                <= 0xffff_ffffint * 0xffff_ffff)
                by (nonlinear_arith)
                requires 0 <= self.sample_size <= 0xffff_ffff;
        }
        let num = n * self.sum_sq - (self.total as u128) * (self.total as u128);
        let den = n * n;
        Ratio { num, den }
    }
}

/// Relevant data for an aligned read: the four metrics the statistics
/// are drawn from, plus the flag bits.
#[derive(Clone, Copy, Debug, PartialEq, Eq, Structural)]
pub struct AlnData {
    pub length: u32,
    pub mapq: u8,
    pub flags: u16,
    pub score: u32,
    pub distance: u32,
}

impl AlnData {
    /// Build the per-read metrics from plainly extracted record values.
    ///
    /// The auxiliary alignment-score and edit-distance fields are
    /// optional in a record; a missing one, or a length beyond the
    /// metric carrier, is a recoverable extraction error for this single
    /// read, never a fatal abort.
    pub fn new(
        length: usize,
        mapq: u8,
        flags: u16,
        score: Option<u32>,
        distance: Option<u32>,
    ) -> (r: Result<AlnData, AccordError>)
        ensures
            r is Ok <==> (length <= u32::MAX && score is Some && distance is Some),
            r is Ok ==> r->Ok_0 == (AlnData {
                length: length as u32,
                mapq,
                flags,
                score: score->0,
                distance: distance->0,
            }),
            r is Err ==> r->Err_0 == AccordError::RecordExtraction,
    {
        if length > u32::MAX as usize {
            return Err(AccordError::RecordExtraction);
        }
        match (score, distance) {
            (Some(score), Some(distance)) => Ok(AlnData {
                length: length as u32,
                mapq,
                flags,
                score,
                distance,
            }),
            _ => Err(AccordError::RecordExtraction),
        }
    }
}

/// The lengths of a collection of read metrics.
pub open spec fn lengths_of(d: Seq<AlnData>) -> Seq<u32> {
    d.map_values(|a: AlnData| a.length)
}

/// The mapping qualities of a collection of read metrics.
pub open spec fn qualities_of(d: Seq<AlnData>) -> Seq<u32> {
    d.map_values(|a: AlnData| a.mapq as u32)
}

/// The alignment scores of a collection of read metrics.
pub open spec fn scores_of(d: Seq<AlnData>) -> Seq<u32> {
    d.map_values(|a: AlnData| a.score)
}

/// The edit distances of a collection of read metrics.
pub open spec fn distances_of(d: Seq<AlnData>) -> Seq<u32> {
    d.map_values(|a: AlnData| a.distance)
}

/// Statistical data of the admitted reads: one distribution per metric,
/// all built from the same read set and the same quantile factors, so
/// their sample sizes are always equal.
#[derive(Clone, Debug)]
pub struct AlnStats {
    pub length_distribution: DistributionStats,
    pub quality_distribution: DistributionStats,
    pub score_distribution: DistributionStats,
    pub editing_distance_distribution: DistributionStats,
}

impl AlnStats {
    /// All four distributions have consistent moment fields.
    pub open spec fn wf(self) -> bool {
        &&& self.length_distribution.wf()
        &&& self.quality_distribution.wf()
        &&& self.score_distribution.wf()
        &&& self.editing_distance_distribution.wf()
    }

    /// The statistics describe exactly the read metrics `d` under the
    /// quantile factors `factors`.
    pub open spec fn describes(self, d: Seq<AlnData>, factors: Seq<Factor>) -> bool {
        &&& self.length_distribution.describes(lengths_of(d), factors)
        &&& self.quality_distribution.describes(qualities_of(d), factors)
        &&& self.score_distribution.describes(scores_of(d), factors)
        &&& self.editing_distance_distribution.describes(distances_of(d), factors)
    }

    /// Build the four parallel distributions over a set of read metrics.
    ///
    /// Fails with `InsufficientData` when the collection is empty or
    /// holds fewer reads than there are requested quantile factors.
    pub fn from_data(aln_data: &Vec<AlnData>, quantile_factors: &Vec<Factor>) -> (r: Result<
        AlnStats,
        AccordError,
    >)
        requires
            aln_data@.len() <= u32::MAX,
            forall|i: int| 0 <= i < quantile_factors@.len()
                ==> (#[trigger] quantile_factors@[i]).wf(),
        ensures
            r is Ok <==> (1 <= aln_data@.len() && quantile_factors@.len() <= aln_data@.len()),
            r is Ok ==> r->Ok_0.describes(aln_data@, quantile_factors@),
            r is Ok ==> r->Ok_0.wf(),
            r is Err ==> r->Err_0 == AccordError::InsufficientData,
    {
        if aln_data.len() == 0 || aln_data.len() < quantile_factors.len() {
            return Err(AccordError::InsufficientData);
        }
        let (lengths, qualities, scores, distances) = Self::collect_metrics(aln_data);
        let length_distribution = match DistributionStats::from_numbers(lengths, quantile_factors) {
            Ok(d) => d,
            Err(e) => return Err(e),
        };
        let quality_distribution = match DistributionStats::from_numbers(qualities, quantile_factors) {
            Ok(d) => d,
            Err(e) => return Err(e),
        };
        let score_distribution = match DistributionStats::from_numbers(scores, quantile_factors) {
            Ok(d) => d,
            Err(e) => return Err(e),
        };
        let editing_distance_distribution = match DistributionStats::from_numbers(distances, quantile_factors) {
            Ok(d) => d,
            Err(e) => return Err(e),
        };
        Ok(AlnStats {
            length_distribution,
            quality_distribution,
            score_distribution,
            editing_distance_distribution,
        })
    }

    /// Split the metrics collection into its four per-metric columns.
    fn collect_metrics(aln_data: &Vec<AlnData>) -> (r: (Vec<u32>, Vec<u32>, Vec<u32>, Vec<u32>))
        ensures
            r.0@ == lengths_of(aln_data@),
            r.1@ == qualities_of(aln_data@),
            r.2@ == scores_of(aln_data@),
            r.3@ == distances_of(aln_data@),
    {
        let mut lengths: Vec<u32> = Vec::new();
        let mut qualities: Vec<u32> = Vec::new();
        let mut scores: Vec<u32> = Vec::new();
        let mut distances: Vec<u32> = Vec::new();
        let mut i: usize = 0;
        while i < aln_data.len()
            invariant
                i <= aln_data@.len(),
                lengths@.len() == i,
                qualities@.len() == i,
                scores@.len() == i,
                distances@.len() == i,
                forall|k: int| 0 <= k < i ==> lengths@[k] == (#[trigger] aln_data@[k]).length,
                forall|k: int| 0 <= k < i ==> qualities@[k] == (#[trigger] aln_data@[k]).mapq as u32,
                forall|k: int| 0 <= k < i ==> scores@[k] == (#[trigger] aln_data@[k]).score,
                forall|k: int| 0 <= k < i ==> distances@[k] == (#[trigger] aln_data@[k]).distance,
            decreases aln_data@.len() - i,
        {
            let data = aln_data[i];
            lengths.push(data.length);
            qualities.push(data.mapq as u32);
            scores.push(data.score);
            distances.push(data.distance);
            i += 1;
        }
        proof {
            assert(lengths@ =~= lengths_of(aln_data@));
            assert(qualities@ =~= qualities_of(aln_data@));
            assert(scores@ =~= scores_of(aln_data@));
            assert(distances@ =~= distances_of(aln_data@));
        }
        (lengths, qualities, scores, distances)
    }

    /// Number of reads the statistics were built from.
    pub fn get_sample_size(&self) -> (r: usize)
        ensures
            r == self.length_distribution.sample_size,
    {
        self.length_distribution.sample_size
    }
}

/// The four distributions of one read set are built from the same
/// admitted reads, so their sample sizes are always equal.
pub proof fn lemma_aln_stats_sample_sizes_equal(
    stats: AlnStats,
    d: Seq<AlnData>,
    factors: Seq<Factor>,
)
    requires
        stats.describes(d, factors),
    ensures
        stats.length_distribution.sample_size == d.len(),
        stats.quality_distribution.sample_size == d.len(),
        stats.score_distribution.sample_size == d.len(),
        stats.editing_distance_distribution.sample_size == d.len(),
{
}

/// Compute the nearest-rank quantile for each requested factor over the
/// sorted observations.
fn calculate_quants(sorted: &Vec<u32>, factors: &Vec<Factor>) -> (r: Vec<Quantile>)
    requires
        1 <= sorted@.len() <= u32::MAX,
        forall|i: int| 0 <= i < factors@.len() ==> (#[trigger] factors@[i]).wf(),
    ensures
        r@.len() == factors@.len(),
        forall|i: int| 0 <= i < factors@.len()
            ==> (#[trigger] r@[i]).factor == factors@[i]
                && r@[i].value == sorted@[spec_quant_index(sorted@.len() as int, factors@[i])],
{
    let mut quantiles: Vec<Quantile> = Vec::new();
    let mut i: usize = 0;
    while i < factors.len()
        invariant
            i <= factors@.len(),
            quantiles@.len() == i,
            1 <= sorted@.len() <= u32::MAX,
            forall|k: int| 0 <= k < factors@.len() ==> (#[trigger] factors@[k]).wf(),
            forall|k: int| 0 <= k < i
                ==> (#[trigger] quantiles@[k]).factor == factors@[k]
                    && quantiles@[k].value
                        == sorted@[spec_quant_index(sorted@.len() as int, factors@[k])],
        decreases factors@.len() - i,
    {
        let factor = factors[i];
        let index = quant_index(sorted.len(), &factor);
        let value = sorted[index];
        quantiles.push(Quantile { factor, value });
        i += 1;
    }
    quantiles
}

} // verus!

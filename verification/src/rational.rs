//! Exact rational values used in place of floating-point factors.
//!
//! Quantile factors and threshold ratios are fractions in `[0, 1]`; moment
//! statistics are exact fractions of wide integers. Keeping them as integer
//! pairs lets every comparison and rounding step be verified exactly.

use vstd::prelude::*;
use crate::errors::AccordError;

verus! {

/// A fraction `num / den` in `[0, 1]`: `den > 0` and `num <= den`.
///
/// Used for quantile factors and for the indel acceptance threshold.
#[derive(Clone, Copy, Debug, PartialEq, Eq, Structural)]
pub struct Factor {
    pub num: u64,
    pub den: u64,
}

/// An exact non-negative fraction `num / den` reported as a result,
/// e.g. a mean or a population variance.
#[derive(Clone, Copy, Debug, PartialEq, Eq, Structural)]
pub struct Ratio {
    pub num: u128,
    pub den: u128,
}

impl Factor {
    /// The fraction is well formed and lies in `[0, 1]`.
    pub open spec fn wf(self) -> bool {
        self.den > 0 && self.num <= self.den
    }

    /// Build a factor, rejecting fractions outside `[0, 1]`.
    pub fn new(num: u64, den: u64) -> (r: Result<Factor, AccordError>)
        ensures
            r is Ok <==> (den > 0 && num <= den),
            r is Ok ==> r->Ok_0 == (Factor { num, den }),
            r is Err ==> r->Err_0 == AccordError::InvalidConfiguration,
    {
        if den > 0 && num <= den {
            Ok(Factor { num, den })
        } else {
            Err(AccordError::InvalidConfiguration)
        }
    }

    /// The threshold is met: `count / total >= self`, compared exactly.
    ///
    /// For `total == 0` every count passes, matching the convention that a
    /// ratio over an empty basis is unbounded.
    pub open spec fn spec_accepts(self, count: int, total: int) -> bool {
        count * self.den >= self.num * total
    }

    /// Decide `count / total >= self` in exact integer arithmetic.
    pub fn accepts(&self, count: u64, total: u64) -> (r: bool)
        requires
            self.wf(),
        ensures
            r == self.spec_accepts(count as int, total as int),
    {
        proof {
            assert((count as int) * (self.den as int) < 0x1_0000_0000_0000_0000_0000_0000_0000_0000int)
                by (nonlinear_arith)
                requires count <= u64::MAX && self.den <= u64::MAX;
            assert((self.num as int) * (total as int) < 0x1_0000_0000_0000_0000_0000_0000_0000_0000int)
                by (nonlinear_arith)
                requires total <= u64::MAX && self.num <= u64::MAX;
        }
        (count as u128) * (self.den as u128) >= (self.num as u128) * (total as u128)
    }
}

/// The acceptance boundary is inclusive: a support ratio exactly equal
/// to the threshold meets it.
pub proof fn lemma_threshold_boundary_inclusive(f: Factor, count: u64, total: u64)
    requires
        f.wf(),
        count * f.den == f.num * total,
    ensures
        f.spec_accepts(count as int, total as int),
{
}

/// The nearest rank for a quantile request: `round(n * f)`, with ties
/// rounded up, computed as `floor((2 * n * num + den) / (2 * den))`.
pub open spec fn spec_rank(n: int, f: Factor) -> int {
    (2 * (n * f.num) + f.den) / (2 * f.den)
}

/// The index of the nearest-rank element in a sorted sequence of length
/// `n`: one below the rank, clamped to the first element.
pub open spec fn spec_quant_index(n: int, f: Factor) -> int {
    if spec_rank(n, f) <= 1 {
        0
    } else {
        spec_rank(n, f) - 1
    }
}

/// Compute the nearest-rank index of a quantile factor over `n` sorted
/// values.
pub fn quant_index(n: usize, f: &Factor) -> (r: usize)
    requires
        f.wf(),
        1 <= n,
        n <= u32::MAX,
    ensures
        r == spec_quant_index(n as int, *f),
        r < n,
{
    proof {
        assert((n as int) * (f.num as int) <= 0xffff_ffffint * 0xffff_ffff_ffff_ffffint)
            by (nonlinear_arith)
            requires n <= 0xffff_ffff && f.num <= 0xffff_ffff_ffff_ffff;
    }
    let prod: u128 = (n as u128) * (f.num as u128);
    let two_n_num: u128 = 2 * prod;
    let denom: u128 = 2 * (f.den as u128);
    let rank: u128 = (two_n_num + (f.den as u128)) / denom;
    proof {
        assert(rank == spec_rank(n as int, *f));
        lemma_rank_at_most_n(n as int, *f);
    }
    if rank <= 1 {
        0
    } else {
        (rank - 1) as usize
    }
}

/// The nearest rank never exceeds the number of values: for `f <= 1`,
/// `round(n * f) <= n`.
proof fn lemma_rank_at_most_n(n: int, f: Factor)
    requires
        f.wf(),
        n >= 1,
    ensures
        0 <= spec_rank(n, f) <= n,
{
    let a = 2 * (n * f.num) + f.den;
    let b = 2 * (n * f.den) + f.den;
    let d = 2 * f.den;
    assert(2 * (n * f.num) + f.den <= 2 * (n * f.den) + f.den) by (nonlinear_arith)
        requires n >= 1 && 0 <= f.num <= f.den;
    assert(0 <= 2 * (n * f.num) + f.den) by (nonlinear_arith)
        requires n >= 1 && 0 <= f.num && f.den > 0;
    vstd::arithmetic::div_mod::lemma_div_is_ordered(a, b, d);
    assert(2 * (n * f.den) + f.den == n * (2 * f.den) + f.den) by (nonlinear_arith);
    assert(b / d == n) by {
        vstd::arithmetic::div_mod::lemma_fundamental_div_mod_converse(b, d, n, f.den as int);
    }
    vstd::arithmetic::div_mod::lemma_div_pos_is_pos(a, d);
}

} // verus!

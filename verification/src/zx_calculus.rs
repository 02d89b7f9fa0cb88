//! ZX-calculus based optimization: spider fusion and the pivot rule.

use vstd::prelude::*;
use crate::rational::{rat_add, rat_add_fits};
use crate::gates::{Angle, AngleModel, Gate, GateModel, circuit_model, circuit_wf, push_gate};

verus! {

/// Two rotation angles fuse when they are the same exact representation
/// (both rational multiples of pi, or both rational radian counts) and
/// their exact sum is representable.
pub open spec fn angles_fusable(a1: Angle, a2: Angle) -> bool {
    match (a1, a2) {
        (Angle::PiTimes(r1), Angle::PiTimes(r2)) => rat_add_fits(r1@, r2@),
        (Angle::Radians(r1), Angle::Radians(r2)) => rat_add_fits(r1@, r2@),
        _ => false,
    }
}

/// The model of the fused angle: the exact sum.
pub open spec fn fused_angle(a1: Angle, a2: Angle) -> AngleModel {
    match (a1, a2) {
        (Angle::PiTimes(r1), Angle::PiTimes(r2)) => AngleModel::PiTimes(rat_add(r1@, r2@)),
        (Angle::Radians(r1), Angle::Radians(r2)) => AngleModel::Radians(rat_add(r1@, r2@)),
        _ => a1@,
    }
}

/// Two adjacent gates fuse when they are rotations of the same kind about
/// the same qubit with fusable angles.
pub open spec fn gates_fusable(g1: Gate, g2: Gate) -> bool {
    match (g1, g2) {
        (Gate::RZ(q1, a1), Gate::RZ(q2, a2)) => q1 == q2 && angles_fusable(a1, a2),
        (Gate::RX(q1, a1), Gate::RX(q2, a2)) => q1 == q2 && angles_fusable(a1, a2),
        _ => false,
    }
}

/// The model of a fused pair's replacement rotation.
pub open spec fn fused_gate(g1: Gate, g2: Gate) -> GateModel {
    match (g1, g2) {
        (Gate::RZ(q1, a1), Gate::RZ(q2, a2)) => GateModel::RZ(q1 as int, fused_angle(a1, a2)),
        (Gate::RX(q1, a1), Gate::RX(q2, a2)) => GateModel::RX(q1 as int, fused_angle(a1, a2)),
        _ => g1@,
    }
}

/// The spider-fused circuit: each adjacent fusable pair collapses into one
/// rotation carrying the exact angle sum; every other gate passes through.
/// A fused rotation is not re-examined against the following gate.
pub open spec fn spider_fused(s: Seq<Gate>) -> Seq<GateModel>
    decreases s.len(),
{
    if s.len() == 0 {
        Seq::<GateModel>::empty()
    } else if s.len() >= 2 && gates_fusable(s[0], s[1]) {
        seq![fused_gate(s[0], s[1])] + spider_fused(s.skip(2))
    } else {
        seq![s[0]@] + spider_fused(s.skip(1))
    }
}

/// Apply spider fusion: adjacent rotations of the same kind about the same
/// qubit merge into one rotation carrying the exact sum of their angles
/// (pairs whose exact sum would not fit a machine fraction are left
/// unfused).
pub fn spider_fusion(circuit: &[Gate]) -> (r: Vec<Gate>)
    requires
        circuit_wf(circuit@),
    ensures
        circuit_model(r@) == spider_fused(circuit@),
        circuit_wf(r@),
{
    let mut result: Vec<Gate> = Vec::new();
    let mut i: usize = 0;
    proof {
        assert(circuit@.skip(0) =~= circuit@);
    }
    while i < circuit.len()
        invariant
            i <= circuit@.len(),
            circuit_wf(circuit@),
            circuit_model(result@) + spider_fused(circuit@.skip(i as int)) == spider_fused(
                circuit@,
            ),
            circuit_wf(result@),
        decreases circuit@.len() - i,
    {
        let ghost tail = circuit@.skip(i as int);
        let ghost r0 = result@;
        proof {
            assert(tail[0] == circuit@[i as int]);
            if i + 1 < circuit@.len() {
                assert(tail[1] == circuit@[i as int + 1]);
            }
            assert(tail.skip(1) =~= circuit@.skip(i as int + 1));
            if tail.len() >= 2 {
                assert(tail.skip(2) =~= circuit@.skip(i as int + 2));
            }
        }
        let mut fused = false;
        if i + 1 < circuit.len() {
            match (&circuit[i], &circuit[i + 1]) {
                (Gate::RZ(q1, a1), Gate::RZ(q2, a2)) => {
                    if *q1 == *q2 {
                        match (a1, a2) {
                            (Angle::PiTimes(r1), Angle::PiTimes(r2)) => {
                                match r1.checked_add(*r2) {
                                    Some(sum) => {
                                        push_gate(&mut result, Gate::RZ(*q1, Angle::PiTimes(sum)));
                                        fused = true;
                                    },
                                    None => {},
                                }
                            },
                            (Angle::Radians(r1), Angle::Radians(r2)) => {
                                match r1.checked_add(*r2) {
                                    Some(sum) => {
                                        push_gate(&mut result, Gate::RZ(*q1, Angle::Radians(sum)));
                                        fused = true;
                                    },
                                    None => {},
                                }
                            },
                            _ => {},
                        }
                    }
                },
                (Gate::RX(q1, a1), Gate::RX(q2, a2)) => {
                    if *q1 == *q2 {
                        match (a1, a2) {
                            (Angle::PiTimes(r1), Angle::PiTimes(r2)) => {
                                match r1.checked_add(*r2) {
                                    Some(sum) => {
                                        push_gate(&mut result, Gate::RX(*q1, Angle::PiTimes(sum)));
                                        fused = true;
                                    },
                                    None => {},
                                }
                            },
                            (Angle::Radians(r1), Angle::Radians(r2)) => {
                                match r1.checked_add(*r2) {
                                    Some(sum) => {
                                        push_gate(&mut result, Gate::RX(*q1, Angle::Radians(sum)));
                                        fused = true;
                                    },
                                    None => {},
                                }
                            },
                            _ => {},
                        }
                    }
                },
                _ => {},
            }
        }
        if fused {
            proof {
                assert(gates_fusable(tail[0], tail[1]));
                assert(circuit_model(result@) =~= circuit_model(r0) + seq![
                    fused_gate(tail[0], tail[1]),
                ]);
                assert((circuit_model(r0) + seq![fused_gate(tail[0], tail[1])]) + spider_fused(
                    circuit@.skip(i as int + 2),
                ) =~= circuit_model(r0) + (seq![fused_gate(tail[0], tail[1])] + spider_fused(
                    circuit@.skip(i as int + 2),
                )));
            }
            i += 2;
        } else {
            let g = crate::gates::dup_gate(&circuit[i]);
            push_gate(&mut result, g);
            proof {
                assert(!(tail.len() >= 2 && gates_fusable(tail[0], tail[1])));
                assert(circuit_model(result@) =~= circuit_model(r0) + seq![tail[0]@]);
                assert((circuit_model(r0) + seq![tail[0]@]) + spider_fused(
                    circuit@.skip(i as int + 1),
                ) =~= circuit_model(r0) + (seq![tail[0]@] + spider_fused(
                    circuit@.skip(i as int + 1),
                )));
            }
            i += 1;
        }
    }
    proof {
        assert(circuit@.skip(circuit@.len() as int) =~= Seq::<Gate>::empty());
        assert(circuit_model(result@) + Seq::<GateModel>::empty() =~= circuit_model(result@));
    }
    result
}

/// Pivot rule of graph-like ZX simplification: identifying a pair of
/// interior hubs and rewiring their neighbourhoods.  The rewriting is not
/// performed on a plain list of gates, so the circuit is returned
/// unchanged.
pub fn apply_pivot_rule(graph: &mut Vec<Gate>)
    ensures
        final(graph)@ == old(graph)@,
{
}

} // verus!

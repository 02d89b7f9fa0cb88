//! Entanglement forging.
//!
//! For a bipartite state with a Schmidt decomposition, forging emits one
//! pair of single-subsystem circuits and a weight per Schmidt term, so each
//! subsystem can be prepared and measured independently and the results
//! recombined classically.

use vstd::prelude::*;
use crate::rational::{Rat, Ratio, rat_mul, rat_mul_fits};
use crate::gates::{Gate, GateModel, circuit_model, circuit_wf, push_gate, append_gates};
use crate::knitting::ratios_wf;

verus! {

/// Entanglement forging configuration: the two subsystems' qubit lists, the
/// Schmidt coefficients of the bipartite decomposition, and the basis
/// bitstrings of each subsystem.  Indices are valid up to the shortest of
/// the three sequences; excess entries in any one of them are inert.
#[derive(Clone, PartialEq, Debug)]
pub struct ForgingConfig {
    pub system_a_qubits: Vec<usize>,
    pub system_b_qubits: Vec<usize>,
    pub schmidt_coefficients: Vec<Ratio>,
    pub bitstrings_a: Vec<usize>,
    pub bitstrings_b: Vec<usize>,
}

/// The number of forging terms: the shortest of the three index sequences.
pub open spec fn forging_term_count(config: ForgingConfig) -> int {
    let ns = config.schmidt_coefficients@.len() as int;
    let na = config.bitstrings_a@.len() as int;
    let nb = config.bitstrings_b@.len() as int;
    if ns <= na && ns <= nb {
        ns
    } else if na <= nb {
        na
    } else {
        nb
    }
}

/// The bit-flip preparation of a basis bitstring: one X gate on the qubit
/// at list index `i` for every set bit `i`, in index order.
pub open spec fn bitflip_ops(qubits: Seq<usize>, bits: int) -> Seq<GateModel>
    decreases qubits.len(),
{
    if qubits.len() == 0 {
        Seq::<GateModel>::empty()
    } else {
        (if bits % 2 == 1 {
            seq![GateModel::X(qubits[0] as int)]
        } else {
            Seq::<GateModel>::empty()
        }) + bitflip_ops(qubits.drop_first(), bits / 2)
    }
}

/// Emit the bit-flip preparation of `bitstring` over `qubits`: an X gate on
/// `qubits[i]` for every set bit `i` of the bitstring, in index order.
pub fn prepare_bitstring(qubits: &[usize], bitstring: usize) -> (r: Vec<Gate>)
    ensures
        circuit_model(r@) == bitflip_ops(qubits@, bitstring as int),
        circuit_wf(r@),
{
    let mut r: Vec<Gate> = Vec::new();
    let mut bits: usize = bitstring;
    let mut i: usize = 0;
    proof {
        assert(qubits@.skip(0) =~= qubits@);
    }
    while i < qubits.len()
        invariant
            i <= qubits@.len(),
            circuit_model(r@) + bitflip_ops(qubits@.skip(i as int), bits as int) == bitflip_ops(
                qubits@,
                bitstring as int,
            ),
            circuit_wf(r@),
        decreases qubits@.len() - i,
    {
        let ghost tail = qubits@.skip(i as int);
        let ghost r0 = r@;
        proof {
            assert(tail[0] == qubits@[i as int]);
            assert(tail.drop_first() =~= qubits@.skip(i as int + 1));
        }
        if bits % 2 == 1 {
            push_gate(&mut r, Gate::X(qubits[i]));
        }
        proof {
            let local: Seq<GateModel> = if bits as int % 2 == 1 {
                seq![GateModel::X(qubits@[i as int] as int)]
            } else {
                Seq::<GateModel>::empty()
            };
            assert(circuit_model(r@) =~= circuit_model(r0) + local);
            assert(bitflip_ops(tail, bits as int) == local + bitflip_ops(
                qubits@.skip(i as int + 1),
                bits as int / 2,
            ));
            assert((circuit_model(r0) + local) + bitflip_ops(
                qubits@.skip(i as int + 1),
                bits as int / 2,
            ) =~= circuit_model(r0) + (local + bitflip_ops(
                qubits@.skip(i as int + 1),
                bits as int / 2,
            )));
        }
        bits = bits / 2;
        i += 1;
    }
    proof {
        assert(qubits@.skip(qubits@.len() as int) =~= Seq::<usize>::empty());
        assert(circuit_model(r@) + Seq::<GateModel>::empty() =~= circuit_model(r@));
    }
    r
}

/// Generate entanglement forging circuits: for each valid Schmidt index `k`
/// a triple of subsystem circuits (basis-state preparation followed by the
/// ansatz for index `k`) and the weight `lambda_k^2`.  Iteration stops
/// silently once the shortest of the three index sequences is exhausted.
pub fn entanglement_forging<FA: Fn(usize) -> Vec<Gate>, FB: Fn(usize) -> Vec<Gate>>(
    ansatz_a: FA,
    ansatz_b: FB,
    config: &ForgingConfig,
) -> (r: Vec<(Vec<Gate>, Vec<Gate>, Ratio)>)
    requires
        ratios_wf(config.schmidt_coefficients@),
        forall|k: int|
            0 <= k < forging_term_count(*config) ==> rat_mul_fits(
                (#[trigger] config.schmidt_coefficients@[k])@,
                config.schmidt_coefficients@[k]@,
            ),
        forall|k: usize| k < forging_term_count(*config) ==> ansatz_a.requires((k,)),
        forall|k: usize| k < forging_term_count(*config) ==> ansatz_b.requires((k,)),
    ensures
        r@.len() == forging_term_count(*config),
        forall|k: int|
            0 <= k < r@.len() ==> (#[trigger] r@[k]).2@ == rat_mul(
                config.schmidt_coefficients@[k]@,
                config.schmidt_coefficients@[k]@,
            ) && r@[k].2.wf(),
        forall|k: usize, va: Vec<Gate>|
            #![trigger ansatz_a.ensures((k,), va)]
            k < r@.len() && ansatz_a.ensures((k,), va) && (forall|v2: Vec<Gate>|
                #[trigger] ansatz_a.ensures((k,), v2) ==> circuit_model(v2@) == circuit_model(
                    va@,
                )) ==> circuit_model(r@[k as int].0@) == bitflip_ops(
                config.system_a_qubits@,
                config.bitstrings_a@[k as int] as int,
            ) + circuit_model(va@),
        forall|k: usize, vb: Vec<Gate>|
            #![trigger ansatz_b.ensures((k,), vb)]
            k < r@.len() && ansatz_b.ensures((k,), vb) && (forall|v2: Vec<Gate>|
                #[trigger] ansatz_b.ensures((k,), v2) ==> circuit_model(v2@) == circuit_model(
                    vb@,
                )) ==> circuit_model(r@[k as int].1@) == bitflip_ops(
                config.system_b_qubits@,
                config.bitstrings_b@[k as int] as int,
            ) + circuit_model(vb@),
{
    let mut n: usize = config.schmidt_coefficients.len();
    if config.bitstrings_a.len() < n {
        n = config.bitstrings_a.len();
    }
    if config.bitstrings_b.len() < n {
        n = config.bitstrings_b.len();
    }
    let mut circuits: Vec<(Vec<Gate>, Vec<Gate>, Ratio)> = Vec::new();
    let ghost mut wits_a: Seq<Vec<Gate>> = Seq::empty();
    let ghost mut wits_b: Seq<Vec<Gate>> = Seq::empty();
    let mut k: usize = 0;
    while k < n
        invariant
            k <= n,
            n as int == forging_term_count(*config),
            n <= config.schmidt_coefficients@.len(),
            n <= config.bitstrings_a@.len(),
            n <= config.bitstrings_b@.len(),
            ratios_wf(config.schmidt_coefficients@),
            forall|t: int|
                0 <= t < n ==> rat_mul_fits(
                    (#[trigger] config.schmidt_coefficients@[t])@,
                    config.schmidt_coefficients@[t]@,
                ),
            forall|t: usize| t < n ==> ansatz_a.requires((t,)),
            forall|t: usize| t < n ==> ansatz_b.requires((t,)),
            circuits@.len() == k,
            wits_a.len() == k,
            wits_b.len() == k,
            forall|t: usize| t < k ==> #[trigger] ansatz_a.ensures((t,), wits_a[t as int]),
            forall|t: usize| t < k ==> #[trigger] ansatz_b.ensures((t,), wits_b[t as int]),
            forall|t: int|
                0 <= t < k ==> {
                    &&& circuit_model((#[trigger] circuits@[t]).0@) == bitflip_ops(
                        config.system_a_qubits@,
                        config.bitstrings_a@[t] as int,
                    ) + circuit_model(wits_a[t]@)
                    &&& circuit_model(circuits@[t].1@) == bitflip_ops(
                        config.system_b_qubits@,
                        config.bitstrings_b@[t] as int,
                    ) + circuit_model(wits_b[t]@)
                    &&& circuits@[t].2@ == rat_mul(
                        config.schmidt_coefficients@[t]@,
                        config.schmidt_coefficients@[t]@,
                    )
                    &&& circuits@[t].2.wf()
                },
        decreases n - k,
    {
        let lambda = config.schmidt_coefficients[k];
        let mut circuit_a = prepare_bitstring(
            config.system_a_qubits.as_slice(),
            config.bitstrings_a[k],
        );
        let ops_a = ansatz_a(k);
        append_gates(&mut circuit_a, ops_a.as_slice());
        let mut circuit_b = prepare_bitstring(
            config.system_b_qubits.as_slice(),
            config.bitstrings_b[k],
        );
        let ops_b = ansatz_b(k);
        append_gates(&mut circuit_b, ops_b.as_slice());
        let weight = match lambda.checked_mul(lambda) {
            Some(w) => w,
            None => {
                proof {
                    assert(false);
                }
                Ratio { num: 1, den: 1 }
            },
        };
        let ghost circuits0 = circuits@;
        let ghost ca = circuit_a@;
        let ghost cb = circuit_b@;
        circuits.push((circuit_a, circuit_b, weight));
        proof {
            let wa0 = wits_a;
            let wb0 = wits_b;
            wits_a = wits_a.push(ops_a);
            wits_b = wits_b.push(ops_b);
            let t = k as int;
            assert(circuits@[t].0@ == ca);
            assert(circuits@[t].1@ == cb);
            assert((t as usize) == k);
            assert(wits_a[t] == ops_a);
            assert(wits_b[t] == ops_b);
            assert(ansatz_a.ensures((k,), wits_a[k as int]));
            assert(ansatz_b.ensures((k,), wits_b[k as int]));
            assert(circuit_model(circuits@[t].0@) == bitflip_ops(
                config.system_a_qubits@,
                config.bitstrings_a@[t] as int,
            ) + circuit_model(wits_a[t]@));
            assert(circuit_model(circuits@[t].1@) == bitflip_ops(
                config.system_b_qubits@,
                config.bitstrings_b@[t] as int,
            ) + circuit_model(wits_b[t]@));
            assert forall|t2: int| 0 <= t2 < t implies #[trigger] circuits@[t2] == circuits0[t2]
                && wits_a[t2] == wa0[t2] && wits_b[t2] == wb0[t2] by {}
        }
        k += 1;
    }
    proof {
        assert forall|t: usize, va: Vec<Gate>|
            #![trigger ansatz_a.ensures((t,), va)]
            t < circuits@.len() && ansatz_a.ensures((t,), va) && (forall|v2: Vec<Gate>|
                #[trigger] ansatz_a.ensures((t,), v2) ==> circuit_model(v2@) == circuit_model(
                    va@,
                )) implies circuit_model(circuits@[t as int].0@) == bitflip_ops(
                config.system_a_qubits@,
                config.bitstrings_a@[t as int] as int,
            ) + circuit_model(va@) by {
            assert(ansatz_a.ensures((t,), wits_a[t as int]));
            assert(circuit_model(wits_a[t as int]@) == circuit_model(va@));
            assert(circuit_model(circuits@[t as int].0@) == bitflip_ops(
                config.system_a_qubits@,
                config.bitstrings_a@[t as int] as int,
            ) + circuit_model(wits_a[t as int]@));
        }
        assert forall|t: usize, vb: Vec<Gate>|
            #![trigger ansatz_b.ensures((t,), vb)]
            t < circuits@.len() && ansatz_b.ensures((t,), vb) && (forall|v2: Vec<Gate>|
                #[trigger] ansatz_b.ensures((t,), v2) ==> circuit_model(v2@) == circuit_model(
                    vb@,
                )) implies circuit_model(circuits@[t as int].1@) == bitflip_ops(
                config.system_b_qubits@,
                config.bitstrings_b@[t as int] as int,
            ) + circuit_model(vb@) by {
            assert(ansatz_b.ensures((t,), wits_b[t as int]));
            assert(circuit_model(wits_b[t as int]@) == circuit_model(vb@));
            assert(circuit_model(circuits@[t as int].1@) == bitflip_ops(
                config.system_b_qubits@,
                config.bitstrings_b@[t as int] as int,
            ) + circuit_model(wits_b[t as int]@));
        }
    }
    circuits
}

} // verus!




//! Quantum low-density parity-check codes: hypergraph product code
//! syndrome extraction.

use vstd::prelude::*;
use crate::gates::{Gate, GateModel, circuit_model, lemma_circuit_model_push};

verus! {

/// The syndrome-extraction gates of the first `j` entries of one parity
/// check: `CX(data[q], syndrome[i])` for each in-range entry `q`.
pub open spec fn check_ops(
    check: Seq<usize>,
    i: int,
    data: Seq<usize>,
    syn: Seq<usize>,
    j: int,
) -> Seq<GateModel>
    decreases j,
{
    if j <= 0 {
        Seq::<GateModel>::empty()
    } else {
        check_ops(check, i, data, syn, j - 1) + (if 0 <= i < syn.len() && check[j - 1]
            < data.len() {
            seq![GateModel::CX(data[check[j - 1] as int] as int, syn[i] as int)]
        } else {
            Seq::<GateModel>::empty()
        })
    }
}

/// The syndrome-extraction gates of the first `i` parity checks.
pub open spec fn syndrome_ops(
    checks: Seq<Vec<usize>>,
    data: Seq<usize>,
    syn: Seq<usize>,
    i: int,
) -> Seq<GateModel>
    decreases i,
{
    if i <= 0 {
        Seq::<GateModel>::empty()
    } else {
        syndrome_ops(checks, data, syn, i - 1) + check_ops(
            checks[i - 1]@,
            i - 1,
            data,
            syn,
            checks[i - 1]@.len() as int,
        )
    }
}

/// Hypergraph product code syndrome extraction: for each parity check `i`
/// and each of its in-range entries `q`, a `CX` from data qubit
/// `data_qubits[q]` onto syndrome qubit `syndrome_qubits[i]`.
pub fn hypergraph_product_code_syndrome(
    h1_parity_checks: &[Vec<usize>],
    _h2_parity_checks: &[Vec<usize>],
    data_qubits: &[usize],
    syndrome_qubits: &[usize],
) -> (r: Vec<Gate>)
    ensures
        circuit_model(r@) == syndrome_ops(
            h1_parity_checks@,
            data_qubits@,
            syndrome_qubits@,
            h1_parity_checks@.len() as int,
        ),
{
    let mut gates: Vec<Gate> = Vec::new();
    let ghost checks = h1_parity_checks@;
    let ghost data = data_qubits@;
    let ghost syn = syndrome_qubits@;
    let mut i: usize = 0;
    proof {
        assert(circuit_model(gates@) =~= syndrome_ops(checks, data, syn, 0));
    }
    while i < h1_parity_checks.len()
        invariant
            i <= checks.len(),
            checks == h1_parity_checks@,
            data == data_qubits@,
            syn == syndrome_qubits@,
            circuit_model(gates@) == syndrome_ops(checks, data, syn, i as int),
        decreases checks.len() - i,
    {
        let check = &h1_parity_checks[i];
        let ghost start = gates@;
        let mut j: usize = 0;
        proof {
            assert(circuit_model(gates@) =~= circuit_model(start) + check_ops(
                check@,
                i as int,
                data,
                syn,
                0,
            ));
        }
        while j < check.len()
            invariant
                j <= check@.len(),
                i < checks.len(),
                check@ == checks[i as int]@,
                data == data_qubits@,
                syn == syndrome_qubits@,
                circuit_model(gates@) == circuit_model(start) + check_ops(
                    check@,
                    i as int,
                    data,
                    syn,
                    j as int,
                ),
            decreases check@.len() - j,
        {
            let q_idx = check[j];
            if i < syndrome_qubits.len() && q_idx < data_qubits.len() {
                let ghost before = gates@;
                gates.push(Gate::CX(data_qubits[q_idx], syndrome_qubits[i]));
                proof {
                    lemma_circuit_model_push(
                        before,
                        Gate::CX(data_qubits@[q_idx as int], syndrome_qubits@[i as int]),
                    );
                    assert((circuit_model(start) + check_ops(
                        check@,
                        i as int,
                        data,
                        syn,
                        j as int,
                    )).push(GateModel::CX(data[q_idx as int] as int, syn[i as int] as int))
                        =~= circuit_model(start) + (check_ops(
                        check@,
                        i as int,
                        data,
                        syn,
                        j as int,
                    ) + seq![GateModel::CX(data[q_idx as int] as int, syn[i as int] as int)]));
                }
            } else {
                proof {
                    assert(check_ops(check@, i as int, data, syn, j as int + 1) =~= check_ops(
                        check@,
                        i as int,
                        data,
                        syn,
                        j as int,
                    ));
                }
            }
            j += 1;
        }
        proof {
            assert((syndrome_ops(checks, data, syn, i as int) + check_ops(
                check@,
                i as int,
                data,
                syn,
                check@.len() as int,
            )) =~= syndrome_ops(checks, data, syn, i as int + 1));
        }
        i += 1;
    }
    gates
}

} // verus!

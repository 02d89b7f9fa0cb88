//! Lattice surgery operations for fault-tolerant computing: merge (MZZ) and
//! split operations over patch boundary qubits.

use vstd::prelude::*;
use crate::gates::{Gate, GateModel};

verus! {

/// Lattice surgery merge-Z: entangle the boundary qubits of both patches
/// with the ancilla qubits, pairing each patch list with the ancilla list
/// up to the shorter length.
pub fn lattice_surgery_merge_z(
    patch1_qubits: &[usize],
    patch2_qubits: &[usize],
    ancilla_qubits: &[usize],
) -> (r: Vec<Gate>)
    ensures
        ({
            let m1 = if patch1_qubits@.len() <= ancilla_qubits@.len() {
                patch1_qubits@.len() as int
            } else {
                ancilla_qubits@.len() as int
            };
            let m2 = if patch2_qubits@.len() <= ancilla_qubits@.len() {
                patch2_qubits@.len() as int
            } else {
                ancilla_qubits@.len() as int
            };
            &&& r@.len() == m1 + m2
            &&& forall|i: int|
                0 <= i < m1 ==> r@[i]@ == GateModel::CX(
                    patch1_qubits@[i] as int,
                    ancilla_qubits@[i] as int,
                )
            &&& forall|i: int|
                m1 <= i < m1 + m2 ==> r@[i]@ == GateModel::CX(
                    patch2_qubits@[i - m1] as int,
                    ancilla_qubits@[i - m1] as int,
                )
        }),
{
    let mut gates: Vec<Gate> = Vec::new();
    let m1: usize = if patch1_qubits.len() <= ancilla_qubits.len() {
        patch1_qubits.len()
    } else {
        ancilla_qubits.len()
    };
    let m2: usize = if patch2_qubits.len() <= ancilla_qubits.len() {
        patch2_qubits.len()
    } else {
        ancilla_qubits.len()
    };
    let mut i: usize = 0;
    while i < m1
        invariant
            i <= m1,
            m1 <= patch1_qubits@.len(),
            m1 <= ancilla_qubits@.len(),
            gates@.len() == i,
            forall|j: int|
                0 <= j < i ==> gates@[j]@ == GateModel::CX(
                    patch1_qubits@[j] as int,
                    ancilla_qubits@[j] as int,
                ),
        decreases m1 - i,
    {
        gates.push(Gate::CX(patch1_qubits[i], ancilla_qubits[i]));
        i += 1;
    }
    let mut j: usize = 0;
    while j < m2
        invariant
            j <= m2,
            m2 <= patch2_qubits@.len(),
            m2 <= ancilla_qubits@.len(),
            gates@.len() == m1 + j,
            forall|t: int|
                0 <= t < m1 ==> gates@[t]@ == GateModel::CX(
                    patch1_qubits@[t] as int,
                    ancilla_qubits@[t] as int,
                ),
            forall|t: int|
                m1 <= t < m1 + j ==> gates@[t]@ == GateModel::CX(
                    patch2_qubits@[t - m1] as int,
                    ancilla_qubits@[t - m1] as int,
                ),
        decreases m2 - j,
    {
        gates.push(Gate::CX(patch2_qubits[j], ancilla_qubits[j]));
        j += 1;
    }
    gates
}

/// Lattice surgery split-Z: a Hadamard on each boundary qubit ahead of the
/// separating measurement.
pub fn lattice_surgery_split_z(patch_qubits: &[usize]) -> (r: Vec<Gate>)
    ensures
        r@.len() == patch_qubits@.len(),
        forall|i: int|
            0 <= i < r@.len() ==> r@[i]@ == GateModel::H(patch_qubits@[i] as int),
{
    let mut gates: Vec<Gate> = Vec::new();
    let mut i: usize = 0;
    while i < patch_qubits.len()
        invariant
            i <= patch_qubits@.len(),
            gates@.len() == i,
            forall|j: int|
                0 <= j < i ==> gates@[j]@ == GateModel::H(patch_qubits@[j] as int),
        decreases patch_qubits@.len() - i,
    {
        gates.push(Gate::H(patch_qubits[i]));
        i += 1;
    }
    gates
}

} // verus!

//! Linear-systems algorithms: the HHL circuit and a QSVT step.

use vstd::prelude::*;
use crate::rational::{Rat, Ratio, ipow, lemma_ipow_positive, lemma_ipow_increases};
use crate::gates::{
    Angle, AngleModel, Gate, GateModel, circuit_model, circuit_wf, gate_wf, gate_inverse,
    append_gates, push_gate,
};

verus! {

/// The controlled version of one gate: Pauli gates gain a control, a
/// z-rotation becomes a controlled z-rotation, a Hadamard becomes a
/// controlled y-rotation by half pi followed by a controlled Z, and any
/// other gate passes through uncontrolled (a documented fallback).
pub open spec fn controlled_ops(c: int, g: GateModel) -> Seq<GateModel> {
    match g {
        GateModel::X(t) => seq![GateModel::CX(c, t)],
        GateModel::Y(t) => seq![GateModel::CY(c, t)],
        GateModel::Z(t) => seq![GateModel::CZ(c, t)],
        GateModel::RZ(t, a) => seq![GateModel::CRZ(c, t, a)],
        GateModel::H(t) => seq![
            GateModel::CRY(c, t, AngleModel::PiTimes(Rat { num: 1, den: 2 })),
            GateModel::CZ(c, t),
        ],
        _ => seq![g],
    }
}

/// Lift one gate to its controlled version.
pub fn make_controlled(control: usize, gate: &Gate) -> (r: Vec<Gate>)
    requires
        gate_wf(*gate),
    ensures
        circuit_model(r@) == controlled_ops(control as int, gate@),
        circuit_wf(r@),
{
    let mut r: Vec<Gate> = Vec::new();
    match gate {
        Gate::X(t) => push_gate(&mut r, Gate::CX(control, *t)),
        Gate::Y(t) => push_gate(&mut r, Gate::CY(control, *t)),
        Gate::Z(t) => push_gate(&mut r, Gate::CZ(control, *t)),
        Gate::RZ(t, a) => push_gate(&mut r, Gate::CRZ(control, *t, *a)),
        Gate::H(t) => {
            push_gate(&mut r, Gate::CRY(control, *t, Angle::PiTimes(Ratio { num: 1, den: 2 })));
            push_gate(&mut r, Gate::CZ(control, *t));
        },
        _ => push_gate(&mut r, crate::gates::dup_gate(gate)),
    }
    proof {
        assert(circuit_model(r@) =~= controlled_ops(control as int, gate@));
    }
    r
}

/// The controlled version of the first `j` gates of a circuit.
pub open spec fn controlled_circuit(c: int, evo: Seq<GateModel>, j: int) -> Seq<GateModel>
    decreases j,
{
    if j <= 0 {
        Seq::<GateModel>::empty()
    } else {
        controlled_circuit(c, evo, j - 1) + controlled_ops(c, evo[j - 1])
    }
}

/// `n` repetitions of the controlled circuit.
pub open spec fn controlled_reps(c: int, evo: Seq<GateModel>, n: int) -> Seq<GateModel>
    decreases n,
{
    if n <= 0 {
        Seq::<GateModel>::empty()
    } else {
        controlled_reps(c, evo, n - 1) + controlled_circuit(c, evo, evo.len() as int)
    }
}

/// A Hadamard on each of the first `i` register qubits.
pub open spec fn hadamard_layer(qubits: Seq<usize>, i: int) -> Seq<GateModel>
    decreases i,
{
    if i <= 0 {
        Seq::<GateModel>::empty()
    } else {
        hadamard_layer(qubits, i - 1).push(GateModel::H(qubits[i - 1] as int))
    }
}

/// The controlled evolutions of the first `i` clock qubits: clock qubit
/// `t` controls `2^t` repetitions of the evolution circuit.
pub open spec fn evolution_phase(clock: Seq<usize>, evo: Seq<GateModel>, i: int) -> Seq<GateModel>
    decreases i,
{
    if i <= 0 {
        Seq::<GateModel>::empty()
    } else {
        evolution_phase(clock, evo, i - 1) + controlled_reps(
            clock[i - 1] as int,
            evo,
            ipow(2, (i - 1) as nat),
        )
    }
}

/// The eigenvalue-inversion rotations of the first `i` clock qubits: clock
/// qubit `t` drives a controlled y-rotation of the ancilla by the exact
/// angle `2 asin(2^-t)`.
pub open spec fn inversion_rotations(clock: Seq<usize>, ancilla: int, i: int) -> Seq<GateModel>
    decreases i,
{
    if i <= 0 {
        Seq::<GateModel>::empty()
    } else {
        inversion_rotations(clock, ancilla, i - 1).push(
            GateModel::CRY(
                clock[i - 1] as int,
                ancilla,
                AngleModel::DoubleAsinHalfPow { k: (i - 1) as nat, neg: false },
            ),
        )
    }
}

/// The uncomputation of the first `i` reverse-order clock qubits: clock
/// qubit `len - 1 - t` controls `2^(len - 1 - t)` repetitions of the
/// inverse evolution.
pub open spec fn uncompute_phase(clock: Seq<usize>, evo: Seq<GateModel>, i: int) -> Seq<GateModel>
    decreases i,
{
    if i <= 0 {
        Seq::<GateModel>::empty()
    } else {
        let t = clock.len() - i;
        uncompute_phase(clock, evo, i - 1) + controlled_reps(
            clock[t] as int,
            inverse_circuit(evo),
            ipow(2, t as nat),
        )
    }
}

/// The per-gate inverse of a circuit (order preserved, as in the
/// uncomputation pass, which inverts each gate in place).
pub open spec fn inverse_circuit(evo: Seq<GateModel>) -> Seq<GateModel> {
    Seq::new(evo.len(), |i: int| gate_inverse(evo[i]))
}

/// Emit the controlled version of every gate of `evo`.
fn emit_controlled_circuit(gates: &mut Vec<Gate>, c: usize, evo: &[Gate], inverted: bool)
    requires
        circuit_wf(evo@),
    ensures
        circuit_model(final(gates)@) == circuit_model(old(gates)@) + controlled_circuit(
            c as int,
            if inverted {
                inverse_circuit(circuit_model(evo@))
            } else {
                circuit_model(evo@)
            },
            evo@.len() as int,
        ),
        circuit_wf(old(gates)@) ==> circuit_wf(final(gates)@),
{
    let ghost start = gates@;
    let ghost target = if inverted {
        inverse_circuit(circuit_model(evo@))
    } else {
        circuit_model(evo@)
    };
    let mut j: usize = 0;
    proof {
        assert(circuit_model(gates@) =~= circuit_model(start) + controlled_circuit(
            c as int,
            target,
            0,
        ));
        assert(target.len() == evo@.len());
    }
    while j < evo.len()
        invariant
            j <= evo@.len(),
            circuit_wf(evo@),
            target == (if inverted {
                inverse_circuit(circuit_model(evo@))
            } else {
                circuit_model(evo@)
            }),
            target.len() == evo@.len(),
            circuit_model(gates@) == circuit_model(start) + controlled_circuit(
                c as int,
                target,
                j as int,
            ),
            circuit_wf(start) ==> circuit_wf(gates@),
        decreases evo@.len() - j,
    {
        let g = if inverted {
            evo[j].inverse()
        } else {
            crate::gates::dup_gate(&evo[j])
        };
        proof {
            assert(g@ == target[j as int]);
        }
        let mc = make_controlled(c, &g);
        append_gates(gates, mc.as_slice());
        proof {
            assert((circuit_model(start) + controlled_circuit(c as int, target, j as int))
                + controlled_ops(c as int, target[j as int]) =~= circuit_model(start) + (
            controlled_circuit(c as int, target, j as int) + controlled_ops(
                c as int,
                target[j as int],
            )));
        }
        j += 1;
    }
}

/// Emit `n` repetitions of the controlled circuit.
fn emit_controlled_reps(gates: &mut Vec<Gate>, c: usize, evo: &[Gate], inverted: bool, n: usize)
    requires
        circuit_wf(evo@),
    ensures
        circuit_model(final(gates)@) == circuit_model(old(gates)@) + controlled_reps(
            c as int,
            if inverted {
                inverse_circuit(circuit_model(evo@))
            } else {
                circuit_model(evo@)
            },
            n as int,
        ),
        circuit_wf(old(gates)@) ==> circuit_wf(final(gates)@),
{
    let ghost start = gates@;
    let ghost target = if inverted {
        inverse_circuit(circuit_model(evo@))
    } else {
        circuit_model(evo@)
    };
    let mut rep: usize = 0;
    proof {
        assert(circuit_model(gates@) =~= circuit_model(start) + controlled_reps(
            c as int,
            target,
            0,
        ));
        assert(target.len() == evo@.len());
    }
    while rep < n
        invariant
            rep <= n,
            circuit_wf(evo@),
            target == (if inverted {
                inverse_circuit(circuit_model(evo@))
            } else {
                circuit_model(evo@)
            }),
            target.len() == evo@.len(),
            circuit_model(gates@) == circuit_model(start) + controlled_reps(
                c as int,
                target,
                rep as int,
            ),
            circuit_wf(start) ==> circuit_wf(gates@),
        decreases n - rep,
    {
        emit_controlled_circuit(gates, c, evo, inverted);
        proof {
            assert((circuit_model(start) + controlled_reps(c as int, target, rep as int))
                + controlled_circuit(c as int, target, target.len() as int) =~= circuit_model(
                start,
            ) + controlled_reps(c as int, target, rep as int + 1));
        }
        rep += 1;
    }
}

/// The HHL circuit for `A x = b`: quantum phase estimation of the matrix
/// evolution on the clock register, eigenvalue-inversion rotations of the
/// ancilla, and uncomputation of the phase estimation.  The Fourier
/// transform over the clock register is supplied by the caller's
/// phase-estimation generator and is inserted unchanged at both points the
/// algorithm uses it (forward, and forward again as the inverse of the
/// inverse).
pub fn hhl_circuit(
    matrix_evolution: Vec<Gate>,
    clock_qubits: &[usize],
    _target_qubits: &[usize],
    ancilla_qubit: usize,
    qft_circuit: &[Gate],
) -> (r: Vec<Gate>)
    requires
        circuit_wf(matrix_evolution@),
        clock_qubits@.len() <= 30,
    ensures
        circuit_model(r@) == hadamard_layer(clock_qubits@, clock_qubits@.len() as int)
            + evolution_phase(
            clock_qubits@,
            circuit_model(matrix_evolution@),
            clock_qubits@.len() as int,
        ) + circuit_model(qft_circuit@) + inversion_rotations(
            clock_qubits@,
            ancilla_qubit as int,
            clock_qubits@.len() as int,
        ) + circuit_model(qft_circuit@) + uncompute_phase(
            clock_qubits@,
            circuit_model(matrix_evolution@),
            clock_qubits@.len() as int,
        ) + hadamard_layer(clock_qubits@, clock_qubits@.len() as int),
{
    let mut gates: Vec<Gate> = Vec::new();
    let ghost clock = clock_qubits@;
    let ghost evo = circuit_model(matrix_evolution@);
    let n = clock_qubits.len();

    // 1. Hadamards on the clock register.
    let mut i: usize = 0;
    proof {
        assert(circuit_model(gates@) =~= hadamard_layer(clock, 0));
    }
    while i < n
        invariant
            i <= n,
            n == clock.len(),
            clock == clock_qubits@,
            circuit_model(gates@) == hadamard_layer(clock, i as int),
        decreases n - i,
    {
        push_gate(&mut gates, Gate::H(clock_qubits[i]));
        i += 1;
    }
    let ghost p1 = hadamard_layer(clock, n as int);

    // 2. Controlled evolutions: clock qubit i controls 2^i repetitions.
    let mut power: usize = 1;
    let mut c: usize = 0;
    proof {
        assert(circuit_model(gates@) =~= p1 + evolution_phase(clock, evo, 0));
        lemma_ipow_value_2_30();
    }
    while c < n
        invariant
            c <= n <= 30,
            n == clock.len(),
            clock == clock_qubits@,
            evo == circuit_model(matrix_evolution@),
            circuit_wf(matrix_evolution@),
            power as int == ipow(2, c as nat),
            circuit_model(gates@) == p1 + evolution_phase(clock, evo, c as int),
        decreases n - c,
    {
        proof {
            lemma_ipow_value_2_30();
            lemma_ipow_increases(2, (c + 1) as nat, 30);
            lemma_ipow_positive(2, c as nat);
            assert(ipow(2, (c + 1) as nat) == 2 * ipow(2, c as nat));
        }
        emit_controlled_reps(&mut gates, clock_qubits[c], matrix_evolution.as_slice(), false, power);
        proof {
            assert((p1 + evolution_phase(clock, evo, c as int)) + controlled_reps(
                clock[c as int] as int,
                evo,
                ipow(2, c as nat),
            ) =~= p1 + evolution_phase(clock, evo, c as int + 1));
        }
        power = power * 2;
        c += 1;
    }
    let ghost p2 = evolution_phase(clock, evo, n as int);

    // 3. Fourier transform over the clock register.
    append_gates(&mut gates, qft_circuit);
    let ghost p3 = circuit_model(qft_circuit@);
    proof {
        assert(circuit_model(gates@) =~= (p1 + p2) + p3);
    }

    // 4. Eigenvalue-inversion rotations of the ancilla.
    let mut v: usize = 0;
    proof {
        assert(circuit_model(gates@) =~= ((p1 + p2) + p3) + inversion_rotations(
            clock,
            ancilla_qubit as int,
            0,
        ));
    }
    while v < n
        invariant
            v <= n <= 30,
            n == clock.len(),
            clock == clock_qubits@,
            circuit_model(gates@) == ((p1 + p2) + p3) + inversion_rotations(
                clock,
                ancilla_qubit as int,
                v as int,
            ),
        decreases n - v,
    {
        push_gate(
            &mut gates,
            Gate::CRY(
                clock_qubits[v],
                ancilla_qubit,
                Angle::DoubleAsinHalfPow { k: v as u32, neg: false },
            ),
        );
        proof {
            assert((((p1 + p2) + p3) + inversion_rotations(clock, ancilla_qubit as int, v as int))
                .push(
                GateModel::CRY(
                    clock[v as int] as int,
                    ancilla_qubit as int,
                    AngleModel::DoubleAsinHalfPow { k: v as nat, neg: false },
                ),
            ) =~= ((p1 + p2) + p3) + inversion_rotations(
                clock,
                ancilla_qubit as int,
                v as int + 1,
            ));
        }
        v += 1;
    }
    let ghost p4 = inversion_rotations(clock, ancilla_qubit as int, n as int);

    // 5. Forward transform again, as the inverse of the inverse.
    append_gates(&mut gates, qft_circuit);
    proof {
        assert(circuit_model(gates@) =~= ((((p1 + p2) + p3) + p4) + p3));
    }

    // 6. Uncompute the phase estimation with the inverse evolution.
    let mut u: usize = 0;
    let mut upower: usize = if n == 0 {
        1
    } else {
        let mut pw: usize = 1;
        let mut e: usize = 0;
        proof {
            lemma_ipow_value_2_30();
        }
        while e < n - 1
            invariant
                e <= n - 1,
                n <= 30,
                pw as int == ipow(2, e as nat),
            decreases n - 1 - e,
        {
            proof {
                lemma_ipow_value_2_30();
                lemma_ipow_increases(2, (e + 1) as nat, 30);
                lemma_ipow_positive(2, e as nat);
                assert(ipow(2, (e + 1) as nat) == 2 * ipow(2, e as nat));
            }
            pw = pw * 2;
            e += 1;
        }
        pw
    };
    proof {
        assert(circuit_model(gates@) =~= (((((p1 + p2) + p3) + p4) + p3)) + uncompute_phase(
            clock,
            evo,
            0,
        ));
        if n > 0 {
            assert(upower as int == ipow(2, (n - 1) as nat));
        }
    }
    while u < n
        invariant
            u <= n <= 30,
            n == clock.len(),
            clock == clock_qubits@,
            evo == circuit_model(matrix_evolution@),
            circuit_wf(matrix_evolution@),
            upower as int == ipow(2, (n - 1 - u) as nat) || (u == n),
            circuit_model(gates@) == (((((p1 + p2) + p3) + p4) + p3)) + uncompute_phase(
                clock,
                evo,
                u as int,
            ),
        decreases n - u,
    {
        let t = n - 1 - u;
        emit_controlled_reps(&mut gates, clock_qubits[t], matrix_evolution.as_slice(), true, upower);
        proof {
            assert(clock.len() - (u as int + 1) == t as int);
            assert(((((((p1 + p2) + p3) + p4) + p3)) + uncompute_phase(clock, evo, u as int))
                + controlled_reps(clock[t as int] as int, inverse_circuit(evo), ipow(2, t as nat))
                =~= (((((p1 + p2) + p3) + p4) + p3)) + uncompute_phase(clock, evo, u as int + 1));
        }
        if t > 0 {
            proof {
                assert(ipow(2, t as nat) == 2 * ipow(2, (t - 1) as nat));
                lemma_ipow_positive(2, (t - 1) as nat);
            }
            upower = upower / 2;
        }
        u += 1;
    }
    let ghost p6 = uncompute_phase(clock, evo, n as int);

    // 7. Closing Hadamards on the clock register.
    let mut h: usize = 0;
    let ghost head = ((((p1 + p2) + p3) + p4) + p3) + p6;
    proof {
        assert(circuit_model(gates@) =~= head + hadamard_layer(clock, 0));
    }
    while h < n
        invariant
            h <= n,
            n == clock.len(),
            clock == clock_qubits@,
            circuit_model(gates@) == head + hadamard_layer(clock, h as int),
        decreases n - h,
    {
        push_gate(&mut gates, Gate::H(clock_qubits[h]));
        proof {
            assert((head + hadamard_layer(clock, h as int)).push(
                GateModel::H(clock[h as int] as int),
            ) =~= head + hadamard_layer(clock, h as int + 1));
        }
        h += 1;
    }
    proof {
        assert(circuit_model(gates@) =~= p1 + p2 + p3 + p4 + p3 + p6 + hadamard_layer(
            clock,
            n as int,
        ));
    }
    gates
}

/// `2^30` as a number, bounding the repetition counters.
proof fn lemma_ipow_value_2_30()
    ensures
        ipow(2, 30) == 0x4000_0000,
{
    reveal_with_fuel(ipow, 31);
}

/// A QSVT step on a block-encoded matrix: the projector-controlled phase
/// operation followed by the block encoding.
pub fn qsvt_step(block_encoding: &[Gate], projector_zero: &[Gate], _phase: Ratio) -> (r: Vec<
    Gate,
>)
    ensures
        circuit_model(r@) == circuit_model(projector_zero@) + circuit_model(block_encoding@),
{
    let mut gates: Vec<Gate> = Vec::new();
    append_gates(&mut gates, projector_zero);
    append_gates(&mut gates, block_encoding);
    proof {
        assert(circuit_model(gates@) =~= circuit_model(projector_zero@) + circuit_model(
            block_encoding@,
        ));
    }
    gates
}

} // verus!

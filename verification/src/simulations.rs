//! Quantum simulation: Trotter-Suzuki decompositions and linear
//! combination of unitaries.

use vstd::prelude::*;
use crate::rational::Ratio;
use crate::gates::{
    Gate, GateModel, circuit_model, circuit_wf, gate_inverse, append_gates, push_gate,
};

verus! {

/// The models of the first `i` Hamiltonian term evolutions, concatenated.
pub open spec fn terms_concat(terms: Seq<Vec<Gate>>, i: int) -> Seq<GateModel>
    decreases i,
{
    if i <= 0 {
        Seq::<GateModel>::empty()
    } else {
        terms_concat(terms, i - 1) + circuit_model(terms[i - 1]@)
    }
}

/// `n` repetitions of one Trotter step.
pub open spec fn repeated_steps(step: Seq<GateModel>, n: int) -> Seq<GateModel>
    decreases n,
{
    if n <= 0 {
        Seq::<GateModel>::empty()
    } else {
        repeated_steps(step, n - 1) + step
    }
}

/// First-order Trotter-Suzuki decomposition: `steps` repetitions of all
/// per-term evolution circuits in order (each term is assumed already
/// scaled to the step duration).
pub fn trotter_first_order(hamiltonian_terms: &[Vec<Gate>], _time: Ratio, steps: usize) -> (r:
    Vec<Gate>)
    ensures
        circuit_model(r@) == repeated_steps(
            terms_concat(hamiltonian_terms@, hamiltonian_terms@.len() as int),
            steps as int,
        ),
{
    let mut gates: Vec<Gate> = Vec::new();
    let ghost step = terms_concat(hamiltonian_terms@, hamiltonian_terms@.len() as int);
    let mut s: usize = 0;
    proof {
        assert(circuit_model(gates@) =~= repeated_steps(step, 0));
    }
    while s < steps
        invariant
            s <= steps,
            step == terms_concat(hamiltonian_terms@, hamiltonian_terms@.len() as int),
            circuit_model(gates@) == repeated_steps(step, s as int),
        decreases steps - s,
    {
        let ghost start = gates@;
        let mut t: usize = 0;
        proof {
            assert(circuit_model(gates@) =~= circuit_model(start) + terms_concat(
                hamiltonian_terms@,
                0,
            ));
        }
        while t < hamiltonian_terms.len()
            invariant
                t <= hamiltonian_terms@.len(),
                circuit_model(gates@) == circuit_model(start) + terms_concat(
                    hamiltonian_terms@,
                    t as int,
                ),
            decreases hamiltonian_terms@.len() - t,
        {
            append_gates(&mut gates, hamiltonian_terms[t].as_slice());
            proof {
                assert((circuit_model(start) + terms_concat(hamiltonian_terms@, t as int))
                    + circuit_model(hamiltonian_terms@[t as int]@) =~= circuit_model(start) + (
                terms_concat(hamiltonian_terms@, t as int) + circuit_model(
                    hamiltonian_terms@[t as int]@,
                )));
            }
            t += 1;
        }
        proof {
            assert((repeated_steps(step, s as int) + step) =~= repeated_steps(step, s as int + 1));
        }
        s += 1;
    }
    gates
}

/// Second-order Trotter-Suzuki decomposition: `steps` repetitions of the
/// symmetric pattern `h1 h2 h1` (the inputs are assumed pre-scaled to the
/// half and full step durations).
pub fn trotter_second_order(
    h1_evolution: &[Gate],
    h2_evolution: &[Gate],
    _time: Ratio,
    steps: usize,
) -> (r: Vec<Gate>)
    ensures
        circuit_model(r@) == repeated_steps(
            circuit_model(h1_evolution@) + circuit_model(h2_evolution@) + circuit_model(
                h1_evolution@,
            ),
            steps as int,
        ),
{
    let mut gates: Vec<Gate> = Vec::new();
    let ghost step = circuit_model(h1_evolution@) + circuit_model(h2_evolution@) + circuit_model(
        h1_evolution@,
    );
    let mut s: usize = 0;
    proof {
        assert(circuit_model(gates@) =~= repeated_steps(step, 0));
    }
    while s < steps
        invariant
            s <= steps,
            step == circuit_model(h1_evolution@) + circuit_model(h2_evolution@) + circuit_model(
                h1_evolution@,
            ),
            circuit_model(gates@) == repeated_steps(step, s as int),
        decreases steps - s,
    {
        append_gates(&mut gates, h1_evolution);
        append_gates(&mut gates, h2_evolution);
        append_gates(&mut gates, h1_evolution);
        proof {
            assert(circuit_model(gates@) =~= repeated_steps(step, s as int + 1));
        }
        s += 1;
    }
    gates
}

/// The reversed, inverted prefix of a circuit: the first `j` gates of the
/// inverse circuit, which walk the original from its end.
pub open spec fn inverse_reversed(p: Seq<Gate>, j: int) -> Seq<GateModel>
    decreases j,
{
    if j <= 0 {
        Seq::<GateModel>::empty()
    } else {
        inverse_reversed(p, j - 1).push(gate_inverse(p[p.len() - j]@))
    }
}

/// One LCU simulation step: PREPARE, SELECT, then the inverse PREPARE.
pub open spec fn lcu_step(prepare: Seq<Gate>, select: Seq<Gate>) -> Seq<GateModel> {
    circuit_model(prepare) + circuit_model(select) + inverse_reversed(
        prepare,
        prepare.len() as int,
    )
}

/// Linear combination of unitaries: `steps` repetitions of
/// PREPARE, SELECT, inverse-PREPARE.
pub fn lcu_simulation(prepare: &[Gate], select: &[Gate], steps: usize) -> (r: Vec<Gate>)
    requires
        circuit_wf(prepare@),
    ensures
        circuit_model(r@) == repeated_steps(lcu_step(prepare@, select@), steps as int),
{
    let mut gates: Vec<Gate> = Vec::new();
    let ghost step = lcu_step(prepare@, select@);
    let mut s: usize = 0;
    proof {
        assert(circuit_model(gates@) =~= repeated_steps(step, 0));
    }
    while s < steps
        invariant
            s <= steps,
            circuit_wf(prepare@),
            step == lcu_step(prepare@, select@),
            circuit_model(gates@) == repeated_steps(step, s as int),
        decreases steps - s,
    {
        append_gates(&mut gates, prepare);
        append_gates(&mut gates, select);
        let ghost start = gates@;
        let mut j: usize = 0;
        proof {
            assert(circuit_model(gates@) =~= circuit_model(start) + inverse_reversed(prepare@, 0));
        }
        while j < prepare.len()
            invariant
                j <= prepare@.len(),
                circuit_wf(prepare@),
                circuit_model(gates@) == circuit_model(start) + inverse_reversed(
                    prepare@,
                    j as int,
                ),
            decreases prepare@.len() - j,
        {
            let idx = prepare.len() - 1 - j;
            let g = prepare[idx].inverse();
            push_gate(&mut gates, g);
            proof {
                assert((circuit_model(start) + inverse_reversed(prepare@, j as int)).push(
                    gate_inverse(prepare@[prepare@.len() - (j as int + 1)]@),
                ) =~= circuit_model(start) + inverse_reversed(prepare@, j as int + 1));
            }
            j += 1;
        }
        proof {
            assert(circuit_model(gates@) =~= repeated_steps(step, s as int + 1));
        }
        s += 1;
    }
    gates
}

} // verus!

//! Circuit cutting and distribution.
//!
//! Techniques for executing large circuits on smaller devices:
//! - wire cutting (quasi-probability decomposition of the identity channel),
//! - gate cutting (decomposition of two-qubit gates into weighted
//!   single-qubit tensor terms),
//! - entanglement forging, and
//! - knitting of fragment expectations plus sampling-overhead estimates.
//!
//! All coefficients are exact rationals, so the numeric invariants of the
//! decompositions (4^k configurations, coefficient magnitude sums of 2^k,
//! fixed per-gate weight tables) are proved rather than sampled.

use vstd::prelude::*;
use crate::rational::{
    Rat, Ratio, rat_int, rat_abs, rat_eq, rat_sum_abs, lemma_sum_abs_constant, ipow,
    lemma_ipow_positive, lemma_ipow_increases, lemma_ipow4_is_square_of_ipow2,
};
use crate::gates::{
    Gate, GateModel, circuit_model, circuit_wf, gate_qubits, dup_gate, append_gates,
    append_gates_range, push_gate,
};

verus! {

/// Cut location in a circuit: the cut severs `qubit` immediately after the
/// gate at index `position - 1`.
#[derive(Clone, Copy, PartialEq, Eq, Structural, Debug)]
pub struct WireCut {
    pub position: usize,
    pub qubit: usize,
}

/// The kind of a cut, recorded for downstream reconstruction.
#[derive(Clone, Copy, PartialEq, Eq, Structural, Debug)]
pub enum CutType {
    WireCut,
    GateCut,
}

/// Provenance of one cut inside a [`CutCircuit`].
#[derive(Clone, Copy, PartialEq, Eq, Structural, Debug)]
pub struct CutInfo {
    pub subcircuit_index: usize,
    pub qubit_in_subcircuit: usize,
    pub cut_type: CutType,
}

/// Result of cutting a circuit: fragment circuits, per-cut provenance, and
/// the aggregate sampling overhead of the chosen cut set.
#[derive(Clone, PartialEq, Debug)]
pub struct CutCircuit {
    pub subcircuits: Vec<Vec<Gate>>,
    pub cut_info: Vec<CutInfo>,
    pub reconstruction_overhead: u64,
}

/// Failure conditions of the cutting and knitting entry points.
#[derive(Clone, Copy, PartialEq, Eq, Structural, Debug)]
pub enum CutError {
    /// `knit_results` inputs of unequal length.
    DimensionMismatch,
    /// A wire cut whose position exceeds the circuit length or whose qubit
    /// is not touched by the circuit before the cut.
    InvalidCut,
    /// An exact coefficient no longer fits in a machine fraction.
    ArithmeticOverflow,
}

// ============================================================================
// WIRE CUTTING
// ============================================================================

/// Preparation operations of one cut's local quasi-probability term:
/// `d = 0` prepares `|0>` (nothing), `d = 1` prepares `|1>` (a bit flip),
/// `d = 2` prepares `|+>` (a Hadamard), `d = 3` prepares the `+i` eigenstate
/// of Y (Hadamard then phase gate).
pub open spec fn local_pre_ops(d: int, q: int) -> Seq<GateModel> {
    if d == 1 {
        seq![GateModel::X(q)]
    } else if d == 2 {
        seq![GateModel::H(q)]
    } else if d == 3 {
        seq![GateModel::H(q), GateModel::S(q)]
    } else {
        Seq::<GateModel>::empty()
    }
}

/// Measurement-basis-change operations of one cut's local term: `d = 0, 1`
/// measure Z (nothing), `d = 2` measures X (a Hadamard), `d = 3` measures Y
/// (inverse phase gate then Hadamard).
pub open spec fn local_post_ops(d: int, q: int) -> Seq<GateModel> {
    if d == 2 {
        seq![GateModel::H(q)]
    } else if d == 3 {
        seq![GateModel::Sdg(q), GateModel::H(q)]
    } else {
        Seq::<GateModel>::empty()
    }
}

/// Preparation operations of a whole configuration: cut `i` reads the
/// base-4 digit `i` of the configuration index as its local term selector.
pub open spec fn config_pre_ops(sel: int, cuts: Seq<WireCut>) -> Seq<GateModel>
    decreases cuts.len(),
{
    if cuts.len() == 0 {
        Seq::<GateModel>::empty()
    } else {
        local_pre_ops(sel % 4, cuts[0].qubit as int) + config_pre_ops(sel / 4, cuts.drop_first())
    }
}

/// Measurement operations of a whole configuration, in cut order.
pub open spec fn config_post_ops(sel: int, cuts: Seq<WireCut>) -> Seq<GateModel>
    decreases cuts.len(),
{
    if cuts.len() == 0 {
        Seq::<GateModel>::empty()
    } else {
        local_post_ops(sel % 4, cuts[0].qubit as int) + config_post_ops(sel / 4, cuts.drop_first())
    }
}

/// A cut is valid for a circuit when its position does not exceed the
/// circuit length and the severed qubit is touched by some gate before the
/// cut.
pub open spec fn wire_cut_valid(circ: Seq<GateModel>, cut: WireCut) -> bool {
    &&& cut.position <= circ.len()
    &&& exists|i: int|
        0 <= i < cut.position && gate_qubits(#[trigger] circ[i]).contains(cut.qubit as int)
}

/// All cuts of the list are valid for the circuit.
pub open spec fn cuts_valid(circ: Seq<GateModel>, cuts: Seq<WireCut>) -> bool {
    forall|i: int| 0 <= i < cuts.len() ==> wire_cut_valid(circ, #[trigger] cuts[i])
}

/// The index at which the circuit is split into prefix and suffix: the first
/// cut's position, or the whole circuit when there are no cuts.
pub open spec fn split_position(circ_len: int, cuts: Seq<WireCut>) -> int {
    if cuts.len() == 0 {
        circ_len
    } else {
        cuts[0].position as int
    }
}

/// Whether `g` touches qubit `q`.
fn gate_touches(g: &Gate, q: usize) -> (b: bool)
    ensures
        b == gate_qubits(g@).contains(q as int),
{
    let qs = g.qubits();
    let ghost m = gate_qubits(g@);
    let mut i: usize = 0;
    while i < qs.len()
        invariant
            i <= qs@.len(),
            m == gate_qubits(g@),
            qs@.len() == m.len(),
            forall|j: int| 0 <= j < qs@.len() ==> qs@[j] as int == #[trigger] m[j],
            forall|j: int| 0 <= j < i ==> #[trigger] qs@[j] != q,
        decreases qs@.len() - i,
    {
        if qs[i] == q {
            proof {
                assert(m[i as int] == q as int);
                assert(gate_qubits(g@).contains(q as int));
            }
            return true;
        }
        i += 1;
    }
    proof {
        assert forall|j: int| 0 <= j < m.len() implies #[trigger] m[j] != q as int by {
            assert(qs@[j] as int == m[j]);
        }
        assert(!gate_qubits(g@).contains(q as int));
    }
    false
}

/// Whether `cut` is valid for `circuit`.
fn wire_cut_ok(circuit: &[Gate], cut: WireCut) -> (b: bool)
    ensures
        b == wire_cut_valid(circuit_model(circuit@), cut),
{
    let ghost cm = circuit_model(circuit@);
    if cut.position > circuit.len() {
        return false;
    }
    let mut i: usize = 0;
    while i < cut.position
        invariant
            i <= cut.position <= circuit@.len(),
            cm == circuit_model(circuit@),
            forall|j: int|
                0 <= j < i ==> !gate_qubits(#[trigger] cm[j]).contains(cut.qubit as int),
        decreases cut.position - i,
    {
        if gate_touches(&circuit[i], cut.qubit) {
            proof {
                assert(cm[i as int] == circuit@[i as int]@);
            }
            return true;
        }
        proof {
            assert(cm[i as int] == circuit@[i as int]@);
        }
        i += 1;
    }
    false
}

/// Build the preparation and measurement operation lists of one
/// configuration.
fn decompose_configuration(config: usize, cuts: &[WireCut]) -> (r: (Vec<Gate>, Vec<Gate>))
    ensures
        circuit_model(r.0@) == config_pre_ops(config as int, cuts@),
        circuit_model(r.1@) == config_post_ops(config as int, cuts@),
        circuit_wf(r.0@),
        circuit_wf(r.1@),
{
    let mut pre: Vec<Gate> = Vec::new();
    let mut post: Vec<Gate> = Vec::new();
    let mut sel: usize = config;
    let mut i: usize = 0;
    proof {
        assert(cuts@.skip(0) =~= cuts@);
    }
    while i < cuts.len()
        invariant
            i <= cuts@.len(),
            circuit_model(pre@) + config_pre_ops(sel as int, cuts@.skip(i as int))
                == config_pre_ops(config as int, cuts@),
            circuit_model(post@) + config_post_ops(sel as int, cuts@.skip(i as int))
                == config_post_ops(config as int, cuts@),
            circuit_wf(pre@),
            circuit_wf(post@),
        decreases cuts@.len() - i,
    {
        let q = cuts[i].qubit;
        let d: usize = sel % 4;
        let ghost tail = cuts@.skip(i as int);
        let ghost pre0 = pre@;
        let ghost post0 = post@;
        proof {
            assert(tail[0] == cuts@[i as int]);
            assert(tail.drop_first() =~= cuts@.skip(i as int + 1));
        }
        if d == 1 {
            push_gate(&mut pre, Gate::X(q));
        } else if d == 2 {
            push_gate(&mut pre, Gate::H(q));
            push_gate(&mut post, Gate::H(q));
        } else if d == 3 {
            push_gate(&mut pre, Gate::H(q));
            push_gate(&mut pre, Gate::S(q));
            push_gate(&mut post, Gate::Sdg(q));
            push_gate(&mut post, Gate::H(q));
        }
        proof {
            assert(circuit_model(pre@) =~= circuit_model(pre0) + local_pre_ops(
                d as int,
                q as int,
            ));
            assert(circuit_model(post@) =~= circuit_model(post0) + local_post_ops(
                d as int,
                q as int,
            ));
            assert(config_pre_ops(sel as int, tail) == local_pre_ops(d as int, q as int)
                + config_pre_ops(sel as int / 4, cuts@.skip(i as int + 1)));
            assert(config_post_ops(sel as int, tail) == local_post_ops(d as int, q as int)
                + config_post_ops(sel as int / 4, cuts@.skip(i as int + 1)));
            assert((circuit_model(pre0) + local_pre_ops(d as int, q as int)) + config_pre_ops(
                sel as int / 4,
                cuts@.skip(i as int + 1),
            ) =~= circuit_model(pre0) + (local_pre_ops(d as int, q as int) + config_pre_ops(
                sel as int / 4,
                cuts@.skip(i as int + 1),
            )));
            assert((circuit_model(post0) + local_post_ops(d as int, q as int)) + config_post_ops(
                sel as int / 4,
                cuts@.skip(i as int + 1),
            ) =~= circuit_model(post0) + (local_post_ops(d as int, q as int) + config_post_ops(
                sel as int / 4,
                cuts@.skip(i as int + 1),
            )));
        }
        sel = sel / 4;
        i += 1;
    }
    proof {
        assert(cuts@.skip(cuts@.len() as int) =~= Seq::<WireCut>::empty());
        assert(circuit_model(pre@) + Seq::<GateModel>::empty() =~= circuit_model(pre@));
        assert(circuit_model(post@) + Seq::<GateModel>::empty() =~= circuit_model(post@));
    }
    (pre, post)
}

/// Cut a circuit at the given wire locations by quasi-probability
/// decomposition of the identity channel on each severed qubit.
///
/// For `k` cuts the result has exactly `4^k` configurations; configuration
/// `cfg` is a triple of the prefix fragment (the circuit up to the first
/// cut's position followed by every cut's preparation operations), the
/// suffix fragment (every cut's measurement operations followed by the rest
/// of the circuit), and the exact coefficient `1 / 2^k`.  With no cuts the
/// single configuration is the whole circuit, an empty suffix and
/// coefficient 1.  With more than one declared cut the circuit is still
/// split only at the first cut's position, so the decomposition yields a
/// two-fragment bipartition reused across all `4^k` configurations rather
/// than a multi-way partition; callers wanting a finer split cut
/// repeatedly.  Fails with `InvalidCut` exactly when some cut's position
/// exceeds the circuit length or its qubit is untouched before the cut.
pub fn cut_wires(circuit: &[Gate], cuts: &[WireCut]) -> (r: Result<
    Vec<(Vec<Gate>, Vec<Gate>, Ratio)>,
    CutError,
>)
    requires
        cuts@.len() <= 15,
    ensures
        match r {
            Ok(fragments) => {
                let k = cuts@.len();
                let cm = circuit_model(circuit@);
                let p = split_position(circuit@.len() as int, cuts@);
                &&& cuts_valid(cm, cuts@)
                &&& fragments@.len() == ipow(4, k)
                &&& forall|cfg: int|
                    0 <= cfg < fragments@.len() ==> {
                        &&& circuit_model((#[trigger] fragments@[cfg]).0@) == cm.subrange(0, p)
                            + config_pre_ops(cfg, cuts@)
                        &&& circuit_model(fragments@[cfg].1@) == config_post_ops(cfg, cuts@)
                            + cm.subrange(p, cm.len() as int)
                        &&& fragments@[cfg].2@ == (Rat { num: 1, den: ipow(2, k) })
                        &&& fragments@[cfg].2.wf()
                        &&& circuit_wf(circuit@) ==> circuit_wf(fragments@[cfg].0@)
                            && circuit_wf(fragments@[cfg].1@)
                    }
            },
            Err(e) => e == CutError::InvalidCut && !cuts_valid(
                circuit_model(circuit@),
                cuts@,
            ),
        },
{
    let ghost cm = circuit_model(circuit@);
    let mut v: usize = 0;
    while v < cuts.len()
        invariant
            v <= cuts@.len(),
            cm == circuit_model(circuit@),
            forall|j: int| 0 <= j < v ==> wire_cut_valid(cm, #[trigger] cuts@[j]),
        decreases cuts@.len() - v,
    {
        if !wire_cut_ok(circuit, cuts[v]) {
            return Err(CutError::InvalidCut);
        }
        v += 1;
    }
    let k = cuts.len();
    let mut num_configurations: usize = 1;
    let mut den: i64 = 1;
    let mut e: usize = 0;
    proof {
        lemma_ipow_increases(4, 0, 15);
        lemma_ipow_value_4_15();
        lemma_ipow_value_2_15();
    }
    while e < k
        invariant
            e <= k <= 15,
            num_configurations as int == ipow(4, e as nat),
            den as int == ipow(2, e as nat),
        decreases k - e,
    {
        proof {
            lemma_ipow_value_4_15();
            lemma_ipow_value_2_15();
            lemma_ipow_increases(4, (e + 1) as nat, 15);
            lemma_ipow_increases(2, (e + 1) as nat, 15);
            assert(ipow(4, (e + 1) as nat) == 4 * ipow(4, e as nat));
            assert(ipow(2, (e + 1) as nat) == 2 * ipow(2, e as nat));
            lemma_ipow_positive(4, e as nat);
            lemma_ipow_positive(2, e as nat);
        }
        num_configurations = num_configurations * 4;
        den = den * 2;
        e += 1;
    }
    let coeff = Ratio { num: 1, den };
    proof {
        lemma_ipow_positive(2, k as nat);
    }
    let p: usize = if k == 0 {
        circuit.len()
    } else {
        proof {
            assert(wire_cut_valid(cm, cuts@[0]));
        }
        cuts[0].position
    };
    let mut fragments: Vec<(Vec<Gate>, Vec<Gate>, Ratio)> = Vec::new();
    let mut cfg: usize = 0;
    while cfg < num_configurations
        invariant
            cfg <= num_configurations,
            num_configurations as int == ipow(4, cuts@.len() as nat),
            den as int == ipow(2, cuts@.len() as nat),
            den > 0,
            coeff == (Ratio { num: 1, den: den }),
            cm == circuit_model(circuit@),
            p as int == split_position(circuit@.len() as int, cuts@),
            p <= circuit@.len(),
            fragments@.len() == cfg,
            forall|c: int|
                0 <= c < cfg ==> {
                    &&& circuit_model((#[trigger] fragments@[c]).0@) == cm.subrange(0, p as int)
                        + config_pre_ops(c, cuts@)
                    &&& circuit_model(fragments@[c].1@) == config_post_ops(c, cuts@)
                        + cm.subrange(p as int, cm.len() as int)
                    &&& fragments@[c].2@ == (Rat { num: 1, den: ipow(2, cuts@.len() as nat) })
                    &&& fragments@[c].2.wf()
                    &&& circuit_wf(circuit@) ==> circuit_wf(fragments@[c].0@) && circuit_wf(
                        fragments@[c].1@,
                    )
                },
        decreases num_configurations - cfg,
    {
        let ops = decompose_configuration(cfg, cuts);
        let pre_ops = ops.0;
        let post_ops = ops.1;
        let mut fragment_pre: Vec<Gate> = Vec::new();
        append_gates_range(&mut fragment_pre, circuit, 0, p);
        append_gates(&mut fragment_pre, pre_ops.as_slice());
        let mut fragment_post: Vec<Gate> = Vec::new();
        append_gates(&mut fragment_post, post_ops.as_slice());
        append_gates_range(&mut fragment_post, circuit, p, circuit.len());
        proof {
            assert(circuit_model(fragment_pre@) =~= cm.subrange(0, p as int) + config_pre_ops(
                cfg as int,
                cuts@,
            ));
            assert(circuit_model(fragment_post@) =~= config_post_ops(cfg as int, cuts@)
                + cm.subrange(p as int, cm.len() as int));
        }
        fragments.push((fragment_pre, fragment_post, coeff));
        cfg += 1;
    }
    Ok(fragments)
}

/// `4^15` as a number.
proof fn lemma_ipow_value_4_15()
    ensures
        ipow(4, 15) == 0x4000_0000,
{
    reveal_with_fuel(ipow, 17);
}

/// `2^15` as a number.
proof fn lemma_ipow_value_2_15()
    ensures
        ipow(2, 15) == 0x8000,
{
    reveal_with_fuel(ipow, 17);
}

/// Over `k` wire cuts, the absolute values of the `4^k` configuration
/// coefficients (each exactly `1 / 2^k`) sum to exactly `2^k`.
pub proof fn lemma_wire_cut_coefficient_sum(cs: Seq<Rat>, k: nat)
    requires
        cs.len() == ipow(4, k),
        forall|i: int| 0 <= i < cs.len() ==> #[trigger] cs[i] == (Rat { num: 1, den: ipow(2, k) }),
    ensures
        rat_eq(rat_sum_abs(cs), Rat { num: ipow(2, k), den: 1 }),
{
    let c = Rat { num: 1, den: ipow(2, k) };
    lemma_ipow_positive(2, k);
    lemma_ipow_positive(4, k);
    assert forall|i: int| 0 <= i < cs.len() implies rat_abs(#[trigger] cs[i]) == c by {
        assert(cs[i] == c);
    }
    lemma_sum_abs_constant(cs, c);
    lemma_ipow4_is_square_of_ipow2(k);
    let sum = rat_sum_abs(cs);
    assert(sum.num * 1 == ipow(2, k) * sum.den) by (nonlinear_arith)
        requires
            sum.num * ipow(2, k) == (ipow(4, k) * 1) * sum.den,
            ipow(4, k) == ipow(2, k) * ipow(2, k),
            ipow(2, k) >= 1,
    ;
}

// ============================================================================
// CUT PLANNING
// ============================================================================

/// One more than the largest entry of a qubit-index sequence, or 0 when it
/// is empty.
pub open spec fn qubit_seq_bound(qs: Seq<int>) -> int
    decreases qs.len(),
{
    if qs.len() == 0 {
        0
    } else {
        let rest = qubit_seq_bound(qs.drop_first());
        let head = qs[0] + 1;
        if head > rest {
            head
        } else {
            rest
        }
    }
}

/// The number of qubits a circuit touches: one more than the largest qubit
/// index of any gate, or 0 for an empty circuit.
pub open spec fn circuit_qubit_count(s: Seq<GateModel>) -> int
    decreases s.len(),
{
    if s.len() == 0 {
        0
    } else {
        let rest = circuit_qubit_count(s.drop_first());
        let head = qubit_seq_bound(gate_qubits(s[0]));
        if head > rest {
            head
        } else {
            rest
        }
    }
}

proof fn lemma_qubit_seq_bound_ge(qs: Seq<int>, j: int)
    requires
        0 <= j < qs.len(),
    ensures
        qs[j] + 1 <= qubit_seq_bound(qs),
        qubit_seq_bound(qs) >= 0,
    decreases qs.len(),
{
    if j > 0 {
        lemma_qubit_seq_bound_ge(qs.drop_first(), j - 1);
    } else {
        lemma_qubit_seq_bound_nonneg(qs.drop_first());
    }
}

proof fn lemma_qubit_seq_bound_nonneg(qs: Seq<int>)
    ensures
        qubit_seq_bound(qs) >= 0,
    decreases qs.len(),
{
    if qs.len() > 0 {
        lemma_qubit_seq_bound_nonneg(qs.drop_first());
    }
}

proof fn lemma_circuit_qubit_count_nonneg(s: Seq<GateModel>)
    ensures
        circuit_qubit_count(s) >= 0,
    decreases s.len(),
{
    if s.len() > 0 {
        lemma_circuit_qubit_count_nonneg(s.drop_first());
        lemma_qubit_seq_bound_nonneg(gate_qubits(s[0]));
    }
}

proof fn lemma_circuit_qubit_count_ge_gate(s: Seq<GateModel>, i: int)
    requires
        0 <= i < s.len(),
    ensures
        qubit_seq_bound(gate_qubits(s[i])) <= circuit_qubit_count(s),
    decreases s.len(),
{
    if i > 0 {
        lemma_circuit_qubit_count_ge_gate(s.drop_first(), i - 1);
    } else {
        lemma_circuit_qubit_count_nonneg(s.drop_first());
    }
}

/// The greedy single-pass cut proposal, scanning from gate `i`: each gate
/// that touches two or more qubits proposes a cut just after itself on its
/// second qubit, and the scan stops as soon as the estimated fragment
/// profile (a constant estimate of 4 qubits per fragment) fits the budget,
/// which happens right after the first proposal whenever the budget is at
/// least 4.
pub open spec fn greedy_cuts_from(s: Seq<GateModel>, budget: int, i: int) -> Seq<WireCut>
    decreases s.len() - i,
{
    if i < 0 || i >= s.len() {
        Seq::<WireCut>::empty()
    } else if gate_qubits(s[i]).len() >= 2 {
        let cut = WireCut { position: (i + 1) as usize, qubit: gate_qubits(s[i])[1] as usize };
        if budget >= 4 {
            seq![cut]
        } else {
            seq![cut] + greedy_cuts_from(s, budget, i + 1)
        }
    } else {
        greedy_cuts_from(s, budget, i + 1)
    }
}

/// Estimated qubit count per fragment for a proposed cut set: a simplified
/// constant profile of 4 qubits for each of the `cuts + 1` fragments.
fn estimate_fragments(cuts: &[WireCut], _circuit: &[Gate]) -> (r: Vec<usize>)
    requires
        cuts@.len() < usize::MAX,
    ensures
        r@.len() == cuts@.len() + 1,
        forall|i: int| 0 <= i < r@.len() ==> #[trigger] r@[i] == 4usize,
{
    let mut r: Vec<usize> = Vec::new();
    let mut i: usize = 0;
    while i <= cuts.len()
        invariant
            i <= cuts@.len() + 1,
            r@.len() == i,
            cuts@.len() < usize::MAX,
            forall|j: int| 0 <= j < i ==> #[trigger] r@[j] == 4usize,
        decreases cuts@.len() + 1 - i,
    {
        r.push(4);
        i += 1;
    }
    r
}

/// Find wire-cut locations so every estimated fragment fits the qubit
/// budget: a single-pass greedy heuristic with no backtracking.
///
/// If the circuit already fits the budget no cuts are proposed.  Otherwise
/// the scan proposes a cut after each gate touching two or more qubits and
/// stops as soon as the estimated fragment profile fits; the result is not
/// guaranteed optimal and, for circuits without multi-qubit gates, may
/// still exceed the budget, so callers re-validate it.
pub fn find_optimal_cuts(circuit: &[Gate], max_fragment_qubits: usize) -> (r: Vec<WireCut>)
    requires
        circuit_qubit_count(circuit_model(circuit@)) <= usize::MAX as int,
        circuit@.len() < usize::MAX,
    ensures
        circuit_qubit_count(circuit_model(circuit@)) <= max_fragment_qubits ==> r@
            == Seq::<WireCut>::empty(),
        circuit_qubit_count(circuit_model(circuit@)) > max_fragment_qubits ==> r@
            == greedy_cuts_from(circuit_model(circuit@), max_fragment_qubits as int, 0),
{
    let ghost cm = circuit_model(circuit@);
    let mut total_qubits: usize = 0;
    let mut i: usize = 0;
    proof {
        assert(cm.skip(0) =~= cm);
        lemma_circuit_qubit_count_nonneg(cm);
    }
    while i < circuit.len()
        invariant
            i <= circuit@.len(),
            cm == circuit_model(circuit@),
            circuit_qubit_count(cm) <= usize::MAX as int,
            if total_qubits as int > circuit_qubit_count(cm.skip(i as int)) {
                circuit_qubit_count(cm) == total_qubits as int
            } else {
                circuit_qubit_count(cm) == circuit_qubit_count(cm.skip(i as int))
            },
            total_qubits as int <= circuit_qubit_count(cm),
        decreases circuit@.len() - i,
    {
        let qs = circuit[i].qubits();
        let ghost gq = gate_qubits(cm[i as int]);
        proof {
            assert(cm[i as int] == circuit@[i as int]@);
            assert(cm.skip(i as int)[0] == cm[i as int]);
            assert(cm.skip(i as int).drop_first() =~= cm.skip(i as int + 1));
            lemma_circuit_qubit_count_ge_gate(cm, i as int);
            lemma_qubit_seq_bound_nonneg(gq);
            assert(gq.skip(0) =~= gq);
        }
        let mut j: usize = 0;
        let mut head: usize = 0;
        while j < qs.len()
            invariant
                j <= qs@.len(),
                gq == gate_qubits(circuit@[i as int]@),
                qs@.len() == gq.len(),
                forall|t: int| 0 <= t < qs@.len() ==> qs@[t] as int == #[trigger] gq[t],
                qubit_seq_bound(gq) <= circuit_qubit_count(cm),
                circuit_qubit_count(cm) <= usize::MAX as int,
                if head as int > qubit_seq_bound(gq.skip(j as int)) {
                    qubit_seq_bound(gq) == head as int
                } else {
                    qubit_seq_bound(gq) == qubit_seq_bound(gq.skip(j as int))
                },
                head as int <= qubit_seq_bound(gq),
            decreases qs@.len() - j,
        {
            proof {
                assert(gq.skip(j as int)[0] == gq[j as int]);
                assert(gq.skip(j as int).drop_first() =~= gq.skip(j as int + 1));
                lemma_qubit_seq_bound_ge(gq, j as int);
                lemma_qubit_seq_bound_nonneg(gq.skip(j as int + 1));
            }
            let q = qs[j];
            if q + 1 > head {
                head = q + 1;
            }
            j += 1;
        }
        proof {
            assert(gq.skip(gq.len() as int) =~= Seq::<int>::empty());
            assert(head as int == qubit_seq_bound(gq));
        }
        if head > total_qubits {
            total_qubits = head;
        }
        i += 1;
    }
    proof {
        assert(cm.skip(circuit@.len() as int) =~= Seq::<GateModel>::empty());
        assert(total_qubits as int == circuit_qubit_count(cm));
    }
    if total_qubits <= max_fragment_qubits {
        let r: Vec<WireCut> = Vec::new();
        return r;
    }
    let ghost b = max_fragment_qubits as int;
    let mut cuts: Vec<WireCut> = Vec::new();
    let mut i2: usize = 0;
    while i2 < circuit.len()
        invariant_except_break
            i2 <= circuit@.len(),
            cm == circuit_model(circuit@),
            circuit@.len() < usize::MAX,
            b == max_fragment_qubits as int,
            cuts@.len() <= i2,
            cuts@ + greedy_cuts_from(cm, b, i2 as int) == greedy_cuts_from(cm, b, 0),
        ensures
            cuts@ == greedy_cuts_from(cm, b, 0),
        decreases circuit@.len() - i2,
    {
        let qs = circuit[i2].qubits();
        let ghost gq = gate_qubits(cm[i2 as int]);
        proof {
            assert(cm[i2 as int] == circuit@[i2 as int]@);
        }
        if qs.len() >= 2 {
            let cut = WireCut { position: i2 + 1, qubit: qs[1] };
            proof {
                assert(qs@[1] as int == gq[1]);
                assert(cut == (WireCut {
                    position: (i2 as int + 1) as usize,
                    qubit: gq[1] as usize,
                }));
            }
            let ghost cuts0 = cuts@;
            cuts.push(cut);
            let fragments = estimate_fragments(cuts.as_slice(), circuit);
            let mut all_fit = true;
            let mut f: usize = 0;
            while f < fragments.len()
                invariant
                    f <= fragments@.len(),
                    fragments@.len() > 0,
                    forall|t: int| 0 <= t < fragments@.len() ==> #[trigger] fragments@[t]
                        == 4usize,
                    all_fit == forall|t: int|
                        0 <= t < f ==> #[trigger] fragments@[t] <= max_fragment_qubits,
                decreases fragments@.len() - f,
            {
                if fragments[f] > max_fragment_qubits {
                    all_fit = false;
                }
                f += 1;
            }
            if all_fit {
                proof {
                    assert(fragments@[0] <= max_fragment_qubits);
                    assert(b >= 4);
                    assert(greedy_cuts_from(cm, b, i2 as int) =~= seq![cut]);
                    assert(cuts@ =~= cuts0 + seq![cut]);
                }
                break;
            }
            proof {
                assert(fragments@[0] == 4usize);
                assert(!(forall|t: int|
                    0 <= t < fragments@.len() ==> #[trigger] fragments@[t]
                        <= max_fragment_qubits));
                assert(b < 4);
                assert(greedy_cuts_from(cm, b, i2 as int) == seq![cut] + greedy_cuts_from(
                    cm,
                    b,
                    i2 as int + 1,
                ));
                assert(cuts@ =~= cuts0 + seq![cut]);
                assert((cuts0 + seq![cut]) + greedy_cuts_from(cm, b, i2 as int + 1) =~= cuts0 + (
                seq![cut] + greedy_cuts_from(cm, b, i2 as int + 1)));
            }
        } else {
            proof {
                assert(gq.len() < 2);
                assert(greedy_cuts_from(cm, b, i2 as int) == greedy_cuts_from(
                    cm,
                    b,
                    i2 as int + 1,
                ));
            }
        }
        i2 += 1;
    }
    proof {
        if i2 >= circuit@.len() {
        }
    }
    cuts
}

// ============================================================================
// GATE CUTTING
// ============================================================================

/// The fixed quasi-probability terms of a cut CNOT:
/// `CX = 1/2 (I(x)I + Z(x)Z + X(x)X - Y(x)Y)`.
pub open spec fn cnot_terms(c: int, t: int) -> Seq<(Seq<GateModel>, Rat)> {
    seq![
        (Seq::<GateModel>::empty(), Rat { num: 1, den: 2 }),
        (seq![GateModel::Z(c), GateModel::Z(t)], Rat { num: 1, den: 2 }),
        (seq![GateModel::X(c), GateModel::X(t)], Rat { num: 1, den: 2 }),
        (seq![GateModel::Y(c), GateModel::Y(t)], Rat { num: -1, den: 2 }),
    ]
}

/// The fixed quasi-probability terms of a cut CZ:
/// `CZ = 1/4 (I(x)I + Z(x)I + I(x)Z - Z(x)Z)`.
pub open spec fn cz_terms(q0: int, q1: int) -> Seq<(Seq<GateModel>, Rat)> {
    seq![
        (Seq::<GateModel>::empty(), Rat { num: 1, den: 4 }),
        (seq![GateModel::Z(q0)], Rat { num: 1, den: 4 }),
        (seq![GateModel::Z(q1)], Rat { num: 1, den: 4 }),
        (seq![GateModel::Z(q0), GateModel::Z(q1)], Rat { num: -1, den: 4 }),
    ]
}

/// The fixed quasi-probability terms of a cut SWAP:
/// `SWAP = 1/4 (I(x)I + X(x)X + Y(x)Y + Z(x)Z)`.
pub open spec fn swap_terms(q0: int, q1: int) -> Seq<(Seq<GateModel>, Rat)> {
    seq![
        (Seq::<GateModel>::empty(), Rat { num: 1, den: 4 }),
        (seq![GateModel::X(q0), GateModel::X(q1)], Rat { num: 1, den: 4 }),
        (seq![GateModel::Y(q0), GateModel::Y(q1)], Rat { num: 1, den: 4 }),
        (seq![GateModel::Z(q0), GateModel::Z(q1)], Rat { num: 1, den: 4 }),
    ]
}

/// The decomposition of an arbitrary gate: the three known two-qubit
/// decompositions, and the identity fallback (an unchanged gate of weight 1)
/// for every other gate.
pub open spec fn gate_cut_terms(g: GateModel) -> Seq<(Seq<GateModel>, Rat)> {
    match g {
        GateModel::CX(c, t) => cnot_terms(c, t),
        GateModel::CZ(q0, q1) => cz_terms(q0, q1),
        GateModel::SWAP(q0, q1) => swap_terms(q0, q1),
        _ => seq![(seq![g], rat_int(1))],
    }
}

/// Model of a list of weighted replacement terms.
pub open spec fn terms_model(s: Seq<(Vec<Gate>, Ratio)>) -> Seq<(Seq<GateModel>, Rat)> {
    Seq::new(s.len(), |i: int| (circuit_model(s[i].0@), s[i].1@))
}

/// All weights of a term list are well-formed fractions.
pub open spec fn terms_wf(s: Seq<(Vec<Gate>, Ratio)>) -> bool {
    forall|i: int| 0 <= i < s.len() ==> (#[trigger] s[i]).1.wf()
}

/// Cut a CNOT into single-qubit fragments: exactly four weighted terms with
/// weights `1/2, 1/2, 1/2, -1/2`.
pub fn cut_cnot(control: usize, target: usize) -> (r: Vec<(Vec<Gate>, Ratio)>)
    ensures
        terms_model(r@) == cnot_terms(control as int, target as int),
        terms_wf(r@),
        r@.len() == 4,
        r@[0].1@ == (Rat { num: 1, den: 2 }),
        r@[1].1@ == (Rat { num: 1, den: 2 }),
        r@[2].1@ == (Rat { num: 1, den: 2 }),
        r@[3].1@ == (Rat { num: -1, den: 2 }),
{
    let mut r: Vec<(Vec<Gate>, Ratio)> = Vec::new();
    let half = Ratio { num: 1, den: 2 };
    let neg_half = Ratio { num: -1, den: 2 };

    r.push((Vec::new(), half));

    let mut zz: Vec<Gate> = Vec::new();
    zz.push(Gate::Z(control));
    zz.push(Gate::Z(target));
    r.push((zz, half));

    let mut xx: Vec<Gate> = Vec::new();
    xx.push(Gate::X(control));
    xx.push(Gate::X(target));
    r.push((xx, half));

    let mut yy: Vec<Gate> = Vec::new();
    yy.push(Gate::Y(control));
    yy.push(Gate::Y(target));
    r.push((yy, neg_half));

    proof {
        assert(terms_model(r@) =~~= cnot_terms(control as int, target as int));
    }
    r
}

fn cut_cz(q0: usize, q1: usize) -> (r: Vec<(Vec<Gate>, Ratio)>)
    ensures
        terms_model(r@) == cz_terms(q0 as int, q1 as int),
        terms_wf(r@),
{
    let mut r: Vec<(Vec<Gate>, Ratio)> = Vec::new();
    let quarter = Ratio { num: 1, den: 4 };
    let neg_quarter = Ratio { num: -1, den: 4 };

    r.push((Vec::new(), quarter));

    let mut z0: Vec<Gate> = Vec::new();
    z0.push(Gate::Z(q0));
    r.push((z0, quarter));

    let mut z1: Vec<Gate> = Vec::new();
    z1.push(Gate::Z(q1));
    r.push((z1, quarter));

    let mut zz: Vec<Gate> = Vec::new();
    zz.push(Gate::Z(q0));
    zz.push(Gate::Z(q1));
    r.push((zz, neg_quarter));

    proof {
        assert(terms_model(r@) =~~= cz_terms(q0 as int, q1 as int));
    }
    r
}

fn cut_swap(q0: usize, q1: usize) -> (r: Vec<(Vec<Gate>, Ratio)>)
    ensures
        terms_model(r@) == swap_terms(q0 as int, q1 as int),
        terms_wf(r@),
{
    let mut r: Vec<(Vec<Gate>, Ratio)> = Vec::new();
    let quarter = Ratio { num: 1, den: 4 };

    r.push((Vec::new(), quarter));

    let mut xx: Vec<Gate> = Vec::new();
    xx.push(Gate::X(q0));
    xx.push(Gate::X(q1));
    r.push((xx, quarter));

    let mut yy: Vec<Gate> = Vec::new();
    yy.push(Gate::Y(q0));
    yy.push(Gate::Y(q1));
    r.push((yy, quarter));

    let mut zz: Vec<Gate> = Vec::new();
    zz.push(Gate::Z(q0));
    zz.push(Gate::Z(q1));
    r.push((zz, quarter));

    proof {
        assert(terms_model(r@) =~~= swap_terms(q0 as int, q1 as int));
    }
    r
}

/// Cut any two-qubit gate: CNOT, CZ and SWAP get their fixed decompositions;
/// every other gate is passed through unchanged with weight 1 (a documented
/// identity fallback, not an error).
pub fn cut_two_qubit_gate(gate: &Gate) -> (r: Vec<(Vec<Gate>, Ratio)>)
    ensures
        terms_model(r@) == gate_cut_terms(gate@),
        terms_wf(r@),
{
    match gate {
        Gate::CX(c, t) => cut_cnot(*c, *t),
        Gate::CZ(c, t) => cut_cz(*c, *t),
        Gate::SWAP(a, b) => cut_swap(*a, *b),
        _ => {
            let mut ops: Vec<Gate> = Vec::new();
            ops.push(dup_gate(gate));
            let mut r: Vec<(Vec<Gate>, Ratio)> = Vec::new();
            r.push((ops, Ratio { num: 1, den: 1 }));
            proof {
                assert(terms_model(r@) =~~= seq![(seq![gate@], rat_int(1))]);
            }
            r
        },
    }
}

/// The weights of a term list.
pub open spec fn term_weights(s: Seq<(Seq<GateModel>, Rat)>) -> Seq<Rat> {
    Seq::new(s.len(), |i: int| s[i].1)
}

/// The absolute values of the four CNOT weights sum to exactly 2.
pub proof fn lemma_cnot_weight_sum(c: int, t: int)
    ensures
        cnot_terms(c, t).len() == 4,
        rat_eq(rat_sum_abs(term_weights(cnot_terms(c, t))), rat_int(2)),
{
    let ws = term_weights(cnot_terms(c, t));
    assert(ws.len() == 4);
    assert forall|i: int| 0 <= i < ws.len() implies rat_abs(#[trigger] ws[i]) == (Rat {
        num: 1,
        den: 2,
    }) by {
        assert(ws[0] == Rat { num: 1, den: 2 });
        assert(ws[1] == Rat { num: 1, den: 2 });
        assert(ws[2] == Rat { num: 1, den: 2 });
        assert(ws[3] == Rat { num: -1, den: 2 });
    }
    lemma_sum_abs_constant(ws, Rat { num: 1, den: 2 });
    let sum = rat_sum_abs(ws);
    assert(sum.num * 2 == 4 * sum.den);
    assert(sum.num * 1 == 2 * sum.den);
}

/// The absolute values of the four CZ weights sum to exactly 1.
pub proof fn lemma_cz_weight_sum(q0: int, q1: int)
    ensures
        cz_terms(q0, q1).len() == 4,
        rat_eq(rat_sum_abs(term_weights(cz_terms(q0, q1))), rat_int(1)),
{
    let ws = term_weights(cz_terms(q0, q1));
    assert(ws.len() == 4);
    assert forall|i: int| 0 <= i < ws.len() implies rat_abs(#[trigger] ws[i]) == (Rat {
        num: 1,
        den: 4,
    }) by {
        assert(ws[0] == Rat { num: 1, den: 4 });
        assert(ws[1] == Rat { num: 1, den: 4 });
        assert(ws[2] == Rat { num: 1, den: 4 });
        assert(ws[3] == Rat { num: -1, den: 4 });
    }
    lemma_sum_abs_constant(ws, Rat { num: 1, den: 4 });
    let sum = rat_sum_abs(ws);
    assert(sum.num * 4 == 4 * sum.den);
    assert(sum.num * 1 == 1 * sum.den);
}

/// The absolute values of the four SWAP weights sum to exactly 1.
pub proof fn lemma_swap_weight_sum(q0: int, q1: int)
    ensures
        swap_terms(q0, q1).len() == 4,
        rat_eq(rat_sum_abs(term_weights(swap_terms(q0, q1))), rat_int(1)),
{
    let ws = term_weights(swap_terms(q0, q1));
    assert(ws.len() == 4);
    assert forall|i: int| 0 <= i < ws.len() implies rat_abs(#[trigger] ws[i]) == (Rat {
        num: 1,
        den: 4,
    }) by {
        assert(ws[0] == Rat { num: 1, den: 4 });
        assert(ws[1] == Rat { num: 1, den: 4 });
        assert(ws[2] == Rat { num: 1, den: 4 });
        assert(ws[3] == Rat { num: 1, den: 4 });
    }
    lemma_sum_abs_constant(ws, Rat { num: 1, den: 4 });
    let sum = rat_sum_abs(ws);
    assert(sum.num * 4 == 4 * sum.den);
    assert(sum.num * 1 == 1 * sum.den);
}

} // verus!



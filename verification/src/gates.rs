//! Quantum gates as a closed sum type.
//!
//! A [`Gate`] carries the qubit indices it acts on and, for rotations, an
//! exact symbolic [`Angle`].  Angles are never evaluated numerically by this
//! crate; they are exact descriptions (a rational multiple of pi, a rational
//! number of radians, or one of the closed-form arcsine/arccosine expressions
//! the circuit generators emit), so gate inversion and fusion stay exact.
//!
//! Contracts speak about the mathematical models [`GateModel`] and
//! [`AngleModel`], reached through each type's view.

use vstd::prelude::*;
use crate::rational::{Rat, Ratio, rat_neg};

verus! {

/// Exact symbolic rotation parameter.
#[derive(Clone, Copy, PartialEq, Eq, Structural, Debug)]
pub enum Angle {
    /// `r * pi` radians.
    PiTimes(Ratio),
    /// `r` radians.
    Radians(Ratio),
    /// `2 * asin(2^-k)` radians, negated when `neg` holds.
    DoubleAsinHalfPow { k: u32, neg: bool },
    /// `2 * acos(sqrt(arg))` radians, negated when `neg` holds.
    DoubleAcosSqrt { arg: Ratio, neg: bool },
}

/// Mathematical model of an [`Angle`].
pub ghost enum AngleModel {
    PiTimes(Rat),
    Radians(Rat),
    DoubleAsinHalfPow { k: nat, neg: bool },
    DoubleAcosSqrt { arg: Rat, neg: bool },
}

impl View for Angle {
    type V = AngleModel;

    open spec fn view(&self) -> AngleModel {
        match *self {
            Angle::PiTimes(r) => AngleModel::PiTimes(r@),
            Angle::Radians(r) => AngleModel::Radians(r@),
            Angle::DoubleAsinHalfPow { k, neg } => AngleModel::DoubleAsinHalfPow {
                k: k as nat,
                neg,
            },
            Angle::DoubleAcosSqrt { arg, neg } => AngleModel::DoubleAcosSqrt { arg: arg@, neg },
        }
    }
}

/// Negation of an angle model.
pub open spec fn angle_model_neg(a: AngleModel) -> AngleModel {
    match a {
        AngleModel::PiTimes(r) => AngleModel::PiTimes(rat_neg(r)),
        AngleModel::Radians(r) => AngleModel::Radians(rat_neg(r)),
        AngleModel::DoubleAsinHalfPow { k, neg } => AngleModel::DoubleAsinHalfPow { k, neg: !neg },
        AngleModel::DoubleAcosSqrt { arg, neg } => AngleModel::DoubleAcosSqrt { arg, neg: !neg },
    }
}

/// Well-formedness of an angle: its rational part is well-formed.
pub open spec fn angle_wf(a: Angle) -> bool {
    match a {
        Angle::PiTimes(r) => r.wf(),
        Angle::Radians(r) => r.wf(),
        Angle::DoubleAsinHalfPow { .. } => true,
        Angle::DoubleAcosSqrt { arg, .. } => arg.wf(),
    }
}

impl Angle {
    /// The negated angle.
    pub fn neg(self) -> (r: Angle)
        requires
            angle_wf(self),
        ensures
            r@ == angle_model_neg(self@),
            angle_wf(r),
    {
        match self {
            Angle::PiTimes(r) => Angle::PiTimes(r.neg()),
            Angle::Radians(r) => Angle::Radians(r.neg()),
            Angle::DoubleAsinHalfPow { k, neg } => Angle::DoubleAsinHalfPow { k, neg: !neg },
            Angle::DoubleAcosSqrt { arg, neg } => Angle::DoubleAcosSqrt { arg, neg: !neg },
        }
    }
}

/// A quantum gate: the qubit indices it acts on and, where applicable, its
/// rotation angle.  The set of variants is closed; dispatch is by exhaustive
/// pattern matching.
#[derive(Clone, PartialEq, Debug)]
pub enum Gate {
    X(usize),
    Y(usize),
    Z(usize),
    H(usize),
    S(usize),
    Sdg(usize),
    CX(usize, usize),
    CY(usize, usize),
    CZ(usize, usize),
    SWAP(usize, usize),
    MCX(Vec<usize>, usize),
    RX(usize, Angle),
    RY(usize, Angle),
    RZ(usize, Angle),
    CRY(usize, usize, Angle),
    CRZ(usize, usize, Angle),
    RXX(usize, usize, Angle),
    RYY(usize, usize, Angle),
}

/// Mathematical model of a [`Gate`].
pub ghost enum GateModel {
    X(int),
    Y(int),
    Z(int),
    H(int),
    S(int),
    Sdg(int),
    CX(int, int),
    CY(int, int),
    CZ(int, int),
    SWAP(int, int),
    MCX(Seq<int>, int),
    RX(int, AngleModel),
    RY(int, AngleModel),
    RZ(int, AngleModel),
    CRY(int, int, AngleModel),
    CRZ(int, int, AngleModel),
    RXX(int, int, AngleModel),
    RYY(int, int, AngleModel),
}

/// Qubit indices as unbounded integers.
pub open spec fn qubits_model(s: Seq<usize>) -> Seq<int> {
    Seq::new(s.len(), |i: int| s[i] as int)
}

impl View for Gate {
    type V = GateModel;

    open spec fn view(&self) -> GateModel {
        match self {
            Gate::X(q) => GateModel::X(*q as int),
            Gate::Y(q) => GateModel::Y(*q as int),
            Gate::Z(q) => GateModel::Z(*q as int),
            Gate::H(q) => GateModel::H(*q as int),
            Gate::S(q) => GateModel::S(*q as int),
            Gate::Sdg(q) => GateModel::Sdg(*q as int),
            Gate::CX(c, t) => GateModel::CX(*c as int, *t as int),
            Gate::CY(c, t) => GateModel::CY(*c as int, *t as int),
            Gate::CZ(c, t) => GateModel::CZ(*c as int, *t as int),
            Gate::SWAP(a, b) => GateModel::SWAP(*a as int, *b as int),
            Gate::MCX(cs, t) => GateModel::MCX(qubits_model(cs@), *t as int),
            Gate::RX(q, a) => GateModel::RX(*q as int, a@),
            Gate::RY(q, a) => GateModel::RY(*q as int, a@),
            Gate::RZ(q, a) => GateModel::RZ(*q as int, a@),
            Gate::CRY(c, t, a) => GateModel::CRY(*c as int, *t as int, a@),
            Gate::CRZ(c, t, a) => GateModel::CRZ(*c as int, *t as int, a@),
            Gate::RXX(a, b, th) => GateModel::RXX(*a as int, *b as int, th@),
            Gate::RYY(a, b, th) => GateModel::RYY(*a as int, *b as int, th@),
        }
    }
}

/// Well-formedness of a gate: its angle, if any, is well-formed.
pub open spec fn gate_wf(g: Gate) -> bool {
    match g {
        Gate::RX(_, a) => angle_wf(a),
        Gate::RY(_, a) => angle_wf(a),
        Gate::RZ(_, a) => angle_wf(a),
        Gate::CRY(_, _, a) => angle_wf(a),
        Gate::CRZ(_, _, a) => angle_wf(a),
        Gate::RXX(_, _, a) => angle_wf(a),
        Gate::RYY(_, _, a) => angle_wf(a),
        _ => true,
    }
}

/// Every gate of the sequence is well-formed.
pub open spec fn circuit_wf(s: Seq<Gate>) -> bool {
    forall|i: int| 0 <= i < s.len() ==> gate_wf(#[trigger] s[i])
}

/// The qubit indices a gate model acts on, in gate order.
pub open spec fn gate_qubits(g: GateModel) -> Seq<int> {
    match g {
        GateModel::X(q) => seq![q],
        GateModel::Y(q) => seq![q],
        GateModel::Z(q) => seq![q],
        GateModel::H(q) => seq![q],
        GateModel::S(q) => seq![q],
        GateModel::Sdg(q) => seq![q],
        GateModel::CX(c, t) => seq![c, t],
        GateModel::CY(c, t) => seq![c, t],
        GateModel::CZ(c, t) => seq![c, t],
        GateModel::SWAP(a, b) => seq![a, b],
        GateModel::MCX(cs, t) => cs.push(t),
        GateModel::RX(q, _) => seq![q],
        GateModel::RY(q, _) => seq![q],
        GateModel::RZ(q, _) => seq![q],
        GateModel::CRY(c, t, _) => seq![c, t],
        GateModel::CRZ(c, t, _) => seq![c, t],
        GateModel::RXX(a, b, _) => seq![a, b],
        GateModel::RYY(a, b, _) => seq![a, b],
    }
}

/// The inverse (adjoint) of a gate model: Pauli, Hadamard, controlled-Pauli
/// and swap gates are self-inverse, the phase gate swaps with its adjoint,
/// and rotations negate their angle.
pub open spec fn gate_inverse(g: GateModel) -> GateModel {
    match g {
        GateModel::S(q) => GateModel::Sdg(q),
        GateModel::Sdg(q) => GateModel::S(q),
        GateModel::RX(q, a) => GateModel::RX(q, angle_model_neg(a)),
        GateModel::RY(q, a) => GateModel::RY(q, angle_model_neg(a)),
        GateModel::RZ(q, a) => GateModel::RZ(q, angle_model_neg(a)),
        GateModel::CRY(c, t, a) => GateModel::CRY(c, t, angle_model_neg(a)),
        GateModel::CRZ(c, t, a) => GateModel::CRZ(c, t, angle_model_neg(a)),
        GateModel::RXX(a, b, th) => GateModel::RXX(a, b, angle_model_neg(th)),
        GateModel::RYY(a, b, th) => GateModel::RYY(a, b, angle_model_neg(th)),
        _ => g,
    }
}

/// Copy a vector of qubit indices.
fn dup_qubit_vec(v: &Vec<usize>) -> (r: Vec<usize>)
    ensures
        r@ == v@,
{
    let mut out: Vec<usize> = Vec::new();
    let mut i: usize = 0;
    while i < v.len()
        invariant
            i <= v.len(),
            out@ == v@.subrange(0, i as int),
        decreases v.len() - i,
    {
        out.push(v[i]);
        i += 1;
    }
    assert(out@ =~= v@);
    out
}

/// Duplicate a gate value.  Fragments own their gates, so cutting copies
/// gates rather than sharing storage with the original circuit.
pub fn dup_gate(g: &Gate) -> (r: Gate)
    ensures
        r@ == g@,
        gate_wf(r) == gate_wf(*g),
{
    match g {
        Gate::X(q) => Gate::X(*q),
        Gate::Y(q) => Gate::Y(*q),
        Gate::Z(q) => Gate::Z(*q),
        Gate::H(q) => Gate::H(*q),
        Gate::S(q) => Gate::S(*q),
        Gate::Sdg(q) => Gate::Sdg(*q),
        Gate::CX(c, t) => Gate::CX(*c, *t),
        Gate::CY(c, t) => Gate::CY(*c, *t),
        Gate::CZ(c, t) => Gate::CZ(*c, *t),
        Gate::SWAP(a, b) => Gate::SWAP(*a, *b),
        Gate::MCX(cs, t) => Gate::MCX(dup_qubit_vec(cs), *t),
        Gate::RX(q, a) => Gate::RX(*q, *a),
        Gate::RY(q, a) => Gate::RY(*q, *a),
        Gate::RZ(q, a) => Gate::RZ(*q, *a),
        Gate::CRY(c, t, a) => Gate::CRY(*c, *t, *a),
        Gate::CRZ(c, t, a) => Gate::CRZ(*c, *t, *a),
        Gate::RXX(a, b, th) => Gate::RXX(*a, *b, *th),
        Gate::RYY(a, b, th) => Gate::RYY(*a, *b, *th),
    }
}

impl Gate {
    /// The qubit indices this gate acts on, in gate order.
    pub fn qubits(&self) -> (r: Vec<usize>)
        ensures
            r@.len() == gate_qubits(self@).len(),
            forall|i: int| 0 <= i < r@.len() ==> r@[i] as int == #[trigger] gate_qubits(self@)[i],
    {
        let mut out: Vec<usize> = Vec::new();
        match self {
            Gate::X(q) => { out.push(*q); },
            Gate::Y(q) => { out.push(*q); },
            Gate::Z(q) => { out.push(*q); },
            Gate::H(q) => { out.push(*q); },
            Gate::S(q) => { out.push(*q); },
            Gate::Sdg(q) => { out.push(*q); },
            Gate::CX(c, t) => { out.push(*c); out.push(*t); },
            Gate::CY(c, t) => { out.push(*c); out.push(*t); },
            Gate::CZ(c, t) => { out.push(*c); out.push(*t); },
            Gate::SWAP(a, b) => { out.push(*a); out.push(*b); },
            Gate::MCX(cs, t) => {
                out = dup_qubit_vec(cs);
                out.push(*t);
            },
            Gate::RX(q, _) => { out.push(*q); },
            Gate::RY(q, _) => { out.push(*q); },
            Gate::RZ(q, _) => { out.push(*q); },
            Gate::CRY(c, t, _) => { out.push(*c); out.push(*t); },
            Gate::CRZ(c, t, _) => { out.push(*c); out.push(*t); },
            Gate::RXX(a, b, _) => { out.push(*a); out.push(*b); },
            Gate::RYY(a, b, _) => { out.push(*a); out.push(*b); },
        }
        proof {
            assert(qubits_model(out@) =~= gate_qubits(self@));
            assert forall|i: int| 0 <= i < out@.len() implies out@[i] as int == #[trigger] gate_qubits(
                self@,
            )[i] by {
                assert(qubits_model(out@)[i] == out@[i] as int);
            }
        }
        out
    }

    /// The inverse (adjoint) gate.
    pub fn inverse(&self) -> (r: Gate)
        requires
            gate_wf(*self),
        ensures
            r@ == gate_inverse(self@),
            gate_wf(r),
    {
        match self {
            Gate::S(q) => Gate::Sdg(*q),
            Gate::Sdg(q) => Gate::S(*q),
            Gate::RX(q, a) => Gate::RX(*q, a.neg()),
            Gate::RY(q, a) => Gate::RY(*q, a.neg()),
            Gate::RZ(q, a) => Gate::RZ(*q, a.neg()),
            Gate::CRY(c, t, a) => Gate::CRY(*c, *t, a.neg()),
            Gate::CRZ(c, t, a) => Gate::CRZ(*c, *t, a.neg()),
            Gate::RXX(a, b, th) => Gate::RXX(*a, *b, th.neg()),
            Gate::RYY(a, b, th) => Gate::RYY(*a, *b, th.neg()),
            _ => dup_gate(self),
        }
    }
}

/// A complex amplitude with exact rational real and imaginary parts.
#[derive(Clone, Copy, PartialEq, Eq, Structural, Debug)]
pub struct Complex {
    pub re: Ratio,
    pub im: Ratio,
}

/// A sequence of gates as a sequence of their models.
pub open spec fn circuit_model(s: Seq<Gate>) -> Seq<GateModel> {
    Seq::new(s.len(), |i: int| s[i]@)
}

/// Mapping to models commutes with appending one gate.
pub broadcast proof fn lemma_circuit_model_push(s: Seq<Gate>, g: Gate)
    ensures
        #[trigger] circuit_model(s.push(g)) == circuit_model(s).push(g@),
{
    assert(circuit_model(s.push(g)) =~= circuit_model(s).push(g@));
}

/// Push one gate, keeping the model and well-formedness facts at hand.
pub fn push_gate(dst: &mut Vec<Gate>, g: Gate)
    ensures
        final(dst)@.len() == old(dst)@.len() + 1,
        circuit_model(final(dst)@) == circuit_model(old(dst)@).push(g@),
        circuit_wf(old(dst)@) && gate_wf(g) ==> circuit_wf(final(dst)@),
{
    let ghost orig = dst@;
    let ghost gg = g;
    dst.push(g);
    proof {
        lemma_circuit_model_push(orig, gg);
        if circuit_wf(orig) && gate_wf(gg) {
            assert forall|j: int| 0 <= j < dst@.len() implies gate_wf(#[trigger] dst@[j]) by {
                if j < orig.len() {
                    assert(dst@[j] == orig[j]);
                } else {
                    assert(dst@[j] == gg);
                }
            }
        }
    }
}

/// Append copies of the gates of `src` with indices in `lo .. hi` to `dst`.
pub fn append_gates_range(dst: &mut Vec<Gate>, src: &[Gate], lo: usize, hi: usize)
    requires
        lo <= hi <= src@.len(),
    ensures
        final(dst)@.len() == old(dst)@.len() + (hi - lo),
        circuit_model(final(dst)@) == circuit_model(old(dst)@) + circuit_model(
            src@.subrange(lo as int, hi as int),
        ),
        circuit_wf(old(dst)@) && circuit_wf(src@) ==> circuit_wf(final(dst)@),
{
    let ghost orig = dst@;
    let mut i: usize = lo;
    proof {
        assert(circuit_model(dst@) =~= circuit_model(orig) + circuit_model(
            src@.subrange(lo as int, lo as int),
        ));
    }
    while i < hi
        invariant
            lo <= i <= hi <= src@.len(),
            dst@.len() == orig.len() + (i - lo),
            circuit_model(dst@) == circuit_model(orig) + circuit_model(
                src@.subrange(lo as int, i as int),
            ),
            forall|j: int| 0 <= j < i - lo ==> gate_wf(#[trigger] dst@[orig.len() + j]) == gate_wf(
                src@[lo + j],
            ),
            forall|j: int| 0 <= j < orig.len() ==> #[trigger] dst@[j] == orig[j],
        decreases hi - i,
    {
        let g = dup_gate(&src[i]);
        let ghost before = dst@;
        dst.push(g);
        proof {
            let pre = src@.subrange(lo as int, i as int);
            assert(src@.subrange(lo as int, i + 1) =~= pre.push(src@[i as int]));
            lemma_circuit_model_push(pre, src@[i as int]);
            lemma_circuit_model_push(before, g);
            assert(circuit_model(src@.subrange(lo as int, i + 1)) =~= circuit_model(pre).push(
                src@[i as int]@,
            ));
            assert((circuit_model(orig) + circuit_model(pre)).push(src@[i as int]@)
                =~= circuit_model(orig) + circuit_model(pre).push(src@[i as int]@));
        }
        i += 1;
    }
    proof {
        if circuit_wf(orig) && circuit_wf(src@) {
            assert forall|k: int| 0 <= k < dst@.len() implies gate_wf(#[trigger] dst@[k]) by {
                if k < orig.len() {
                    assert(dst@[k] == orig[k]);
                } else {
                    let j = k - orig.len();
                    assert(gate_wf(dst@[orig.len() + j]) == gate_wf(src@[lo + j]));
                }
            }
        }
    }
}

/// Append copies of all gates of `src` to `dst`.
pub fn append_gates(dst: &mut Vec<Gate>, src: &[Gate])
    ensures
        final(dst)@.len() == old(dst)@.len() + src@.len(),
        circuit_model(final(dst)@) == circuit_model(old(dst)@) + circuit_model(src@),
        circuit_wf(old(dst)@) && circuit_wf(src@) ==> circuit_wf(final(dst)@),
{
    let ghost orig = dst@;
    let mut i: usize = 0;
    while i < src.len()
        invariant
            i <= src@.len(),
            dst@.len() == orig.len() + i,
            circuit_model(dst@) == circuit_model(orig) + circuit_model(src@.subrange(0, i as int)),
            forall|j: int| 0 <= j < i ==> gate_wf(#[trigger] dst@[orig.len() + j]) == gate_wf(
                src@[j],
            ),
            forall|j: int| 0 <= j < orig.len() ==> #[trigger] dst@[j] == orig[j],
        decreases src@.len() - i,
    {
        let g = dup_gate(&src[i]);
        let ghost before = dst@;
        dst.push(g);
        proof {
            let pre = src@.subrange(0, i as int);
            assert(src@.subrange(0, i + 1) =~= pre.push(src@[i as int]));
            lemma_circuit_model_push(pre, src@[i as int]);
            lemma_circuit_model_push(before, g);
            assert(circuit_model(src@.subrange(0, i + 1)) =~= circuit_model(pre).push(
                src@[i as int]@,
            ));
            assert((circuit_model(orig) + circuit_model(pre)).push(src@[i as int]@)
                =~= circuit_model(orig) + circuit_model(pre).push(src@[i as int]@));
        }
        i += 1;
    }
    proof {
        assert(src@.subrange(0, src@.len() as int) =~= src@);
        if circuit_wf(orig) && circuit_wf(src@) {
            assert forall|k: int| 0 <= k < dst@.len() implies gate_wf(#[trigger] dst@[k]) by {
                if k < orig.len() {
                    assert(dst@[k] == orig[k]);
                } else {
                    let j = k - orig.len();
                    assert(gate_wf(dst@[orig.len() + j]) == gate_wf(src@[j]));
                }
            }
        }
    }
}

} // verus!


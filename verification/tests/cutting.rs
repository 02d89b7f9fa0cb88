use rustiq::cutting::{
    cut_cnot, cut_two_qubit_gate, cut_wires, find_optimal_cuts, CutError, WireCut,
};
use rustiq::forging::{entanglement_forging, prepare_bitstring, ForgingConfig};
use rustiq::gates::Gate;
use rustiq::knitting::{estimate_cutting_overhead, estimate_shots, knit_results};
use rustiq::rational::Ratio;

fn as_f64(r: Ratio) -> f64 {
    r.num as f64 / r.den as f64
}

#[test]
fn test_cut_cnot() {
    let fragments = cut_cnot(0, 1);
    assert_eq!(fragments.len(), 4);

    // Coefficients should sum to 1 in absolute value
    let sum: f64 = fragments.iter().map(|(_, c)| as_f64(*c).abs()).sum();
    assert!((sum - 2.0).abs() < 1e-10); // 4 x 0.5
}

#[test]
fn test_cutting_overhead() {
    // 1 wire cut: overhead = 4
    assert!((estimate_cutting_overhead(1, 0) as f64 - 4.0).abs() < 1e-10);

    // 2 wire cuts: overhead = 16
    assert!((estimate_cutting_overhead(2, 0) as f64 - 16.0).abs() < 1e-10);
}

#[test]
fn test_knit_results() {
    let expectations = vec![
        Ratio::new(1, 2),
        Ratio::new(-1, 2),
        Ratio::new(3, 10),
        Ratio::new(-3, 10),
    ];
    let coefficients = vec![
        Ratio::new(1, 2),
        Ratio::new(1, 2),
        Ratio::new(1, 2),
        Ratio::new(-1, 2),
    ];

    let result = knit_results(&expectations, &coefficients).unwrap();
    // 0.5x0.5 + (-0.5)x0.5 + 0.3x0.5 + (-0.3)x(-0.5) = 0.25 - 0.25 + 0.15 + 0.15 = 0.3
    assert!((as_f64(result) - 0.3).abs() < 1e-10);
}

#[test]
fn test_prepare_bitstring() {
    let gates = prepare_bitstring(&[0, 1, 2, 3], 0b1010);
    // Bits 1 and 3 are set
    assert_eq!(gates.len(), 2);
}

#[test]
fn prepare_bitstring_targets_set_bits() {
    let gates = prepare_bitstring(&[0, 1, 2, 3], 0b1010);
    assert_eq!(gates, vec![Gate::X(1), Gate::X(3)]);
}

#[test]
fn prepare_bitstring_empty() {
    assert_eq!(prepare_bitstring(&[], 0b111).len(), 0);
    assert_eq!(prepare_bitstring(&[4, 5], 0).len(), 0);
}

#[test]
fn cut_cnot_exact_weights() {
    let fragments = cut_cnot(2, 7);
    let weights: Vec<Ratio> = fragments.iter().map(|(_, c)| *c).collect();
    assert_eq!(weights[0], Ratio::new(1, 2));
    assert_eq!(weights[1], Ratio::new(1, 2));
    assert_eq!(weights[2], Ratio::new(1, 2));
    assert_eq!(weights[3], Ratio::new(-1, 2));
    assert!(fragments[0].0.is_empty());
    assert_eq!(fragments[1].0, vec![Gate::Z(2), Gate::Z(7)]);
    assert_eq!(fragments[2].0, vec![Gate::X(2), Gate::X(7)]);
    assert_eq!(fragments[3].0, vec![Gate::Y(2), Gate::Y(7)]);
}

#[test]
fn cut_cz_weights_sum_to_one() {
    let terms = cut_two_qubit_gate(&Gate::CZ(0, 1));
    assert_eq!(terms.len(), 4);
    let sum: f64 = terms.iter().map(|(_, c)| as_f64(*c).abs()).sum();
    assert!((sum - 1.0).abs() < 1e-10);
}

#[test]
fn cut_swap_weights_sum_to_one() {
    let terms = cut_two_qubit_gate(&Gate::SWAP(3, 4));
    assert_eq!(terms.len(), 4);
    let sum: f64 = terms.iter().map(|(_, c)| as_f64(*c).abs()).sum();
    assert!((sum - 1.0).abs() < 1e-10);
}

#[test]
fn cut_unknown_gate_passes_through() {
    let terms = cut_two_qubit_gate(&Gate::H(5));
    assert_eq!(terms.len(), 1);
    assert_eq!(terms[0].0, vec![Gate::H(5)]);
    assert_eq!(terms[0].1, Ratio::new(1, 1));
}

#[test]
fn wire_cut_configuration_counts() {
    let circuit = vec![Gate::H(0), Gate::CX(0, 1), Gate::X(1)];

    // No cuts: a single configuration covering the whole circuit.
    let none = cut_wires(&circuit, &[]).unwrap();
    assert_eq!(none.len(), 1);
    assert_eq!(none[0].0, circuit);
    assert!(none[0].1.is_empty());
    assert_eq!(none[0].2, Ratio::new(1, 1));

    // One cut: 4 configurations of coefficient 1/2.
    let one = cut_wires(&circuit, &[WireCut { position: 2, qubit: 1 }]).unwrap();
    assert_eq!(one.len(), 4);
    for (_, _, c) in &one {
        assert_eq!(*c, Ratio::new(1, 2));
    }
    let sum: f64 = one.iter().map(|(_, _, c)| as_f64(*c).abs()).sum();
    assert!((sum - 2.0).abs() < 1e-10);

    // Two cuts: 16 configurations of coefficient 1/4, summing to 4.
    let cuts = [
        WireCut { position: 2, qubit: 1 },
        WireCut { position: 2, qubit: 0 },
    ];
    let two = cut_wires(&circuit, &cuts).unwrap();
    assert_eq!(two.len(), 16);
    for (_, _, c) in &two {
        assert_eq!(*c, Ratio::new(1, 4));
    }
    let sum2: f64 = two.iter().map(|(_, _, c)| as_f64(*c).abs()).sum();
    assert!((sum2 - 4.0).abs() < 1e-10);
}

#[test]
fn wire_cut_fragments_split_at_first_cut() {
    let circuit = vec![Gate::H(0), Gate::CX(0, 1), Gate::X(1)];
    let frags = cut_wires(&circuit, &[WireCut { position: 2, qubit: 1 }]).unwrap();
    // Configuration 0 prepares |0> and measures Z: no extra operations.
    assert_eq!(frags[0].0, vec![Gate::H(0), Gate::CX(0, 1)]);
    assert_eq!(frags[0].1, vec![Gate::X(1)]);
    // Configuration 1 prepares |1>: a bit flip before the cut.
    assert_eq!(frags[1].0, vec![Gate::H(0), Gate::CX(0, 1), Gate::X(1)]);
    assert_eq!(frags[1].1, vec![Gate::X(1)]);
    // Configuration 2 prepares |+> and measures X: Hadamards on both sides.
    assert_eq!(frags[2].0, vec![Gate::H(0), Gate::CX(0, 1), Gate::H(1)]);
    assert_eq!(frags[2].1, vec![Gate::H(1), Gate::X(1)]);
    // Configuration 3 prepares the +i eigenstate of Y and measures Y.
    assert_eq!(
        frags[3].0,
        vec![Gate::H(0), Gate::CX(0, 1), Gate::H(1), Gate::S(1)]
    );
    assert_eq!(frags[3].1, vec![Gate::Sdg(1), Gate::H(1), Gate::X(1)]);
}

#[test]
fn wire_cut_invalid_position_fails() {
    let circuit = vec![Gate::H(0)];
    let r = cut_wires(&circuit, &[WireCut { position: 2, qubit: 0 }]);
    assert_eq!(r, Err(CutError::InvalidCut));
}

#[test]
fn wire_cut_untouched_qubit_fails() {
    let circuit = vec![Gate::H(0), Gate::X(0)];
    let r = cut_wires(&circuit, &[WireCut { position: 1, qubit: 3 }]);
    assert_eq!(r, Err(CutError::InvalidCut));
}

#[test]
fn find_optimal_cuts_fitting_circuit_returns_empty() {
    // Total qubit count 2 fits a budget of 4: no cuts.
    let circuit = vec![Gate::H(0), Gate::CX(0, 1)];
    let cuts = find_optimal_cuts(&circuit, 4);
    assert!(cuts.is_empty());
}

#[test]
fn find_optimal_cuts_proposes_cut_after_two_qubit_gate() {
    // Six qubits against a budget of four: the greedy pass cuts just after
    // the first two-qubit gate, on its second qubit.
    let circuit = vec![Gate::H(5), Gate::CX(0, 1), Gate::CX(2, 3)];
    let cuts = find_optimal_cuts(&circuit, 4);
    assert_eq!(cuts, vec![WireCut { position: 2, qubit: 1 }]);
}

#[test]
fn knit_results_length_mismatch() {
    let e = vec![Ratio::new(1, 2)];
    let c = vec![Ratio::new(1, 2), Ratio::new(1, 2)];
    assert_eq!(knit_results(&e, &c), Err(CutError::DimensionMismatch));
}

#[test]
fn knit_results_overflow() {
    let big = Ratio::new(i64::MAX, 1);
    let e = vec![big];
    let c = vec![big];
    assert_eq!(knit_results(&e, &c), Err(CutError::ArithmeticOverflow));
}

#[test]
fn knit_results_exact_value() {
    let e = vec![Ratio::new(3, 10)];
    let c = vec![Ratio::new(1, 2)];
    let r = knit_results(&e, &c).unwrap();
    assert!(r.same_value(Ratio::new(3, 20)));
}

#[test]
fn overhead_values() {
    assert_eq!(estimate_cutting_overhead(1, 0), 4);
    assert_eq!(estimate_cutting_overhead(2, 0), 16);
    assert_eq!(estimate_cutting_overhead(0, 1), 3);
    assert_eq!(estimate_cutting_overhead(0, 0), 1);
    assert_eq!(estimate_cutting_overhead(2, 3), 16 * 27);
}

#[test]
fn shots_scale_with_overhead_and_precision() {
    // precision 1/10 at overhead 4: (4 / 0.1)^2 = 1600 shots.
    assert_eq!(estimate_shots(Ratio::new(1, 10), 4), 1600);
    // precision 1/2 at overhead 3: (3 * 2)^2 = 36 shots.
    assert_eq!(estimate_shots(Ratio::new(1, 2), 3), 36);
    // a truncating case: (5 / 2)^2 = 6.25, floored to 6.
    assert_eq!(estimate_shots(Ratio::new(2, 1), 5), 6);
}

#[test]
fn forging_stops_at_shortest_sequence() {
    let config = ForgingConfig {
        system_a_qubits: vec![0, 1],
        system_b_qubits: vec![2, 3],
        schmidt_coefficients: vec![Ratio::new(1, 2), Ratio::new(1, 3), Ratio::new(1, 4)],
        bitstrings_a: vec![0b01, 0b10],
        bitstrings_b: vec![0b11, 0b00, 0b01, 0b10],
    };
    let triples = entanglement_forging(
        |_k: usize| vec![Gate::H(0)],
        |_k: usize| vec![Gate::H(2)],
        &config,
    );
    assert_eq!(triples.len(), 2);
    // Weights are the squared Schmidt coefficients.
    assert!(triples[0].2.same_value(Ratio::new(1, 4)));
    assert!(triples[1].2.same_value(Ratio::new(1, 9)));
    // Circuit A of term 0: bit flip of 0b01 over [0, 1] then the ansatz.
    assert_eq!(triples[0].0, vec![Gate::X(0), Gate::H(0)]);
    // Circuit B of term 0: bit flip of 0b11 over [2, 3] then the ansatz.
    assert_eq!(triples[0].1, vec![Gate::X(2), Gate::X(3), Gate::H(2)]);
}

#[test]
fn forging_equal_lengths_uses_all_terms() {
    let config = ForgingConfig {
        system_a_qubits: vec![0],
        system_b_qubits: vec![1],
        schmidt_coefficients: vec![Ratio::new(1, 1)],
        bitstrings_a: vec![1],
        bitstrings_b: vec![1],
    };
    let triples = entanglement_forging(
        |_k: usize| Vec::new(),
        |_k: usize| Vec::new(),
        &config,
    );
    assert_eq!(triples.len(), 1);
    assert_eq!(triples[0].0, vec![Gate::X(0)]);
    assert_eq!(triples[0].1, vec![Gate::X(1)]);
    assert!(triples[0].2.same_value(Ratio::new(1, 1)));
}

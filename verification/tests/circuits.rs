use rustiq::decoders::{belief_propagation_decode, mwpm_decode};
use rustiq::gates::{Angle, Complex, Gate};
use rustiq::lattice_surgery::{lattice_surgery_merge_z, lattice_surgery_split_z};
use rustiq::ldpc::hypergraph_product_code_syndrome;
use rustiq::linear_systems::{hhl_circuit, make_controlled, qsvt_step};
use rustiq::qram::{bucket_brigade_qram, fan_out_qram};
use rustiq::quantum_walk::{ctqw_trotter, dtqw_circuit, dtqw_step_line, CoinOperator};
use rustiq::rational::Ratio;
use rustiq::simulations::{lcu_simulation, trotter_first_order, trotter_second_order};
use rustiq::state_preparation::{grover_rudolph_prep, isometry_state_prep};
use rustiq::quantum_walk::szegedy_reflection;
use rustiq::zx_calculus::{apply_pivot_rule, spider_fusion};

#[test]
fn gate_qubits_enumeration() {
    assert_eq!(Gate::X(3).qubits(), vec![3]);
    assert_eq!(Gate::CX(1, 2).qubits(), vec![1, 2]);
    assert_eq!(Gate::MCX(vec![0, 1], 5).qubits(), vec![0, 1, 5]);
    assert_eq!(
        Gate::RXX(4, 6, Angle::Radians(Ratio::new(1, 1))).qubits(),
        vec![4, 6]
    );
}

#[test]
fn gate_inverse_rules() {
    assert_eq!(Gate::S(0).inverse(), Gate::Sdg(0));
    assert_eq!(Gate::Sdg(0).inverse(), Gate::S(0));
    assert_eq!(Gate::CX(0, 1).inverse(), Gate::CX(0, 1));
    assert_eq!(
        Gate::RZ(0, Angle::PiTimes(Ratio::new(1, 2))).inverse(),
        Gate::RZ(0, Angle::PiTimes(Ratio::new(-1, 2)))
    );
    assert_eq!(
        Gate::CRY(0, 1, Angle::DoubleAsinHalfPow { k: 2, neg: false }).inverse(),
        Gate::CRY(0, 1, Angle::DoubleAsinHalfPow { k: 2, neg: true })
    );
}

#[test]
fn spider_fusion_merges_adjacent_rotations() {
    let circuit = vec![
        Gate::RZ(0, Angle::PiTimes(Ratio::new(1, 4))),
        Gate::RZ(0, Angle::PiTimes(Ratio::new(1, 4))),
        Gate::H(1),
    ];
    let fused = spider_fusion(&circuit);
    assert_eq!(fused.len(), 2);
    match &fused[0] {
        Gate::RZ(0, Angle::PiTimes(r)) => assert!(r.same_value(Ratio::new(1, 2))),
        other => panic!("unexpected gate {:?}", other),
    }
    assert_eq!(fused[1], Gate::H(1));
}

#[test]
fn spider_fusion_keeps_unrelated_gates() {
    let circuit = vec![
        Gate::RZ(0, Angle::PiTimes(Ratio::new(1, 4))),
        Gate::RZ(1, Angle::PiTimes(Ratio::new(1, 4))),
        Gate::RX(2, Angle::Radians(Ratio::new(1, 3))),
        Gate::RX(2, Angle::Radians(Ratio::new(1, 6))),
    ];
    let fused = spider_fusion(&circuit);
    assert_eq!(fused.len(), 3);
    assert_eq!(fused[0], Gate::RZ(0, Angle::PiTimes(Ratio::new(1, 4))));
    assert_eq!(fused[1], Gate::RZ(1, Angle::PiTimes(Ratio::new(1, 4))));
    match &fused[2] {
        Gate::RX(2, Angle::Radians(r)) => assert!(r.same_value(Ratio::new(1, 2))),
        other => panic!("unexpected gate {:?}", other),
    }
}

#[test]
fn pivot_rule_is_identity_on_gate_lists() {
    let mut graph = vec![Gate::H(0), Gate::CX(0, 1)];
    apply_pivot_rule(&mut graph);
    assert_eq!(graph, vec![Gate::H(0), Gate::CX(0, 1)]);
}

#[test]
fn merge_z_entangles_boundaries() {
    let gates = lattice_surgery_merge_z(&[0, 1], &[2, 3], &[4, 5]);
    assert_eq!(
        gates,
        vec![
            Gate::CX(0, 4),
            Gate::CX(1, 5),
            Gate::CX(2, 4),
            Gate::CX(3, 5),
        ]
    );
}

#[test]
fn split_z_is_a_hadamard_layer() {
    assert_eq!(
        lattice_surgery_split_z(&[7, 8]),
        vec![Gate::H(7), Gate::H(8)]
    );
}

#[test]
fn hypergraph_syndrome_extraction() {
    let h1 = vec![vec![0usize, 1], vec![1usize]];
    let h2: Vec<Vec<usize>> = Vec::new();
    let gates = hypergraph_product_code_syndrome(&h1, &h2, &[10, 11], &[20, 21]);
    assert_eq!(
        gates,
        vec![Gate::CX(10, 20), Gate::CX(11, 20), Gate::CX(11, 21)]
    );
}

#[test]
fn hypergraph_out_of_range_entries_are_skipped() {
    let h1 = vec![vec![0usize, 9]];
    let h2: Vec<Vec<usize>> = Vec::new();
    let gates = hypergraph_product_code_syndrome(&h1, &h2, &[10], &[20]);
    assert_eq!(gates, vec![Gate::CX(10, 20)]);
}

#[test]
fn mwpm_collects_fired_syndromes() {
    let graph: Vec<(usize, usize, Ratio)> = Vec::new();
    assert_eq!(mwpm_decode(&[true, false, true, true], &graph), vec![0, 2, 3]);
    assert_eq!(mwpm_decode(&[], &graph), Vec::<usize>::new());
}

#[test]
fn belief_propagation_returns_priors() {
    let pcm: Vec<Vec<Ratio>> = Vec::new();
    let probs = belief_propagation_decode(&[Ratio::new(1, 1), Ratio::new(0, 1)], &pcm, 5);
    assert_eq!(probs.len(), 2);
    assert_eq!(probs[0], Ratio::new(1, 2));
    assert_eq!(probs[1], Ratio::new(1, 2));
}

#[test]
fn bucket_brigade_structure() {
    let gates = bucket_brigade_qram(&[0], &[vec![1, 2]], &[3]);
    assert_eq!(
        gates,
        vec![
            // activation
            Gate::CX(0, 1),
            Gate::CX(0, 2),
            // readout from the last layer
            Gate::CX(1, 3),
            Gate::CX(2, 3),
            // uncompute
            Gate::CX(0, 1),
            Gate::CX(0, 2),
        ]
    );
}

#[test]
fn fan_out_is_address_major() {
    let gates = fan_out_qram(&[0, 1], &[5, 6]);
    assert_eq!(
        gates,
        vec![
            Gate::CX(0, 5),
            Gate::CX(0, 6),
            Gate::CX(1, 5),
            Gate::CX(1, 6),
        ]
    );
}

#[test]
fn grover_rudolph_rotation_pattern() {
    let probs = vec![Ratio::new(1, 4), Ratio::new(3, 4)];
    let gates = grover_rudolph_prep(&probs, &[0, 1, 2]);
    let theta = Angle::Radians(Ratio::new(1, 1));
    assert_eq!(
        gates,
        vec![
            Gate::RY(0, theta),
            Gate::CRY(0, 1, theta),
            Gate::CRY(0, 2, theta),
            Gate::CRY(1, 2, theta),
        ]
    );
}

#[test]
fn isometry_prep_is_a_hadamard_layer() {
    let amps = vec![Complex { re: Ratio::new(1, 1), im: Ratio::new(0, 1) }];
    assert_eq!(
        isometry_state_prep(&amps, &[0, 1]),
        vec![Gate::H(0), Gate::H(1)]
    );
}

#[test]
fn trotter_first_order_repeats_terms() {
    let terms = vec![vec![Gate::X(0)], vec![Gate::Z(1)]];
    let gates = trotter_first_order(&terms, Ratio::new(1, 1), 2);
    assert_eq!(
        gates,
        vec![Gate::X(0), Gate::Z(1), Gate::X(0), Gate::Z(1)]
    );
}

#[test]
fn trotter_second_order_is_symmetric() {
    let gates = trotter_second_order(&[Gate::X(0)], &[Gate::Z(1)], Ratio::new(1, 1), 1);
    assert_eq!(gates, vec![Gate::X(0), Gate::Z(1), Gate::X(0)]);
}

#[test]
fn lcu_uncomputes_prepare() {
    let gates = lcu_simulation(&[Gate::S(0)], &[Gate::X(1)], 1);
    assert_eq!(gates, vec![Gate::S(0), Gate::X(1), Gate::Sdg(0)]);
}

#[test]
fn make_controlled_rules() {
    assert_eq!(make_controlled(0, &Gate::X(1)), vec![Gate::CX(0, 1)]);
    assert_eq!(make_controlled(0, &Gate::Z(1)), vec![Gate::CZ(0, 1)]);
    assert_eq!(
        make_controlled(0, &Gate::H(1)),
        vec![
            Gate::CRY(0, 1, Angle::PiTimes(Ratio::new(1, 2))),
            Gate::CZ(0, 1),
        ]
    );
    // The fallback keeps an unknown gate uncontrolled.
    assert_eq!(make_controlled(0, &Gate::SWAP(1, 2)), vec![Gate::SWAP(1, 2)]);
}

#[test]
fn hhl_single_clock_qubit() {
    let evolution = vec![Gate::X(1)];
    let qft: Vec<Gate> = Vec::new();
    let gates = hhl_circuit(evolution, &[0], &[1], 2, &qft);
    assert_eq!(
        gates,
        vec![
            Gate::H(0),
            Gate::CX(0, 1),
            Gate::CRY(0, 2, Angle::DoubleAsinHalfPow { k: 0, neg: false }),
            Gate::CX(0, 1),
            Gate::H(0),
        ]
    );
}

#[test]
fn hhl_doubles_evolution_repetitions() {
    let evolution = vec![Gate::Z(2)];
    let qft = vec![Gate::H(0), Gate::H(1)];
    let gates = hhl_circuit(evolution, &[0, 1], &[2], 3, &qft);
    // Clock qubit 0 controls 1 repetition, clock qubit 1 controls 2.
    let expected = vec![
        Gate::H(0),
        Gate::H(1),
        Gate::CZ(0, 2),
        Gate::CZ(1, 2),
        Gate::CZ(1, 2),
        Gate::H(0),
        Gate::H(1),
        Gate::CRY(0, 3, Angle::DoubleAsinHalfPow { k: 0, neg: false }),
        Gate::CRY(1, 3, Angle::DoubleAsinHalfPow { k: 1, neg: false }),
        Gate::H(0),
        Gate::H(1),
        Gate::CZ(1, 2),
        Gate::CZ(1, 2),
        Gate::CZ(0, 2),
        Gate::H(0),
        Gate::H(1),
    ];
    assert_eq!(gates, expected);
}

#[test]
fn qsvt_step_concatenates() {
    let gates = qsvt_step(&[Gate::X(0)], &[Gate::Z(1)], Ratio::new(1, 1));
    assert_eq!(gates, vec![Gate::Z(1), Gate::X(0)]);
}

#[test]
fn dtqw_single_position_qubit() {
    let gates = dtqw_step_line(0, &[1], &CoinOperator::Hadamard);
    assert_eq!(
        gates,
        vec![
            Gate::H(0),
            Gate::CX(0, 1),
            Gate::X(0),
            Gate::CX(0, 1),
            Gate::X(0),
        ]
    );
}

#[test]
fn dtqw_uses_multi_controlled_increments() {
    let gates = dtqw_step_line(0, &[1, 2], &CoinOperator::Grover);
    assert_eq!(
        gates,
        vec![
            Gate::H(0),
            Gate::Z(0),
            Gate::H(0),
            Gate::MCX(vec![0, 1], 2),
            Gate::CX(0, 1),
            Gate::X(0),
            Gate::MCX(vec![0, 1], 2),
            Gate::CX(0, 1),
            Gate::X(0),
        ]
    );
}

#[test]
fn dtqw_circuit_repeats_steps() {
    let one = dtqw_step_line(0, &[1], &CoinOperator::DFT);
    let two = dtqw_circuit(0, &[1], &CoinOperator::DFT, 2);
    assert_eq!(two.len(), 2 * one.len());
    assert_eq!(&two[..one.len()], &one[..]);
    assert_eq!(&two[one.len()..], &one[..]);
}

#[test]
fn ctqw_emits_hopping_pairs() {
    let adjacency = vec![vec![false, true], vec![false, false]];
    let gates = ctqw_trotter(&adjacency, &[5, 6], Ratio::new(1, 1), 2);
    let dt = Angle::Radians(Ratio { num: 1, den: 2 });
    assert_eq!(
        gates,
        vec![
            Gate::RXX(5, 6, dt),
            Gate::RYY(5, 6, dt),
            Gate::RXX(5, 6, dt),
            Gate::RYY(5, 6, dt),
        ]
    );
}

#[test]
fn szegedy_reflection_structure() {
    let matrix = vec![
        vec![Ratio::new(0, 1), Ratio::new(1, 2)],
        vec![Ratio::new(1, 2), Ratio::new(0, 1)],
    ];
    let gates = szegedy_reflection(&matrix, &[0, 1], &[2, 3]);
    assert_eq!(
        gates,
        vec![
            Gate::CRY(0, 3, Angle::DoubleAcosSqrt { arg: Ratio::new(1, 2), neg: false }),
            Gate::CRY(1, 2, Angle::DoubleAcosSqrt { arg: Ratio::new(1, 2), neg: false }),
            Gate::H(2),
            Gate::X(2),
            Gate::H(3),
            Gate::X(3),
            Gate::MCX(vec![2], 3),
            Gate::X(2),
            Gate::H(2),
            Gate::X(3),
            Gate::H(3),
        ]
    );
}

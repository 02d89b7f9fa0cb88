//! Quantum walks: discrete-time coined walks, continuous-time walks by
//! Trotterization, and the Szegedy walk reflection.

use vstd::prelude::*;
use crate::rational::{Rat, Ratio};
use crate::gates::{
    Angle, AngleModel, Gate, GateModel, circuit_model, push_gate, append_gates,
};
use crate::simulations::repeated_steps;

verus! {

/// Coin operators for discrete quantum walks.
#[derive(Clone, Copy, PartialEq, Eq, Structural, Debug)]
pub enum CoinOperator {
    /// Hadamard coin (balanced).
    Hadamard,
    /// Grover diffusion coin.
    Grover,
    /// Discrete Fourier transform coin.
    DFT,
    /// Biased coin with a rotation parameter.
    Biased(Angle),
}

/// The gates of one coin operator application.
pub open spec fn coin_ops(q: int, coin: CoinOperator) -> Seq<GateModel> {
    match coin {
        CoinOperator::Hadamard => seq![GateModel::H(q)],
        CoinOperator::Grover => seq![GateModel::H(q), GateModel::Z(q), GateModel::H(q)],
        CoinOperator::DFT => seq![GateModel::H(q)],
        CoinOperator::Biased(theta) => seq![GateModel::RY(q, theta@)],
    }
}

fn coin_operator(coin_qubit: usize, coin: &CoinOperator) -> (r: Vec<Gate>)
    ensures
        circuit_model(r@) == coin_ops(coin_qubit as int, *coin),
{
    let mut gates: Vec<Gate> = Vec::new();
    match coin {
        CoinOperator::Hadamard => push_gate(&mut gates, Gate::H(coin_qubit)),
        CoinOperator::Grover => {
            push_gate(&mut gates, Gate::H(coin_qubit));
            push_gate(&mut gates, Gate::Z(coin_qubit));
            push_gate(&mut gates, Gate::H(coin_qubit));
        },
        CoinOperator::DFT => push_gate(&mut gates, Gate::H(coin_qubit)),
        CoinOperator::Biased(theta) => push_gate(&mut gates, Gate::RY(coin_qubit, *theta)),
    }
    proof {
        assert(circuit_model(gates@) =~= coin_ops(coin_qubit as int, *coin));
    }
    gates
}

/// The first `i` position-register indices as unbounded integers.
pub open spec fn index_model(pos: Seq<usize>, i: int) -> Seq<int>
    decreases i,
{
    if i <= 0 {
        Seq::<int>::empty()
    } else {
        index_model(pos, i - 1).push(pos[i - 1] as int)
    }
}

/// The conditional-increment gate at position bit `i`: a plain `CX` from
/// the coin at the lowest bit, and a multi-controlled X (controlled by the
/// coin and all lower position bits) above it.
pub open spec fn shift_step_gate(coin: int, pos: Seq<usize>, i: int) -> GateModel {
    if i == 0 {
        GateModel::CX(coin, pos[0] as int)
    } else {
        GateModel::MCX(seq![coin] + index_model(pos, i), pos[i] as int)
    }
}

/// The first `t` gates of a conditional shift, which walks the position
/// bits from the highest down to the lowest.
pub open spec fn shift_ops(coin: int, pos: Seq<usize>, t: int) -> Seq<GateModel>
    decreases t,
{
    if t <= 0 {
        Seq::<GateModel>::empty()
    } else {
        shift_ops(coin, pos, t - 1).push(shift_step_gate(coin, pos, pos.len() - t))
    }
}

/// One full step of the coined walk on a line: the coin operator, the
/// shift right when the coin is set, and (conjugated by X on the coin) the
/// shift left when it is clear.
pub open spec fn dtqw_step_ops(coin_qubit: int, pos: Seq<usize>, coin: CoinOperator) -> Seq<
    GateModel,
> {
    coin_ops(coin_qubit, coin) + shift_ops(coin_qubit, pos, pos.len() as int) + seq![
        GateModel::X(coin_qubit),
    ] + shift_ops(coin_qubit, pos, pos.len() as int) + seq![GateModel::X(coin_qubit)]
}

/// Emit the conditional shift over the whole position register.
fn emit_shift(gates: &mut Vec<Gate>, coin_qubit: usize, position_qubits: &[usize])
    ensures
        circuit_model(final(gates)@) == circuit_model(old(gates)@) + shift_ops(
            coin_qubit as int,
            position_qubits@,
            position_qubits@.len() as int,
        ),
{
    let ghost start = gates@;
    let ghost pos = position_qubits@;
    let n = position_qubits.len();
    let mut t: usize = 0;
    proof {
        assert(circuit_model(gates@) =~= circuit_model(start) + shift_ops(
            coin_qubit as int,
            pos,
            0,
        ));
    }
    while t < n
        invariant
            t <= n,
            n == pos.len(),
            pos == position_qubits@,
            circuit_model(gates@) == circuit_model(start) + shift_ops(
                coin_qubit as int,
                pos,
                t as int,
            ),
        decreases n - t,
    {
        let i = n - 1 - t;
        if i == 0 {
            push_gate(gates, Gate::CX(coin_qubit, position_qubits[0]));
        } else {
            let mut controls: Vec<usize> = Vec::new();
            controls.push(coin_qubit);
            let mut p: usize = 0;
            while p < i
                invariant
                    p <= i < pos.len(),
                    pos == position_qubits@,
                    controls@.len() == p + 1,
                    controls@[0] == coin_qubit,
                    forall|x: int| 0 <= x < p ==> #[trigger] controls@[x + 1] == pos[x],
                decreases i - p,
            {
                controls.push(position_qubits[p]);
                p += 1;
            }
            let ghost cm_controls = crate::gates::qubits_model(controls@);
            proof {
                assert(cm_controls =~= seq![coin_qubit as int] + index_model(pos, i as int)) by {
                    lemma_index_model_elems(pos, i as int);
                    assert forall|x: int|
                        0 <= x < cm_controls.len() implies cm_controls[x] == (seq![
                        coin_qubit as int,
                    ] + index_model(pos, i as int))[x] by {
                        assert(cm_controls[x] == controls@[x] as int);
                        if x > 0 {
                            assert(controls@[(x - 1) + 1] == pos[x - 1]);
                            assert(index_model(pos, i as int)[x - 1] == pos[x - 1] as int);
                        }
                    }
                }
            }
            push_gate(gates, Gate::MCX(controls, position_qubits[i]));
        }
        proof {
            assert(pos.len() - (t as int + 1) == i as int);
            assert((circuit_model(start) + shift_ops(coin_qubit as int, pos, t as int)).push(
                shift_step_gate(coin_qubit as int, pos, i as int),
            ) =~= circuit_model(start) + shift_ops(coin_qubit as int, pos, t as int + 1));
        }
        t += 1;
    }
}

/// The elements of the index model are the position indices.
proof fn lemma_index_model_elems(pos: Seq<usize>, i: int)
    requires
        i <= pos.len(),
    ensures
        index_model(pos, i).len() == if i <= 0 {
            0
        } else {
            i
        },
        forall|x: int| 0 <= x < i ==> #[trigger] index_model(pos, i)[x] == pos[x] as int,
    decreases i,
{
    if i > 0 {
        lemma_index_model_elems(pos, i - 1);
        assert forall|x: int| 0 <= x < i implies #[trigger] index_model(pos, i)[x] == pos[x]
            as int by {
            if x < i - 1 {
                assert(index_model(pos, i - 1)[x] == pos[x] as int);
            }
        }
    }
}

/// One step of the discrete-time quantum walk on a line: coin, conditional
/// shift right, and (conjugated by a coin flip) conditional shift left.
pub fn dtqw_step_line(
    coin_qubit: usize,
    position_qubits: &[usize],
    coin: &CoinOperator,
) -> (r: Vec<Gate>)
    ensures
        circuit_model(r@) == dtqw_step_ops(coin_qubit as int, position_qubits@, *coin),
{
    let mut gates = coin_operator(coin_qubit, coin);
    emit_shift(&mut gates, coin_qubit, position_qubits);
    push_gate(&mut gates, Gate::X(coin_qubit));
    emit_shift(&mut gates, coin_qubit, position_qubits);
    push_gate(&mut gates, Gate::X(coin_qubit));
    proof {
        assert(circuit_model(gates@) =~= dtqw_step_ops(
            coin_qubit as int,
            position_qubits@,
            *coin,
        ));
    }
    gates
}

/// A multi-step walk circuit: `steps` repetitions of the single step.
pub fn dtqw_circuit(
    coin_qubit: usize,
    position_qubits: &[usize],
    coin: &CoinOperator,
    steps: usize,
) -> (r: Vec<Gate>)
    ensures
        circuit_model(r@) == repeated_steps(
            dtqw_step_ops(coin_qubit as int, position_qubits@, *coin),
            steps as int,
        ),
{
    let mut gates: Vec<Gate> = Vec::new();
    let ghost step = dtqw_step_ops(coin_qubit as int, position_qubits@, *coin);
    let mut s: usize = 0;
    proof {
        assert(circuit_model(gates@) =~= repeated_steps(step, 0));
    }
    while s < steps
        invariant
            s <= steps,
            step == dtqw_step_ops(coin_qubit as int, position_qubits@, *coin),
            circuit_model(gates@) == repeated_steps(step, s as int),
        decreases steps - s,
    {
        let one = dtqw_step_line(coin_qubit, position_qubits, coin);
        append_gates(&mut gates, one.as_slice());
        proof {
            assert(repeated_steps(step, s as int) + step =~= repeated_steps(step, s as int + 1));
        }
        s += 1;
    }
    gates
}

/// The hopping-interaction gates of row `i` against the first `j` columns:
/// an `RXX` and an `RYY` rotation by `dt` for every present edge `(i, t)`
/// with `i < t < j` whose endpoints have register qubits.
pub open spec fn hop_row(
    adj: Seq<Vec<bool>>,
    nodes: Seq<usize>,
    dt: AngleModel,
    i: int,
    j: int,
) -> Seq<GateModel>
    decreases j - i,
{
    if j <= i + 1 {
        Seq::<GateModel>::empty()
    } else {
        hop_row(adj, nodes, dt, i, j - 1) + (if adj[i]@[j - 1] && i < nodes.len() && j - 1
            < nodes.len() {
            seq![
                GateModel::RXX(nodes[i] as int, nodes[j - 1] as int, dt),
                GateModel::RYY(nodes[i] as int, nodes[j - 1] as int, dt),
            ]
        } else {
            Seq::<GateModel>::empty()
        })
    }
}

/// The hopping gates of the first `i` rows.
pub open spec fn hop_rows(
    adj: Seq<Vec<bool>>,
    nodes: Seq<usize>,
    dt: AngleModel,
    i: int,
) -> Seq<GateModel>
    decreases i,
{
    if i <= 0 {
        Seq::<GateModel>::empty()
    } else {
        hop_rows(adj, nodes, dt, i - 1) + hop_row(adj, nodes, dt, i - 1, adj.len() as int)
    }
}

/// Approximate a continuous-time quantum walk by Trotterization: for each
/// Trotter step, an `RXX` plus `RYY` hopping interaction of exact angle
/// `time / trotter_steps` radians for every edge of the adjacency matrix.
pub fn ctqw_trotter(
    adjacency: &[Vec<bool>],
    node_qubits: &[usize],
    time: Ratio,
    trotter_steps: usize,
) -> (r: Vec<Gate>)
    requires
        time.wf(),
        trotter_steps >= 1,
        time.den * trotter_steps <= i64::MAX as int,
        forall|i: int|
            0 <= i < adjacency@.len() ==> (#[trigger] adjacency@[i])@.len() == adjacency@.len(),
    ensures
        circuit_model(r@) == repeated_steps(
            hop_rows(
                adjacency@,
                node_qubits@,
                AngleModel::Radians(
                    Rat { num: time.num as int, den: time.den as int * trotter_steps as int },
                ),
                adjacency@.len() as int,
            ),
            trotter_steps as int,
        ),
{
    proof {
        assert(trotter_steps as int <= i64::MAX as int) by (nonlinear_arith)
            requires
                time.den >= 1,
                time.den * trotter_steps <= i64::MAX as int,
                trotter_steps >= 1,
        ;
    }
    let ts: i64 = trotter_steps as i64;
    proof {
        assert(time.den * ts > 0) by (nonlinear_arith)
            requires
                time.den > 0,
                ts >= 1,
        ;
    }
    let dt = Angle::Radians(Ratio { num: time.num, den: time.den * ts });
    let ghost dtm = dt@;
    let ghost adj = adjacency@;
    let ghost nodes = node_qubits@;
    let n = adjacency.len();
    let mut gates: Vec<Gate> = Vec::new();
    let ghost step = hop_rows(adj, nodes, dtm, n as int);
    let mut s: usize = 0;
    proof {
        assert(circuit_model(gates@) =~= repeated_steps(step, 0));
    }
    while s < trotter_steps
        invariant
            s <= trotter_steps,
            n == adj.len(),
            adj == adjacency@,
            nodes == node_qubits@,
            dtm == dt@,
            forall|i: int| 0 <= i < adj.len() ==> (#[trigger] adj[i])@.len() == adj.len(),
            step == hop_rows(adj, nodes, dtm, n as int),
            circuit_model(gates@) == repeated_steps(step, s as int),
        decreases trotter_steps - s,
    {
        let ghost start = gates@;
        let mut i: usize = 0;
        proof {
            assert(circuit_model(gates@) =~= circuit_model(start) + hop_rows(adj, nodes, dtm, 0));
        }
        while i < n
            invariant
                i <= n,
                n == adj.len(),
                adj == adjacency@,
                nodes == node_qubits@,
                dtm == dt@,
                forall|x: int| 0 <= x < adj.len() ==> (#[trigger] adj[x])@.len() == adj.len(),
                circuit_model(gates@) == circuit_model(start) + hop_rows(
                    adj,
                    nodes,
                    dtm,
                    i as int,
                ),
            decreases n - i,
        {
            let ghost row_start = gates@;
            let mut j: usize = i + 1;
            proof {
                assert(circuit_model(gates@) =~= circuit_model(row_start) + hop_row(
                    adj,
                    nodes,
                    dtm,
                    i as int,
                    i as int + 1,
                ));
            }
            while j < n
                invariant
                    i < j <= n || (j == i + 1),
                    i < n,
                    n == adj.len(),
                    adj == adjacency@,
                    nodes == node_qubits@,
                    dtm == dt@,
                    forall|x: int| 0 <= x < adj.len() ==> (#[trigger] adj[x])@.len() == adj.len(),
                    circuit_model(gates@) == circuit_model(row_start) + hop_row(
                        adj,
                        nodes,
                        dtm,
                        i as int,
                        j as int,
                    ),
                decreases n - j,
            {
                if adjacency[i][j] && i < node_qubits.len() && j < node_qubits.len() {
                    push_gate(&mut gates, Gate::RXX(node_qubits[i], node_qubits[j], dt));
                    push_gate(&mut gates, Gate::RYY(node_qubits[i], node_qubits[j], dt));
                    proof {
                        assert(circuit_model(gates@) =~= (circuit_model(row_start) + hop_row(
                            adj,
                            nodes,
                            dtm,
                            i as int,
                            j as int,
                        )) + seq![
                            GateModel::RXX(nodes[i as int] as int, nodes[j as int] as int, dtm),
                            GateModel::RYY(nodes[i as int] as int, nodes[j as int] as int, dtm),
                        ]);
                        assert(circuit_model(gates@) =~= circuit_model(row_start) + hop_row(
                            adj,
                            nodes,
                            dtm,
                            i as int,
                            j as int + 1,
                        ));
                    }
                } else {
                    proof {
                        assert(hop_row(adj, nodes, dtm, i as int, j as int + 1) =~= hop_row(
                            adj,
                            nodes,
                            dtm,
                            i as int,
                            j as int,
                        ));
                    }
                }
                j += 1;
            }
            proof {
                assert((circuit_model(start) + hop_rows(adj, nodes, dtm, i as int)) + hop_row(
                    adj,
                    nodes,
                    dtm,
                    i as int,
                    n as int,
                ) =~= circuit_model(start) + hop_rows(adj, nodes, dtm, i as int + 1));
            }
            i += 1;
        }
        proof {
            assert(repeated_steps(step, s as int) + step =~= repeated_steps(step, s as int + 1));
        }
        s += 1;
    }
    gates
}

/// The state-preparation rotations of the Szegedy reflection against the
/// first `j` columns of row `i`: a controlled y-rotation by the exact
/// angle `2 acos(sqrt(P[i][t]))` for every positive transition entry whose
/// endpoints have register qubits.
pub open spec fn szegedy_prep_row(
    matrix: Seq<Vec<Ratio>>,
    nodes: Seq<usize>,
    coins: Seq<usize>,
    i: int,
    j: int,
) -> Seq<GateModel>
    decreases j,
{
    if j <= 0 {
        Seq::<GateModel>::empty()
    } else {
        szegedy_prep_row(matrix, nodes, coins, i, j - 1) + (if matrix[i]@[j - 1].num > 0 && i
            < nodes.len() && j - 1 < coins.len() {
            seq![
                GateModel::CRY(
                    nodes[i] as int,
                    coins[j - 1] as int,
                    AngleModel::DoubleAcosSqrt { arg: matrix[i]@[j - 1]@, neg: false },
                ),
            ]
        } else {
            Seq::<GateModel>::empty()
        })
    }
}

/// The state-preparation rotations of the first `i` rows.
pub open spec fn szegedy_prep_rows(
    matrix: Seq<Vec<Ratio>>,
    nodes: Seq<usize>,
    coins: Seq<usize>,
    i: int,
) -> Seq<GateModel>
    decreases i,
{
    if i <= 0 {
        Seq::<GateModel>::empty()
    } else {
        szegedy_prep_rows(matrix, nodes, coins, i - 1) + szegedy_prep_row(
            matrix,
            nodes,
            coins,
            i - 1,
            matrix.len() as int,
        )
    }
}

/// A Hadamard and an X on each of the first `i` coin qubits.
pub open spec fn hx_layer(coins: Seq<usize>, i: int) -> Seq<GateModel>
    decreases i,
{
    if i <= 0 {
        Seq::<GateModel>::empty()
    } else {
        hx_layer(coins, i - 1) + seq![
            GateModel::H(coins[i - 1] as int),
            GateModel::X(coins[i - 1] as int),
        ]
    }
}

/// An X and a Hadamard on each of the first `i` coin qubits.
pub open spec fn xh_layer(coins: Seq<usize>, i: int) -> Seq<GateModel>
    decreases i,
{
    if i <= 0 {
        Seq::<GateModel>::empty()
    } else {
        xh_layer(coins, i - 1) + seq![
            GateModel::X(coins[i - 1] as int),
            GateModel::H(coins[i - 1] as int),
        ]
    }
}

/// The multi-controlled X at the heart of the reflection: controlled by
/// all coin qubits but the last, targeting the last.
pub open spec fn reflection_core(coins: Seq<usize>) -> Seq<GateModel> {
    if coins.len() == 0 {
        Seq::<GateModel>::empty()
    } else {
        seq![
            GateModel::MCX(index_model(coins, coins.len() - 1), coins[coins.len() - 1] as int),
        ]
    }
}

/// One Szegedy walk reflection: prepare the transition-weighted coin state
/// with controlled rotations, then reflect around it with a conjugated
/// multi-controlled X.
pub fn szegedy_reflection(
    transition_matrix: &[Vec<Ratio>],
    node_qubits: &[usize],
    coin_qubits: &[usize],
) -> (r: Vec<Gate>)
    requires
        forall|i: int|
            0 <= i < transition_matrix@.len() ==> (#[trigger] transition_matrix@[i])@.len()
                == transition_matrix@.len(),
    ensures
        circuit_model(r@) == szegedy_prep_rows(
            transition_matrix@,
            node_qubits@,
            coin_qubits@,
            transition_matrix@.len() as int,
        ) + hx_layer(coin_qubits@, coin_qubits@.len() as int) + reflection_core(coin_qubits@)
            + xh_layer(coin_qubits@, coin_qubits@.len() as int),
{
    let ghost matrix = transition_matrix@;
    let ghost nodes = node_qubits@;
    let ghost coins = coin_qubits@;
    let n = transition_matrix.len();
    let mut gates: Vec<Gate> = Vec::new();
    let mut i: usize = 0;
    proof {
        assert(circuit_model(gates@) =~= szegedy_prep_rows(matrix, nodes, coins, 0));
    }
    while i < n
        invariant
            i <= n,
            n == matrix.len(),
            matrix == transition_matrix@,
            nodes == node_qubits@,
            coins == coin_qubits@,
            forall|x: int| 0 <= x < matrix.len() ==> (#[trigger] matrix[x])@.len() == matrix.len(),
            circuit_model(gates@) == szegedy_prep_rows(matrix, nodes, coins, i as int),
        decreases n - i,
    {
        let ghost row_start = gates@;
        let mut j: usize = 0;
        proof {
            assert(circuit_model(gates@) =~= circuit_model(row_start) + szegedy_prep_row(
                matrix,
                nodes,
                coins,
                i as int,
                0,
            ));
        }
        while j < n
            invariant
                j <= n,
                i < n,
                n == matrix.len(),
                matrix == transition_matrix@,
                nodes == node_qubits@,
                coins == coin_qubits@,
                forall|x: int|
                    0 <= x < matrix.len() ==> (#[trigger] matrix[x])@.len() == matrix.len(),
                circuit_model(gates@) == circuit_model(row_start) + szegedy_prep_row(
                    matrix,
                    nodes,
                    coins,
                    i as int,
                    j as int,
                ),
            decreases n - j,
        {
            let p = transition_matrix[i][j];
            if p.num > 0 && i < node_qubits.len() && j < coin_qubits.len() {
                push_gate(
                    &mut gates,
                    Gate::CRY(
                        node_qubits[i],
                        coin_qubits[j],
                        Angle::DoubleAcosSqrt { arg: p, neg: false },
                    ),
                );
                proof {
                    assert(circuit_model(gates@) =~= circuit_model(row_start) + szegedy_prep_row(
                        matrix,
                        nodes,
                        coins,
                        i as int,
                        j as int + 1,
                    ));
                }
            } else {
                proof {
                    assert(szegedy_prep_row(matrix, nodes, coins, i as int, j as int + 1)
                        =~= szegedy_prep_row(matrix, nodes, coins, i as int, j as int));
                }
            }
            j += 1;
        }
        proof {
            assert((szegedy_prep_rows(matrix, nodes, coins, i as int) + szegedy_prep_row(
                matrix,
                nodes,
                coins,
                i as int,
                n as int,
            )) =~= szegedy_prep_rows(matrix, nodes, coins, i as int + 1));
        }
        i += 1;
    }
    let ghost pa = szegedy_prep_rows(matrix, nodes, coins, n as int);

    let mut b: usize = 0;
    proof {
        assert(circuit_model(gates@) =~= pa + hx_layer(coins, 0));
    }
    while b < coin_qubits.len()
        invariant
            b <= coins.len(),
            coins == coin_qubits@,
            circuit_model(gates@) == pa + hx_layer(coins, b as int),
        decreases coins.len() - b,
    {
        push_gate(&mut gates, Gate::H(coin_qubits[b]));
        push_gate(&mut gates, Gate::X(coin_qubits[b]));
        proof {
            assert(circuit_model(gates@) =~= pa + hx_layer(coins, b as int + 1));
        }
        b += 1;
    }
    let ghost pb = hx_layer(coins, coins.len() as int);

    if coin_qubits.len() > 0 {
        let m = coin_qubits.len() - 1;
        let mut controls: Vec<usize> = Vec::new();
        let mut p: usize = 0;
        while p < m
            invariant
                p <= m < coins.len(),
                coins == coin_qubits@,
                controls@.len() == p,
                forall|x: int| 0 <= x < p ==> #[trigger] controls@[x] == coins[x],
            decreases m - p,
        {
            controls.push(coin_qubits[p]);
            p += 1;
        }
        proof {
            lemma_index_model_elems(coins, m as int);
            assert(crate::gates::qubits_model(controls@) =~= index_model(coins, m as int)) by {
                assert forall|x: int|
                    0 <= x < controls@.len() implies crate::gates::qubits_model(controls@)[x]
                    == index_model(coins, m as int)[x] by {
                    assert(crate::gates::qubits_model(controls@)[x] == controls@[x] as int);
                    assert(index_model(coins, m as int)[x] == coins[x] as int);
                }
            }
        }
        push_gate(&mut gates, Gate::MCX(controls, coin_qubits[m]));
        proof {
            assert(circuit_model(gates@) =~= (pa + pb) + reflection_core(coins));
        }
    } else {
        proof {
            assert(circuit_model(gates@) =~= (pa + pb) + reflection_core(coins));
        }
    }

    let mut d: usize = 0;
    proof {
        assert(circuit_model(gates@) =~= ((pa + pb) + reflection_core(coins)) + xh_layer(
            coins,
            0,
        ));
    }
    while d < coin_qubits.len()
        invariant
            d <= coins.len(),
            coins == coin_qubits@,
            circuit_model(gates@) == ((pa + pb) + reflection_core(coins)) + xh_layer(
                coins,
                d as int,
            ),
        decreases coins.len() - d,
    {
        push_gate(&mut gates, Gate::X(coin_qubits[d]));
        push_gate(&mut gates, Gate::H(coin_qubits[d]));
        proof {
            assert(circuit_model(gates@) =~= ((pa + pb) + reflection_core(coins)) + xh_layer(
                coins,
                d as int + 1,
            ));
        }
        d += 1;
    }
    proof {
        assert(circuit_model(gates@) =~= pa + pb + reflection_core(coins) + xh_layer(
            coins,
            coins.len() as int,
        ));
    }
    gates
}

} // verus!

//! Quantum random access memory circuit constructions: bucket-brigade and
//! fan-out architectures.

use vstd::prelude::*;
use crate::gates::{Gate, GateModel, circuit_model};

verus! {

/// The first `j` fan-out gates of one routing layer: `CX(aq, layer[t])` for
/// `t < j`.
pub open spec fn layer_fanout(aq: usize, layer: Seq<usize>, j: int) -> Seq<GateModel>
    decreases j,
{
    if j <= 0 {
        Seq::<GateModel>::empty()
    } else {
        layer_fanout(aq, layer, j - 1).push(GateModel::CX(aq as int, layer[j - 1] as int))
    }
}

/// The routing-tree activation of the first `i` address qubits: each
/// address qubit fans out over its whole routing layer.
pub open spec fn routing_activation(
    addr: Seq<usize>,
    routing: Seq<Vec<usize>>,
    i: int,
) -> Seq<GateModel>
    decreases i,
{
    if i <= 0 {
        Seq::<GateModel>::empty()
    } else {
        routing_activation(addr, routing, i - 1) + layer_fanout(
            addr[i - 1],
            routing[i - 1]@,
            routing[i - 1]@.len() as int,
        )
    }
}

/// The data readout of the first `i` data qubits, each controlled by every
/// qubit of the last routing layer: `CX(last[t], data[d])` in layer order.
pub open spec fn data_readout(data: Seq<usize>, last: Seq<usize>, i: int) -> Seq<GateModel>
    decreases i,
{
    if i <= 0 {
        Seq::<GateModel>::empty()
    } else {
        data_readout(data, last, i - 1) + readout_layer(data[i - 1], last, last.len() as int)
    }
}

/// The first `j` readout gates for one data qubit: `CX(last[t], dq)`.
pub open spec fn readout_layer(dq: usize, last: Seq<usize>, j: int) -> Seq<GateModel>
    decreases j,
{
    if j <= 0 {
        Seq::<GateModel>::empty()
    } else {
        readout_layer(dq, last, j - 1).push(GateModel::CX(last[j - 1] as int, dq as int))
    }
}

/// The uncomputation of the routing tree: the activation layers of the
/// last `i` address qubits, in reverse address order.
pub open spec fn routing_uncompute(
    addr: Seq<usize>,
    routing: Seq<Vec<usize>>,
    i: int,
) -> Seq<GateModel>
    decreases i,
{
    if i <= 0 {
        Seq::<GateModel>::empty()
    } else {
        let a = addr.len() - i;
        routing_uncompute(addr, routing, i - 1) + layer_fanout(
            addr[a],
            routing[a]@,
            routing[a]@.len() as int,
        )
    }
}

/// Emit one routing layer's fan-out gates onto `gates`.
fn emit_layer_fanout(gates: &mut Vec<Gate>, aq: usize, layer: &Vec<usize>)
    ensures
        circuit_model(final(gates)@) == circuit_model(old(gates)@) + layer_fanout(
            aq,
            layer@,
            layer@.len() as int,
        ),
{
    let ghost start = gates@;
    let mut j: usize = 0;
    proof {
        assert(circuit_model(gates@) =~= circuit_model(start) + layer_fanout(aq, layer@, 0));
    }
    while j < layer.len()
        invariant
            j <= layer@.len(),
            circuit_model(gates@) == circuit_model(start) + layer_fanout(aq, layer@, j as int),
        decreases layer@.len() - j,
    {
        let ghost before = gates@;
        gates.push(Gate::CX(aq, layer[j]));
        proof {
            crate::gates::lemma_circuit_model_push(before, Gate::CX(aq, layer[j as int]));
            assert((circuit_model(start) + layer_fanout(aq, layer@, j as int)).push(
                GateModel::CX(aq as int, layer@[j as int] as int),
            ) =~= circuit_model(start) + layer_fanout(aq, layer@, j as int).push(
                GateModel::CX(aq as int, layer@[j as int] as int),
            ));
        }
        j += 1;
    }
}

/// Generate a bucket-brigade QRAM circuit: layer-by-layer activation of the
/// routing tree by the address qubits, controlled data readout from the
/// last routing layer, and uncomputation of the routing tree in reverse.
pub fn bucket_brigade_qram(
    address_qubits: &[usize],
    routing_qubits: &[Vec<usize>],
    data_qubits: &[usize],
) -> (r: Vec<Gate>)
    requires
        address_qubits@.len() <= routing_qubits@.len(),
    ensures
        circuit_model(r@) == routing_activation(
            address_qubits@,
            routing_qubits@,
            address_qubits@.len() as int,
        ) + (if routing_qubits@.len() > 0 {
            data_readout(
                data_qubits@,
                routing_qubits@[routing_qubits@.len() - 1]@,
                data_qubits@.len() as int,
            )
        } else {
            Seq::<GateModel>::empty()
        }) + routing_uncompute(address_qubits@, routing_qubits@, address_qubits@.len() as int),
{
    let mut gates: Vec<Gate> = Vec::new();
    let ghost addr = address_qubits@;
    let ghost routing = routing_qubits@;
    let mut i: usize = 0;
    proof {
        assert(circuit_model(gates@) =~= routing_activation(addr, routing, 0));
    }
    while i < address_qubits.len()
        invariant
            i <= addr.len(),
            addr == address_qubits@,
            routing == routing_qubits@,
            addr.len() <= routing.len(),
            circuit_model(gates@) == routing_activation(addr, routing, i as int),
        decreases addr.len() - i,
    {
        emit_layer_fanout(&mut gates, address_qubits[i], &routing_qubits[i]);
        i += 1;
    }
    let ghost phase1 = routing_activation(addr, routing, addr.len() as int);
    let ghost last: Seq<usize> = if routing.len() > 0 {
        routing[routing.len() - 1]@
    } else {
        Seq::<usize>::empty()
    };
    let mut d: usize = 0;
    proof {
        assert(circuit_model(gates@) =~= phase1 + data_readout(data_qubits@, last, 0));
    }
    if routing_qubits.len() > 0 {
        let last_layer = &routing_qubits[routing_qubits.len() - 1];
        while d < data_qubits.len()
            invariant
                d <= data_qubits@.len(),
                routing == routing_qubits@,
                routing.len() > 0,
                last_layer@ == last,
                circuit_model(gates@) == phase1 + data_readout(data_qubits@, last, d as int),
            decreases data_qubits@.len() - d,
        {
            let dq = data_qubits[d];
            let ghost start = gates@;
            let mut t: usize = 0;
            proof {
                assert(circuit_model(gates@) =~= circuit_model(start) + readout_layer(
                    dq,
                    last,
                    0,
                ));
            }
            while t < last_layer.len()
                invariant
                    t <= last.len(),
                    last_layer@ == last,
                    circuit_model(gates@) == circuit_model(start) + readout_layer(
                        dq,
                        last,
                        t as int,
                    ),
                decreases last.len() - t,
            {
                let ghost before = gates@;
                gates.push(Gate::CX(last_layer[t], dq));
                proof {
                    crate::gates::lemma_circuit_model_push(
                        before,
                        Gate::CX(last_layer@[t as int], dq),
                    );
                    assert((circuit_model(start) + readout_layer(dq, last, t as int)).push(
                        GateModel::CX(last[t as int] as int, dq as int),
                    ) =~= circuit_model(start) + readout_layer(dq, last, t as int).push(
                        GateModel::CX(last[t as int] as int, dq as int),
                    ));
                }
                t += 1;
            }
            proof {
                assert((phase1 + data_readout(data_qubits@, last, d as int)) + readout_layer(
                    dq,
                    last,
                    last.len() as int,
                ) =~= phase1 + (data_readout(data_qubits@, last, d as int) + readout_layer(
                    dq,
                    last,
                    last.len() as int,
                )));
            }
            d += 1;
        }
    }
    let ghost phase2 = if routing.len() > 0 {
        data_readout(data_qubits@, last, data_qubits@.len() as int)
    } else {
        Seq::<GateModel>::empty()
    };
    proof {
        if routing.len() == 0 {
            assert(circuit_model(gates@) =~= phase1 + phase2);
        }
    }
    let mut u: usize = 0;
    proof {
        assert((phase1 + phase2) + routing_uncompute(addr, routing, 0) =~= phase1 + phase2);
    }
    while u < address_qubits.len()
        invariant
            u <= addr.len(),
            addr == address_qubits@,
            routing == routing_qubits@,
            addr.len() <= routing.len(),
            circuit_model(gates@) == (phase1 + phase2) + routing_uncompute(addr, routing, u as int),
        decreases addr.len() - u,
    {
        let i2 = address_qubits.len() - 1 - u;
        proof {
            assert(addr.len() - (u as int + 1) == i2 as int);
        }
        emit_layer_fanout(&mut gates, address_qubits[i2], &routing_qubits[i2]);
        proof {
            assert(((phase1 + phase2) + routing_uncompute(addr, routing, u as int)) + layer_fanout(
                addr[i2 as int],
                routing[i2 as int]@,
                routing[i2 as int]@.len() as int,
            ) =~= (phase1 + phase2) + (routing_uncompute(addr, routing, u as int) + layer_fanout(
                addr[i2 as int],
                routing[i2 as int]@,
                routing[i2 as int]@.len() as int,
            )));
        }
        u += 1;
    }
    proof {
        assert(circuit_model(gates@) =~= phase1 + phase2 + routing_uncompute(
            addr,
            routing,
            addr.len() as int,
        ));
    }
    gates
}

/// Fan-out QRAM: a controlled data transfer from every address qubit to
/// every data qubit, address-major.  The result has one
/// `CX(address[t / nd], data[t % nd])` gate at each index `t`, where `nd`
/// is the number of data qubits.
pub fn fan_out_qram(address_qubits: &[usize], data_qubits: &[usize]) -> (r: Vec<Gate>)
    requires
        address_qubits@.len() * data_qubits@.len() <= usize::MAX as int,
    ensures
        r@.len() == address_qubits@.len() * data_qubits@.len(),
        forall|a: int, d: int|
            0 <= a < address_qubits@.len() && 0 <= d < data_qubits@.len()
                ==> #[trigger] r@[a * data_qubits@.len() + d]@ == GateModel::CX(
                address_qubits@[a] as int,
                data_qubits@[d] as int,
            ),
{
    let mut gates: Vec<Gate> = Vec::new();
    let nd = data_qubits.len();
    let mut a: usize = 0;
    while a < address_qubits.len()
        invariant
            a <= address_qubits@.len(),
            nd == data_qubits@.len(),
            address_qubits@.len() * nd <= usize::MAX as int,
            gates@.len() == a * nd,
            forall|x: int, d: int|
                0 <= x < a && 0 <= d < nd ==> #[trigger] gates@[x * nd + d]@ == GateModel::CX(
                    address_qubits@[x] as int,
                    data_qubits@[d] as int,
                ),
        decreases address_qubits@.len() - a,
    {
        proof {
            assert((a + 1) * nd <= address_qubits@.len() * nd) by (nonlinear_arith)
                requires
                    a < address_qubits@.len(),
                    nd >= 0,
            ;
            assert(a * nd + nd == (a + 1) * nd) by (nonlinear_arith);
        }
        let aq = address_qubits[a];
        let mut d: usize = 0;
        while d < nd
            invariant
                d <= nd,
                nd == data_qubits@.len(),
                a < address_qubits@.len(),
                aq == address_qubits@[a as int],
                a * nd + nd <= usize::MAX as int,
                gates@.len() == a * nd + d,
                forall|x: int, t: int|
                    0 <= x < a && 0 <= t < nd ==> #[trigger] gates@[x * nd + t]@ == GateModel::CX(
                        address_qubits@[x] as int,
                        data_qubits@[t] as int,
                    ),
                forall|t: int|
                    0 <= t < d ==> #[trigger] gates@[a as int * nd + t]@ == GateModel::CX(
                        aq as int,
                        data_qubits@[t] as int,
                    ),
            decreases nd - d,
        {
            let ghost before = gates@;
            gates.push(Gate::CX(aq, data_qubits[d]));
            proof {
                let ai = a as int;
                let ndi = nd as int;
                assert forall|x: int, t: int|
                    0 <= x < ai && 0 <= t < ndi implies #[trigger] gates@[x * ndi + t]@
                    == GateModel::CX(
                    address_qubits@[x] as int,
                    data_qubits@[t] as int,
                ) by {
                    assert(x * ndi + t < ai * ndi) by (nonlinear_arith)
                        requires
                            0 <= x < ai,
                            0 <= t < ndi,
                    ;
                    assert(gates@[x * ndi + t] == before[x * ndi + t]);
                }
                assert forall|t: int|
                    0 <= t < d + 1 implies #[trigger] gates@[a as int * nd + t]@ == GateModel::CX(
                    aq as int,
                    data_qubits@[t] as int,
                ) by {
                    if t < d {
                        assert(gates@[a as int * nd + t] == before[a as int * nd + t]);
                    }
                }
            }
            d += 1;
        }
        proof {
            let ai = a as int;
            let ndi = nd as int;
            assert forall|x: int, t: int|
                0 <= x < ai + 1 && 0 <= t < ndi implies #[trigger] gates@[x * ndi + t]@
                == GateModel::CX(
                address_qubits@[x] as int,
                data_qubits@[t] as int,
            ) by {
                if x == ai {
                    assert(gates@[ai * ndi + t]@ == GateModel::CX(
                        aq as int,
                        data_qubits@[t] as int,
                    ));
                }
            }
        }
        a += 1;
    }
    gates
}

} // verus!

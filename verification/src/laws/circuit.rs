//! Circuits at the edges: one without gates, and one with a gate that does
//! not fit.

use crate::bits::{position_of, qubit_value};
use crate::circuit::{basis_label, is_circuit_unitary, is_final_state, Circuit};
use crate::gate::{CircuitError, Coefficient, ErrorKind};
use crate::matrix::Grid;
use crate::scalar::Arithmetic;
use vstd::arithmetic::power2::{lemma_pow2_pos, pow2};
use vstd::prelude::*;

verus! {

/// A circuit without gates leaves the register in the all-zeros state:
/// amplitude one at basis state 0, whose label is all `'0'`, and zero
/// everywhere else.
pub proof fn lemma_identity_circuit<
    A,
    T: Copy,
    Plus: Fn(T, T) -> T,
    Times: Fn(T, T) -> T,
    Eval: Fn(Coefficient<A>) -> T,
>(arith: Arithmetic<T, Plus, Times>, evaluate: Eval, circuit: Circuit<A>, state: Seq<T>)
    requires
        circuit.gates@.len() == 0,
        is_final_state(arith, evaluate, circuit, state),
    ensures
        arith.is_basis_state(pow2(circuit.n_qubits as nat), 0, state),
        basis_label(circuit.n_qubits as nat, 0) == Seq::new(circuit.n_qubits as nat, |q: int| '0'),
{
    let n = circuit.n_qubits as nat;
    assert forall|q: nat| q < n implies #[trigger] qubit_value(n, q, 0) == 0 by {
        lemma_pow2_pos(position_of(n, q));
    }
    assert(basis_label(n, 0) =~= Seq::new(n, |q: int| '0'));
}

/// The operator of a circuit without gates is the identity.
pub proof fn lemma_identity_circuit_unitary<
    A,
    T: Copy,
    Plus: Fn(T, T) -> T,
    Times: Fn(T, T) -> T,
    Eval: Fn(Coefficient<A>) -> T,
>(arith: Arithmetic<T, Plus, Times>, evaluate: Eval, circuit: Circuit<A>, u: Grid<T>)
    requires
        circuit.gates@.len() == 0,
        is_circuit_unitary(arith, evaluate, circuit, u),
    ensures
        arith.is_identity(pow2(circuit.n_qubits as nat), u),
{
}

/// A gate that names a qubit outside the register does not fit it, and a
/// circuit that holds such a gate is never run: all that can come of it is
/// `MalformedOperation`, for that gate or an earlier one.
pub proof fn lemma_out_of_range_is_rejected<A, V>(
    circuit: Circuit<A>,
    position: int,
    which: int,
    outcome: Result<V, CircuitError>,
)
    requires
        0 <= position < circuit.gates@.len(),
        0 <= which < circuit.gates@[position].qubits@.len(),
        circuit.gates@[position].qubits@[which] >= circuit.n_qubits,
        circuit.accepts(outcome),
    ensures
        !circuit.gates@[position].well_formed(circuit.n_qubits as nat),
        outcome matches Err(e) && e.kind == ErrorKind::MalformedOperation && e.position <= position,
{
}

} // verus!

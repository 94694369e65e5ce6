//! Exact, deterministic simulation of small quantum circuits.
//!
//! A circuit is a register of qubits and an ordered list of gates. The engine
//! turns each gate into its full operator, applies the operators in order to
//! the all-zeros state, and reads off the probability of each basis state and
//! the Bloch angles of each qubit.
//!
//! The engine does no arithmetic on amplitudes of its own. The caller hands
//! it the scalars to compute with ([`Arithmetic`]), the value of each formula
//! of the catalog of gates, and the rules for angles ([`BlochRules`]); what the
//! engine owns, and what its contracts state, is the structure: which cell of
//! which matrix is multiplied with which, in what order, and which qubit
//! stands at which binary digit of a basis state.
//!
//! Basis states are numbered as binary numerals with qubit 0 first: in a
//! register of `n` qubits, qubit `q` is the digit of weight `2^(n - 1 - q)`.

pub mod analysis;
pub mod bits;
pub mod circuit;
pub mod gate;
pub mod hook;
pub mod laws;
pub mod matrix;
pub mod operator;
pub mod scalar;
pub mod simulation;

pub use analysis::{
    bloch_sphere_angles_per_qubit, extract_single_qubit_amplitudes, is_bloch, is_qubit_angles,
    BlochRules,
};
pub use bits::dimension;
pub use circuit::{
    basis_label, is_circuit_unitary, is_final_state, is_measured, state_probabilities, Circuit,
};
pub use gate::{is_unitary_of, CircuitError, Coefficient, ErrorKind, Gate, GateType};
pub use hook::{
    convert_json_circuit, convert_json_gate, is_circuit, is_gate, is_gate_type, parse_gate_type,
    same_text, JSONCircuit, JSONGate,
};
pub use matrix::{kronecker_product, Grid, Matrix};
pub use operator::{expand_single_qubit_gate, get_cnot_matrix, get_swap_matrix, is_operator};
pub use scalar::Arithmetic;
pub use simulation::{
    index, is_simulated, is_simulation, options_simulate, run_circuit, simulate, Simulation,
};

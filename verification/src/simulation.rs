//! One simulation from end to end, and the fixed answers of the service
//! around it.

use crate::analysis::{bloch_sphere_angles_per_qubit, is_bloch, BlochRules};
use crate::circuit::{basis_label, is_final_state, is_measured, state_probabilities, Circuit};
use crate::gate::{CircuitError, Coefficient};
use crate::hook::{convert_json_circuit, is_circuit, JSONCircuit};
use crate::scalar::Arithmetic;
use vstd::arithmetic::power2::pow2;
use vstd::prelude::*;

verus! {

/// What one simulation gives: the final state, the labels of the basis states,
/// the probability of each, and the Bloch angles `(θ, φ)` of each qubit.
pub struct Simulation<T, P, R> {
    pub state_vector: Vec<T>,
    pub basis_vectors: Vec<String>,
    pub probabilities: Vec<P>,
    pub bloch_angles: Vec<(R, R)>,
}

/// `sim` is the result of running `circuit`.
pub open spec fn is_simulation<
    A,
    T: Copy,
    P,
    R: Copy,
    Plus: Fn(T, T) -> T,
    Times: Fn(T, T) -> T,
    Eval: Fn(Coefficient<A>) -> T,
    Norm: Fn(T) -> P,
    Negligible: Fn(T) -> bool,
    Polar: Fn(T) -> R,
    Gap: Fn(T, T) -> R,
>(
    arith: Arithmetic<T, Plus, Times>,
    evaluate: Eval,
    norm_sqr: Norm,
    rules: BlochRules<R, Negligible, Polar, Gap>,
    circuit: Circuit<A>,
    sim: Simulation<T, P, R>,
) -> bool {
    let n = circuit.n_qubits as nat;
    &&& is_final_state(arith, evaluate, circuit, sim.state_vector@)
    &&& sim.basis_vectors@.len() == pow2(n)
    &&& forall|i: int|
        0 <= i < pow2(n) ==> (#[trigger] sim.basis_vectors@[i])@ == basis_label(n, i as nat)
    &&& is_measured(norm_sqr, sim.state_vector@, sim.probabilities@)
    &&& is_bloch(arith, rules, sim.state_vector@, n, sim.bloch_angles@)
}

/// Runs a circuit and reads off everything a caller is shown.
pub fn run_circuit<
    A: Copy,
    T: Copy,
    P,
    R: Copy,
    Plus: Fn(T, T) -> T,
    Times: Fn(T, T) -> T,
    Eval: Fn(Coefficient<A>) -> T,
    Norm: Fn(T) -> P,
    Negligible: Fn(T) -> bool,
    Polar: Fn(T) -> R,
    Gap: Fn(T, T) -> R,
>(
    circuit: &Circuit<A>,
    arith: &Arithmetic<T, Plus, Times>,
    evaluate: &Eval,
    norm_sqr: &Norm,
    rules: &BlochRules<R, Negligible, Polar, Gap>,
) -> (outcome: Result<Simulation<T, P, R>, CircuitError>)
    requires
        pow2(circuit.n_qubits as nat) <= usize::MAX,
        arith.total(),
        rules.total::<T>(),
        forall|c: Coefficient<A>| evaluate.requires((c,)),
        forall|z: T| norm_sqr.requires((z,)),
    ensures
        circuit.accepts(outcome),
        outcome matches Ok(sim) ==> is_simulation(
            *arith,
            *evaluate,
            *norm_sqr,
            *rules,
            *circuit,
            sim,
        ),
{
    let state_vector = circuit.get_state_vector(arith, evaluate)?;
    let basis_vectors = circuit.get_basis_vectors();
    let probabilities = state_probabilities(&state_vector, norm_sqr);
    let bloch_angles = bloch_sphere_angles_per_qubit(
        &state_vector,
        circuit.n_qubits,
        arith,
        rules,
    );
    Ok(Simulation { state_vector, basis_vectors, probabilities, bloch_angles })
}

/// `outcome` is what a circuit description leads to: what is wrong with the
/// description, or what running its circuit gives.
pub open spec fn is_simulated<
    A,
    T: Copy,
    P,
    R: Copy,
    Plus: Fn(T, T) -> T,
    Times: Fn(T, T) -> T,
    Eval: Fn(Coefficient<A>) -> T,
    Norm: Fn(T) -> P,
    Negligible: Fn(T) -> bool,
    Polar: Fn(T) -> R,
    Gap: Fn(T, T) -> R,
    Parse: Fn(&String) -> Option<A>,
>(
    parse_theta: Parse,
    arith: Arithmetic<T, Plus, Times>,
    evaluate: Eval,
    norm_sqr: Norm,
    rules: BlochRules<R, Negligible, Polar, Gap>,
    json_circuit: JSONCircuit<A>,
    outcome: Result<Simulation<T, P, R>, CircuitError>,
) -> bool {
    exists|converted: Result<Circuit<A>, CircuitError>| #[trigger]
        is_circuit(parse_theta, json_circuit, converted) && match converted {
            Err(e) => outcome matches Err(same) && same == e,
            Ok(circuit) => {
                &&& circuit.accepts(outcome)
                &&& outcome matches Ok(sim) ==> is_simulation(
                    arith,
                    evaluate,
                    norm_sqr,
                    rules,
                    circuit,
                    sim,
                )
            },
        }
}

/// Converts a circuit description and runs it. A record that stands for no
/// gate is reported by its place among the records; a gate that does not fit
/// the register by its place among the gates.
pub fn simulate<
    A: Copy,
    T: Copy,
    P,
    R: Copy,
    Plus: Fn(T, T) -> T,
    Times: Fn(T, T) -> T,
    Eval: Fn(Coefficient<A>) -> T,
    Norm: Fn(T) -> P,
    Negligible: Fn(T) -> bool,
    Polar: Fn(T) -> R,
    Gap: Fn(T, T) -> R,
    Parse: Fn(&String) -> Option<A>,
>(
    json_circuit: JSONCircuit<A>,
    parse_theta: &Parse,
    arith: &Arithmetic<T, Plus, Times>,
    evaluate: &Eval,
    norm_sqr: &Norm,
    rules: &BlochRules<R, Negligible, Polar, Gap>,
) -> (outcome: Result<Simulation<T, P, R>, CircuitError>)
    requires
        pow2(json_circuit.qubits as nat) <= usize::MAX,
        arith.total(),
        rules.total::<T>(),
        forall|text: &String| parse_theta.requires((text,)),
        forall|c: Coefficient<A>| evaluate.requires((c,)),
        forall|z: T| norm_sqr.requires((z,)),
    ensures
        is_simulated(*parse_theta, *arith, *evaluate, *norm_sqr, *rules, json_circuit, outcome),
{
    let converted = convert_json_circuit(json_circuit, parse_theta);
    match converted {
        Err(e) => {
            let outcome = Err(e);
            proof {
                assert(is_circuit(*parse_theta, json_circuit, converted));
            }
            outcome
        },
        Ok(circuit) => {
            let outcome = run_circuit(&circuit, arith, evaluate, norm_sqr, rules);
            proof {
                assert(is_circuit(*parse_theta, json_circuit, converted));
            }
            outcome
        },
    }
}

/// Where a request for the root of the service is sent on to.
pub fn index() -> (target: &'static str)
    ensures
        target@ == "/home"@,
{
    "/home"
}

/// Body of the reply to a pre-flight request on the simulation route: empty.
pub fn options_simulate() -> (body: &'static str)
    ensures
        body@.len() == 0,
{
    proof {
        reveal_strlit("");
    }
    ""
}

} // verus!

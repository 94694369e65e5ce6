//! The Bloch angles of a qubit in a basis state.

use crate::analysis::{is_qubit_angles, BlochRules};
use crate::bits::qubit_value;
use crate::scalar::Arithmetic;
use vstd::prelude::*;

verus! {

/// The running sums over a basis state: the amplitude one goes to the sum of
/// the value that the qubit has in that basis state, and the other sum stays
/// zero.
proof fn lemma_split_of_basis_state<T: Copy, Plus: Fn(T, T) -> T, Times: Fn(T, T) -> T>(
    arith: Arithmetic<T, Plus, Times>,
    state: Seq<T>,
    n: nat,
    q: nat,
    b: nat,
    alphas: Seq<T>,
    betas: Seq<T>,
    alpha: T,
    beta: T,
    upto: int,
)
    requires
        arith.unital(),
        b < state.len(),
        arith.is_basis_state(state.len(), b, state),
        arith.split_trace(state, n, q, alphas, betas, alpha, beta),
        0 <= upto <= state.len(),
    ensures
        alphas[upto] == if upto > b && qubit_value(n, q, b) == 0 {
            arith.one
        } else {
            arith.zero
        },
        betas[upto] == if upto > b && qubit_value(n, q, b) != 0 {
            arith.one
        } else {
            arith.zero
        },
    decreases upto,
{
    if upto > 0 {
        let i = upto - 1;
        lemma_split_of_basis_state(arith, state, n, q, b, alphas, betas, alpha, beta, i);
        assert(arith.split_step(state, n, q, alphas, betas, i));
        assert(state[i] == if i == b {
            arith.one
        } else {
            arith.zero
        });
    }
}

/// The amplitudes of a qubit in a basis state: one for the value that the
/// qubit has there, zero for the other.
pub proof fn lemma_amplitudes_of_basis_state<T: Copy, Plus: Fn(T, T) -> T, Times: Fn(T, T) -> T>(
    arith: Arithmetic<T, Plus, Times>,
    state: Seq<T>,
    n: nat,
    q: nat,
    b: nat,
    alpha: T,
    beta: T,
)
    requires
        arith.unital(),
        b < state.len(),
        arith.is_basis_state(state.len(), b, state),
        arith.is_split(state, n, q, alpha, beta),
    ensures
        qubit_value(n, q, b) == 0 ==> alpha == arith.one && beta == arith.zero,
        qubit_value(n, q, b) != 0 ==> alpha == arith.zero && beta == arith.one,
{
    let (alphas, betas) = choose|alphas: Seq<T>, betas: Seq<T>|
        arith.split_trace(state, n, q, alphas, betas, alpha, beta);
    lemma_split_of_basis_state(
        arith,
        state,
        n,
        q,
        b,
        alphas,
        betas,
        alpha,
        beta,
        state.len() as int,
    );
}

/// The polar angle of a qubit in a basis state: where the rules take zero
/// for negligible and one for present, a qubit that is 0 has `θ = 0` and a
/// qubit that is 1 has `θ = π`; in both cases `φ = 0`.
pub proof fn lemma_bloch_of_basis_state<
    T: Copy,
    R: Copy,
    Plus: Fn(T, T) -> T,
    Times: Fn(T, T) -> T,
    Negligible: Fn(T) -> bool,
    Polar: Fn(T) -> R,
    Gap: Fn(T, T) -> R,
>(
    arith: Arithmetic<T, Plus, Times>,
    rules: BlochRules<R, Negligible, Polar, Gap>,
    state: Seq<T>,
    n: nat,
    q: nat,
    b: nat,
    angles: (R, R),
)
    requires
        arith.unital(),
        forall|gone: bool| #[trigger] rules.negligible.ensures((arith.zero,), gone) ==> gone,
        forall|gone: bool| #[trigger] rules.negligible.ensures((arith.one,), gone) ==> !gone,
        b < state.len(),
        arith.is_basis_state(state.len(), b, state),
        is_qubit_angles(arith, rules, state, n, q, angles),
    ensures
        qubit_value(n, q, b) == 0 ==> angles.0 == rules.zero_angle,
        qubit_value(n, q, b) != 0 ==> angles.0 == rules.half_turn,
        angles.1 == rules.zero_angle,
{
    let (alpha, beta) = choose|alpha: T, beta: T| #[trigger]
        arith.is_split(state, n, q, alpha, beta) && rules.is_angles(alpha, beta, angles);
    lemma_amplitudes_of_basis_state(arith, state, n, q, b, alpha, beta);
}

} // verus!

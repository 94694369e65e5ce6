//! The analysis layer: what each qubit, taken alone, looks like on the Bloch
//! sphere.
//!
//! For one qubit the amplitudes of the basis states in which it is 0 are added
//! up to `alpha`, those in which it is 1 to `beta`, and the two angles are read
//! off that pair. This describes the qubit faithfully only while it is not
//! entangled with the rest of the register; for an entangled qubit the angles
//! are well defined but only approximate.

use crate::bits::{digit, position_of, qubit_value, weight_of};
use crate::scalar::Arithmetic;
use vstd::arithmetic::power2::pow2;
use vstd::prelude::*;

verus! {

/// How a pair of amplitudes is turned into angles.
pub struct BlochRules<R, Negligible, Polar, Gap> {
    /// The angle 0.
    pub zero_angle: R,
    /// The angle π.
    pub half_turn: R,
    /// Whether the magnitude of an amplitude counts as zero.
    pub negligible: Negligible,
    /// The polar angle `2·acos(|alpha|)` of a qubit with both amplitudes present.
    pub polar: Polar,
    /// The phase `arg(beta) − arg(alpha)` between two amplitudes.
    pub phase_gap: Gap,
}

impl<T: Copy, Plus: Fn(T, T) -> T, Times: Fn(T, T) -> T> Arithmetic<T, Plus, Times> {
    /// Step `i` of the two running sums: amplitude `i` is added to the first
    /// where qubit `q` is 0 in basis state `i`, to the second where it is 1,
    /// and the other sum stays as it is.
    pub open spec fn split_step(
        &self,
        state: Seq<T>,
        n: nat,
        q: nat,
        alphas: Seq<T>,
        betas: Seq<T>,
        i: int,
    ) -> bool {
        if qubit_value(n, q, i as nat) == 0 {
            self.sum(alphas[i], state[i], alphas[i + 1]) && betas[i + 1] == betas[i]
        } else {
            self.sum(betas[i], state[i], betas[i + 1]) && alphas[i + 1] == alphas[i]
        }
    }

    /// `alphas` and `betas` record the two running sums over `state`: both
    /// start at zero, take one step for each amplitude, and end in `alpha` and
    /// `beta`.
    pub open spec fn split_trace(
        &self,
        state: Seq<T>,
        n: nat,
        q: nat,
        alphas: Seq<T>,
        betas: Seq<T>,
        alpha: T,
        beta: T,
    ) -> bool {
        &&& alphas.len() == state.len() + 1
        &&& betas.len() == state.len() + 1
        &&& alphas[0] == self.zero
        &&& betas[0] == self.zero
        &&& alphas[state.len() as int] == alpha
        &&& betas[state.len() as int] == beta
        &&& forall|i: int|
            0 <= i < state.len() ==> #[trigger] self.split_step(state, n, q, alphas, betas, i)
    }

    /// `alpha` is the sum of the amplitudes of the basis states in which qubit
    /// `q` is 0, and `beta` of those in which it is 1, each added up in index
    /// order and starting from zero.
    pub open spec fn is_split(&self, state: Seq<T>, n: nat, q: nat, alpha: T, beta: T) -> bool {
        exists|alphas: Seq<T>, betas: Seq<T>|
            self.split_trace(state, n, q, alphas, betas, alpha, beta)
    }
}

impl<R: Copy, Negligible, Polar, Gap> BlochRules<R, Negligible, Polar, Gap> {
    /// Every rule accepts every amplitude.
    pub open spec fn total<T>(&self) -> bool where
        Negligible: Fn(T) -> bool,
        Polar: Fn(T) -> R,
        Gap: Fn(T, T) -> R,
     {
        &&& forall|z: T| self.negligible.requires((z,))
        &&& forall|z: T| self.polar.requires((z,))
        &&& forall|a: T, b: T| self.phase_gap.requires((a, b))
    }

    /// The polar angle for the pair, given which of the two is negligible: 0
    /// where `beta` is, else π where `alpha` is, else what `polar` gives for
    /// `alpha`.
    pub open spec fn is_theta<T>(
        &self,
        alpha: T,
        alpha_gone: bool,
        beta_gone: bool,
        theta: R,
    ) -> bool where Polar: Fn(T) -> R {
        if beta_gone {
            theta == self.zero_angle
        } else if alpha_gone {
            theta == self.half_turn
        } else {
            self.polar.ensures((alpha,), theta)
        }
    }

    /// The phase for the pair: what `phase_gap` gives where neither amplitude
    /// is negligible, else 0.
    pub open spec fn is_phi<T>(
        &self,
        alpha: T,
        beta: T,
        alpha_gone: bool,
        beta_gone: bool,
        phi: R,
    ) -> bool where Gap: Fn(T, T) -> R {
        if !alpha_gone && !beta_gone {
            self.phase_gap.ensures((alpha, beta), phi)
        } else {
            phi == self.zero_angle
        }
    }

    /// `angles` are the Bloch angles `(θ, φ)` of the pair `(alpha, beta)`.
    pub open spec fn is_angles<T>(&self, alpha: T, beta: T, angles: (R, R)) -> bool where
        Negligible: Fn(T) -> bool,
        Polar: Fn(T) -> R,
        Gap: Fn(T, T) -> R,
     {
        exists|alpha_gone: bool, beta_gone: bool|
            {
                &&& self.negligible.ensures((alpha,), alpha_gone)
                &&& self.negligible.ensures((beta,), beta_gone)
                &&& #[trigger] self.is_theta(alpha, alpha_gone, beta_gone, angles.0)
                &&& self.is_phi(alpha, beta, alpha_gone, beta_gone, angles.1)
            }
    }

    /// The Bloch angles `(θ, φ)` of a qubit with amplitudes `alpha` and `beta`.
    pub fn angles<T: Copy>(&self, alpha: T, beta: T) -> (angles: (R, R)) where
        Negligible: Fn(T) -> bool,
        Polar: Fn(T) -> R,
        Gap: Fn(T, T) -> R,

        requires
            self.total::<T>(),
        ensures
            self.is_angles(alpha, beta, angles),
    {
        let alpha_gone = (self.negligible)(alpha);
        let beta_gone = (self.negligible)(beta);
        let theta = if beta_gone {
            self.zero_angle
        } else if alpha_gone {
            self.half_turn
        } else {
            (self.polar)(alpha)
        };
        let phi = if !alpha_gone && !beta_gone {
            (self.phase_gap)(alpha, beta)
        } else {
            self.zero_angle
        };
        let angles = (theta, phi);
        proof {
            assert(self.is_theta(alpha, alpha_gone, beta_gone, angles.0));
            assert(self.is_phi(alpha, beta, alpha_gone, beta_gone, angles.1));
        }
        angles
    }
}

/// The amplitudes of one qubit: the sum over the basis states in which it is
/// 0, and the sum over those in which it is 1.
pub fn extract_single_qubit_amplitudes<T: Copy, Plus: Fn(T, T) -> T, Times: Fn(T, T) -> T>(
    state_vector: &Vec<T>,
    n_qubits: usize,
    target_qubit: usize,
    arith: &Arithmetic<T, Plus, Times>,
) -> (pair: (T, T))
    requires
        arith.total(),
        target_qubit < n_qubits,
        state_vector@.len() == pow2(n_qubits as nat),
    ensures
        arith.is_split(state_vector@, n_qubits as nat, target_qubit as nat, pair.0, pair.1),
{
    let dim = state_vector.len();
    let weight = weight_of(n_qubits, target_qubit);
    let mut alpha = arith.zero;
    let mut beta = arith.zero;
    let ghost mut alphas: Seq<T> = seq![arith.zero];
    let ghost mut betas: Seq<T> = seq![arith.zero];
    let mut i: usize = 0;
    while i < dim
        invariant
            arith.total(),
            dim == state_vector@.len(),
            weight > 0,
            weight == pow2(position_of(n_qubits as nat, target_qubit as nat)),
            i <= state_vector@.len(),
            alphas.len() == i + 1,
            betas.len() == i + 1,
            alphas[0] == arith.zero,
            betas[0] == arith.zero,
            alphas[i as int] == alpha,
            betas[i as int] == beta,
            forall|x: int|
                0 <= x < i ==> #[trigger] arith.split_step(
                    state_vector@,
                    n_qubits as nat,
                    target_qubit as nat,
                    alphas,
                    betas,
                    x,
                ),
        decreases dim - i,
    {
        let ghost old_alphas = alphas;
        let ghost old_betas = betas;
        if digit(i, weight) == 0 {
            alpha = (arith.plus)(alpha, state_vector[i]);
        } else {
            beta = (arith.plus)(beta, state_vector[i]);
        }
        proof {
            alphas = alphas.push(alpha);
            betas = betas.push(beta);
            assert forall|x: int| 0 <= x < i + 1 implies #[trigger] arith.split_step(
                state_vector@,
                n_qubits as nat,
                target_qubit as nat,
                alphas,
                betas,
                x,
            ) by {
                if x < i {
                    assert(arith.split_step(
                        state_vector@,
                        n_qubits as nat,
                        target_qubit as nat,
                        old_alphas,
                        old_betas,
                        x,
                    ));
                }
            }
        }
        i = i + 1;
    }
    proof {
        assert(arith.split_trace(
            state_vector@,
            n_qubits as nat,
            target_qubit as nat,
            alphas,
            betas,
            alpha,
            beta,
        ));
    }
    (alpha, beta)
}

/// `pair` holds the Bloch angles `(θ, φ)` of qubit `q` of the register in
/// `state`: the angles of that qubit's pair of amplitudes.
pub open spec fn is_qubit_angles<
    T: Copy,
    R: Copy,
    Plus: Fn(T, T) -> T,
    Times: Fn(T, T) -> T,
    Negligible: Fn(T) -> bool,
    Polar: Fn(T) -> R,
    Gap: Fn(T, T) -> R,
>(
    arith: Arithmetic<T, Plus, Times>,
    rules: BlochRules<R, Negligible, Polar, Gap>,
    state: Seq<T>,
    n: nat,
    q: nat,
    pair: (R, R),
) -> bool {
    exists|alpha: T, beta: T| #[trigger]
        arith.is_split(state, n, q, alpha, beta) && rules.is_angles(alpha, beta, pair)
}

/// `angles` holds the Bloch angles of every qubit of the register in `state`,
/// qubit 0 first.
pub open spec fn is_bloch<
    T: Copy,
    R: Copy,
    Plus: Fn(T, T) -> T,
    Times: Fn(T, T) -> T,
    Negligible: Fn(T) -> bool,
    Polar: Fn(T) -> R,
    Gap: Fn(T, T) -> R,
>(
    arith: Arithmetic<T, Plus, Times>,
    rules: BlochRules<R, Negligible, Polar, Gap>,
    state: Seq<T>,
    n: nat,
    angles: Seq<(R, R)>,
) -> bool {
    &&& angles.len() == n
    &&& forall|q: int|
        0 <= q < n ==> is_qubit_angles(arith, rules, state, n, q as nat, #[trigger] angles[q])
}

/// The Bloch angles `(θ, φ)` of every qubit, qubit 0 first.
pub fn bloch_sphere_angles_per_qubit<
    T: Copy,
    R: Copy,
    Plus: Fn(T, T) -> T,
    Times: Fn(T, T) -> T,
    Negligible: Fn(T) -> bool,
    Polar: Fn(T) -> R,
    Gap: Fn(T, T) -> R,
>(
    state_vector: &Vec<T>,
    n_qubits: usize,
    arith: &Arithmetic<T, Plus, Times>,
    rules: &BlochRules<R, Negligible, Polar, Gap>,
) -> (angles: Vec<(R, R)>)
    requires
        arith.total(),
        rules.total::<T>(),
        state_vector@.len() == pow2(n_qubits as nat),
    ensures
        is_bloch(*arith, *rules, state_vector@, n_qubits as nat, angles@),
{
    let mut angles: Vec<(R, R)> = Vec::new();
    let mut qubit: usize = 0;
    while qubit < n_qubits
        invariant
            arith.total(),
            rules.total::<T>(),
            state_vector@.len() == pow2(n_qubits as nat),
            qubit <= n_qubits,
            angles@.len() == qubit,
            forall|q: int|
                0 <= q < qubit ==> is_qubit_angles(
                    *arith,
                    *rules,
                    state_vector@,
                    n_qubits as nat,
                    q as nat,
                    #[trigger] angles@[q],
                ),
        decreases n_qubits - qubit,
    {
        let (alpha, beta) = extract_single_qubit_amplitudes(state_vector, n_qubits, qubit, arith);
        let pair = rules.angles(alpha, beta);
        angles.push(pair);
        proof {
            assert(is_qubit_angles(
                *arith,
                *rules,
                state_vector@,
                n_qubits as nat,
                qubit as nat,
                angles@[qubit as int],
            ));
        }
        qubit = qubit + 1;
    }
    angles
}

} // verus!

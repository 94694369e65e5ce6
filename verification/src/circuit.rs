//! The circuit composer: an ordered list of gates, folded into one operator or
//! applied, gate by gate, to the all-zeros state.

use crate::bits::{dimension, qubit_value, weight_of};
use crate::gate::{CircuitError, Coefficient, ErrorKind, Gate};
use crate::matrix::{Grid, Matrix};
use crate::operator::is_operator;
use crate::scalar::Arithmetic;
use vstd::arithmetic::power2::pow2;
use vstd::prelude::*;
use vstd::string::StringExecFns;

verus! {

/// A register of `n_qubits` qubits and the gates to apply to it, in order.
#[derive(Debug)]
pub struct Circuit<A> {
    pub n_qubits: usize,
    pub gates: Vec<Gate<A>>,
}

/// The label of basis state `i` of `n` qubits: one character per qubit, qubit
/// 0 first, `'1'` where the qubit is 1 and `'0'` where it is 0. This is `i`
/// written as an `n`-digit binary numeral.
pub open spec fn basis_label(n: nat, i: nat) -> Seq<char> {
    Seq::new(
        n,
        |q: int|
            if qubit_value(n, q as nat, i) == 1 {
                '1'
            } else {
                '0'
            },
    )
}

impl<T: Copy, Plus: Fn(T, T) -> T, Times: Fn(T, T) -> T> Arithmetic<T, Plus, Times> {
    /// `state` is basis state `index` of a register with `dim` basis states:
    /// amplitude one at `index`, zero everywhere else.
    pub open spec fn is_basis_state(&self, dim: nat, index: nat, state: Seq<T>) -> bool {
        &&& state.len() == dim
        &&& forall|i: int|
            0 <= i < dim ==> #[trigger] state[i] == if i == index {
                self.one
            } else {
                self.zero
            }
    }

    /// The state with amplitude one at `index` and zero elsewhere.
    pub fn basis_state(&self, dim: usize, index: usize) -> (state: Vec<T>)
        ensures
            self.is_basis_state(dim as nat, index as nat, state@),
    {
        let mut state: Vec<T> = Vec::new();
        let mut i: usize = 0;
        while i < dim
            invariant
                i <= dim,
                state@.len() == i,
                forall|x: int|
                    0 <= x < i ==> #[trigger] state@[x] == if x == index {
                        self.one
                    } else {
                        self.zero
                    },
            decreases dim - i,
        {
            if i == index {
                state.push(self.one);
            } else {
                state.push(self.zero);
            }
            i = i + 1;
        }
        state
    }
}

impl<A> Circuit<A> {
    /// Every gate fits the register.
    pub open spec fn well_formed(&self) -> bool {
        forall|k: int|
            0 <= k < self.gates@.len() ==> (#[trigger] self.gates@[k]).well_formed(
                self.n_qubits as nat,
            )
    }

    /// At `position` stands the first gate that does not fit the register.
    pub open spec fn rejects_at(&self, position: nat) -> bool {
        &&& position < self.gates@.len()
        &&& !self.gates@[position as int].well_formed(self.n_qubits as nat)
        &&& forall|k: int|
            0 <= k < position ==> (#[trigger] self.gates@[k]).well_formed(self.n_qubits as nat)
    }

    /// What a run of the circuit must end with: either a value, when every
    /// gate fits the register, or the first gate that does not.
    pub open spec fn accepts<V>(&self, outcome: Result<V, CircuitError>) -> bool {
        &&& outcome is Ok <==> self.well_formed()
        &&& outcome matches Err(e) ==> e.kind == ErrorKind::MalformedOperation && self.rejects_at(
            e.position as nat,
        )
    }
}

/// `states` and `ops` record a run of `circuit` from the all-zeros state:
/// `ops[k]` is the full operator of gate `k`, and `states[k + 1]` is `ops[k]`
/// applied to `states[k]`. The run ends in `last`.
pub open spec fn evolution_trace<
    A,
    T: Copy,
    Plus: Fn(T, T) -> T,
    Times: Fn(T, T) -> T,
    Eval: Fn(Coefficient<A>) -> T,
>(
    arith: Arithmetic<T, Plus, Times>,
    evaluate: Eval,
    circuit: Circuit<A>,
    states: Seq<Seq<T>>,
    ops: Seq<Grid<T>>,
    last: Seq<T>,
) -> bool {
    let n = circuit.n_qubits as nat;
    let count = circuit.gates@.len();
    &&& states.len() == count + 1
    &&& ops.len() == count
    &&& arith.is_basis_state(pow2(n), 0, states[0])
    &&& states[count as int] == last
    &&& forall|k: int|
        0 <= k < count ==> is_operator(arith, evaluate, circuit.gates@[k], n, #[trigger] ops[k])
            && arith.is_applied(ops[k], states[k], states[k + 1])
}

/// `state` is what `circuit` makes of the all-zeros state: each gate's full
/// operator applied in turn, the first gate first.
pub open spec fn is_final_state<
    A,
    T: Copy,
    Plus: Fn(T, T) -> T,
    Times: Fn(T, T) -> T,
    Eval: Fn(Coefficient<A>) -> T,
>(arith: Arithmetic<T, Plus, Times>, evaluate: Eval, circuit: Circuit<A>, state: Seq<T>) -> bool {
    exists|states: Seq<Seq<T>>, ops: Seq<Grid<T>>|
        evolution_trace(arith, evaluate, circuit, states, ops, state)
}

/// `units` and `ops` record how the operator of `circuit` is put together:
/// `units[0]` is the identity, `ops[k]` is the full operator of gate `k`, and
/// `units[k + 1]` is the matrix product `ops[k] · units[k]`. The last is `u`.
pub open spec fn composition_trace<
    A,
    T: Copy,
    Plus: Fn(T, T) -> T,
    Times: Fn(T, T) -> T,
    Eval: Fn(Coefficient<A>) -> T,
>(
    arith: Arithmetic<T, Plus, Times>,
    evaluate: Eval,
    circuit: Circuit<A>,
    units: Seq<Grid<T>>,
    ops: Seq<Grid<T>>,
    u: Grid<T>,
) -> bool {
    let n = circuit.n_qubits as nat;
    let count = circuit.gates@.len();
    &&& units.len() == count + 1
    &&& ops.len() == count
    &&& arith.is_identity(pow2(n), units[0])
    &&& units[count as int] == u
    &&& forall|k: int|
        0 <= k < count ==> is_operator(arith, evaluate, circuit.gates@[k], n, #[trigger] ops[k])
            && arith.is_product(ops[k], units[k], units[k + 1])
}

/// `u` is the operator of the whole circuit: the product
/// `G_last · … · G_2 · G_1` of the full operators of its gates, built up from
/// the identity by multiplying each new gate on the left.
pub open spec fn is_circuit_unitary<
    A,
    T: Copy,
    Plus: Fn(T, T) -> T,
    Times: Fn(T, T) -> T,
    Eval: Fn(Coefficient<A>) -> T,
>(arith: Arithmetic<T, Plus, Times>, evaluate: Eval, circuit: Circuit<A>, u: Grid<T>) -> bool {
    exists|units: Seq<Grid<T>>, ops: Seq<Grid<T>>|
        composition_trace(arith, evaluate, circuit, units, ops, u)
}

/// `probabilities` holds, for each amplitude of `state`, a value that
/// `norm_sqr` may return for it.
pub open spec fn is_measured<T, P, Norm: Fn(T) -> P>(
    norm_sqr: Norm,
    state: Seq<T>,
    probabilities: Seq<P>,
) -> bool {
    &&& probabilities.len() == state.len()
    &&& forall|i: int|
        0 <= i < state.len() ==> norm_sqr.ensures((state[i],), #[trigger] probabilities[i])
}

/// The probability of each basis state: the squared magnitude, as `norm_sqr`
/// computes it, of its amplitude.
pub fn state_probabilities<T: Copy, P, Norm: Fn(T) -> P>(state: &Vec<T>, norm_sqr: &Norm) -> (p:
    Vec<P>)
    requires
        forall|z: T| norm_sqr.requires((z,)),
    ensures
        is_measured(*norm_sqr, state@, p@),
{
    let mut p: Vec<P> = Vec::new();
    let mut i: usize = 0;
    while i < state.len()
        invariant
            forall|z: T| norm_sqr.requires((z,)),
            i <= state.len(),
            p@.len() == i,
            forall|x: int| 0 <= x < i ==> norm_sqr.ensures((state@[x],), #[trigger] p@[x]),
        decreases state.len() - i,
    {
        p.push(norm_sqr(state[i]));
        i = i + 1;
    }
    p
}

impl<A: Copy> Circuit<A> {
    /// Checks every gate against the register, and names the first that does
    /// not fit.
    pub fn validate(&self) -> (outcome: Result<(), CircuitError>)
        ensures
            self.accepts(outcome),
    {
        let mut k: usize = 0;
        while k < self.gates.len()
            invariant
                k <= self.gates@.len(),
                forall|x: int|
                    0 <= x < k ==> (#[trigger] self.gates@[x]).well_formed(self.n_qubits as nat),
            decreases self.gates.len() - k,
        {
            if !self.gates[k].is_well_formed(self.n_qubits) {
                return Err(CircuitError { kind: ErrorKind::MalformedOperation, position: k });
            }
            k = k + 1;
        }
        Ok(())
    }

    /// The operator of the whole circuit.
    pub fn get_unitary_matrix<
        T: Copy,
        Plus: Fn(T, T) -> T,
        Times: Fn(T, T) -> T,
        Eval: Fn(Coefficient<A>) -> T,
    >(&self, arith: &Arithmetic<T, Plus, Times>, evaluate: &Eval) -> (outcome: Result<
        Matrix<T>,
        CircuitError,
    >)
        requires
            pow2(self.n_qubits as nat) <= usize::MAX,
            arith.total(),
            forall|c: Coefficient<A>| evaluate.requires((c,)),
        ensures
            self.accepts(outcome),
            outcome matches Ok(u) ==> u@.wf() && u@.rows == pow2(self.n_qubits as nat) && u@.cols
                == pow2(self.n_qubits as nat),
            outcome matches Ok(u) ==> is_circuit_unitary(*arith, *evaluate, *self, u@),
    {
        self.validate()?;
        let dim = dimension(self.n_qubits).unwrap();
        let mut u = Matrix::identity(dim, arith.zero, arith.one);
        let ghost mut units: Seq<Grid<T>> = seq![u@];
        let ghost mut ops: Seq<Grid<T>> = Seq::empty();
        let mut k: usize = 0;
        while k < self.gates.len()
            invariant
                pow2(self.n_qubits as nat) <= usize::MAX,
                arith.total(),
                forall|c: Coefficient<A>| evaluate.requires((c,)),
                self.well_formed(),
                dim == pow2(self.n_qubits as nat),
                k <= self.gates@.len(),
                units.len() == k + 1,
                ops.len() == k,
                arith.is_identity(dim as nat, units[0]),
                units[k as int] == u@,
                u@.wf(),
                u@.rows == dim,
                u@.cols == dim,
                forall|x: int|
                    0 <= x < k ==> is_operator(
                        *arith,
                        *evaluate,
                        self.gates@[x],
                        self.n_qubits as nat,
                        #[trigger] ops[x],
                    ) && arith.is_product(ops[x], units[x], units[x + 1]),
            decreases self.gates.len() - k,
        {
            let op = self.gates[k].get_full_unitary(self.n_qubits, arith, evaluate).unwrap();
            let next = op.times_matrix(&u, arith);
            proof {
                units = units.push(next@);
                ops = ops.push(op@);
            }
            u = next;
            k = k + 1;
        }
        proof {
            assert(composition_trace(*arith, *evaluate, *self, units, ops, u@));
        }
        Ok(u)
    }

    /// The state the circuit leaves the register in, starting from all zeros.
    pub fn get_state_vector<
        T: Copy,
        Plus: Fn(T, T) -> T,
        Times: Fn(T, T) -> T,
        Eval: Fn(Coefficient<A>) -> T,
    >(&self, arith: &Arithmetic<T, Plus, Times>, evaluate: &Eval) -> (outcome: Result<
        Vec<T>,
        CircuitError,
    >)
        requires
            pow2(self.n_qubits as nat) <= usize::MAX,
            arith.total(),
            forall|c: Coefficient<A>| evaluate.requires((c,)),
        ensures
            self.accepts(outcome),
            outcome matches Ok(state) ==> state@.len() == pow2(self.n_qubits as nat),
            outcome matches Ok(state) ==> is_final_state(*arith, *evaluate, *self, state@),
    {
        self.validate()?;
        let dim = dimension(self.n_qubits).unwrap();
        let mut state = arith.basis_state(dim, 0);
        let ghost mut states: Seq<Seq<T>> = seq![state@];
        let ghost mut ops: Seq<Grid<T>> = Seq::empty();
        let mut k: usize = 0;
        while k < self.gates.len()
            invariant
                pow2(self.n_qubits as nat) <= usize::MAX,
                arith.total(),
                forall|c: Coefficient<A>| evaluate.requires((c,)),
                self.well_formed(),
                dim == pow2(self.n_qubits as nat),
                k <= self.gates@.len(),
                states.len() == k + 1,
                ops.len() == k,
                arith.is_basis_state(dim as nat, 0, states[0]),
                states[k as int] == state@,
                state@.len() == dim,
                forall|x: int|
                    0 <= x < k ==> is_operator(
                        *arith,
                        *evaluate,
                        self.gates@[x],
                        self.n_qubits as nat,
                        #[trigger] ops[x],
                    ) && arith.is_applied(ops[x], states[x], states[x + 1]),
            decreases self.gates.len() - k,
        {
            let op = self.gates[k].get_full_unitary(self.n_qubits, arith, evaluate).unwrap();
            let next = op.times_vector(&state, arith);
            proof {
                states = states.push(next@);
                ops = ops.push(op@);
            }
            state = next;
            k = k + 1;
        }
        proof {
            assert(evolution_trace(*arith, *evaluate, *self, states, ops, state@));
        }
        Ok(state)
    }

    /// The labels of the basis states, in order: basis state `i` is `i`
    /// written as a binary numeral of `n_qubits` digits, qubit 0 first.
    pub fn get_basis_vectors(&self) -> (labels: Vec<String>)
        requires
            pow2(self.n_qubits as nat) <= usize::MAX,
        ensures
            labels@.len() == pow2(self.n_qubits as nat),
            forall|i: int|
                0 <= i < labels@.len() ==> (#[trigger] labels@[i])@ == basis_label(
                    self.n_qubits as nat,
                    i as nat,
                ),
    {
        let n = self.n_qubits;
        let dim = dimension(n).unwrap();
        let mut labels: Vec<String> = Vec::new();
        let mut i: usize = 0;
        while i < dim
            invariant
                n == self.n_qubits,
                pow2(n as nat) <= usize::MAX,
                dim == pow2(n as nat),
                i <= dim,
                labels@.len() == i,
                forall|x: int|
                    0 <= x < i ==> (#[trigger] labels@[x])@ == basis_label(n as nat, x as nat),
            decreases dim - i,
        {
            let mut label = String::new();
            let mut q: usize = 0;
            while q < n
                invariant
                    pow2(n as nat) <= usize::MAX,
                    q <= n,
                    label@.len() == q,
                    forall|x: int|
                        0 <= x < q ==> label@[x] == if qubit_value(n as nat, x as nat, i as nat)
                            == 1 {
                            '1'
                        } else {
                            '0'
                        },
                decreases n - q,
            {
                let weight = weight_of(n, q);
                proof {
                    reveal_strlit("1");
                    reveal_strlit("0");
                }
                if (i / weight) % 2 == 1 {
                    label.append("1");
                } else {
                    label.append("0");
                }
                q = q + 1;
            }
            assert(label@ =~= basis_label(n as nat, i as nat));
            labels.push(label);
            i = i + 1;
        }
        labels
    }

    /// The probability of each basis state after the circuit has run.
    pub fn get_state_probabilities<
        T: Copy,
        P,
        Plus: Fn(T, T) -> T,
        Times: Fn(T, T) -> T,
        Eval: Fn(Coefficient<A>) -> T,
        Norm: Fn(T) -> P,
    >(&self, arith: &Arithmetic<T, Plus, Times>, evaluate: &Eval, norm_sqr: &Norm) -> (outcome:
        Result<Vec<P>, CircuitError>)
        requires
            pow2(self.n_qubits as nat) <= usize::MAX,
            arith.total(),
            forall|c: Coefficient<A>| evaluate.requires((c,)),
            forall|z: T| norm_sqr.requires((z,)),
        ensures
            self.accepts(outcome),
            outcome matches Ok(p) ==> exists|state: Seq<T>| #[trigger]
                is_final_state(*arith, *evaluate, *self, state) && is_measured(
                    *norm_sqr,
                    state,
                    p@,
                ),
    {
        let state = self.get_state_vector(arith, evaluate)?;
        Ok(state_probabilities(&state, norm_sqr))
    }
}

} // verus!

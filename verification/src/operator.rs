//! The operator builder: from a gate and a number of qubits to the full
//! `2^n × 2^n` matrix.

use crate::bits::{cnot_image, digit, dimension, flipped, position_of, swap_image, weight_of};
use crate::gate::{is_unitary_of, Coefficient, ErrorKind, Gate, GateType};
use crate::matrix::{kronecker_product, Grid, Matrix};
use crate::scalar::Arithmetic;
use vstd::arithmetic::power2::{
    lemma2_to64, lemma_pow2_strictly_increases, lemma_pow2_unfold, pow2,
};
use vstd::prelude::*;

verus! {

impl<T: Copy, Plus: Fn(T, T) -> T, Times: Fn(T, T) -> T> Arithmetic<T, Plus, Times> {
    /// `m` is the controlled-NOT on `n` qubits: for every basis state `i`, the
    /// cell in row `cnot_image(i)`, column `i` is one, and the rest of the
    /// column is zero.
    pub open spec fn is_cnot(&self, n: nat, control: nat, target: nat, m: Grid<T>) -> bool {
        &&& m.wf()
        &&& m.rows == pow2(n)
        &&& m.cols == pow2(n)
        &&& forall|j: int, i: int|
            0 <= j < pow2(n) && 0 <= i < pow2(n) ==> #[trigger] m.at(j, i) == if j == cnot_image(
                n,
                control,
                target,
                i as nat,
            ) {
                self.one
            } else {
                self.zero
            }
    }

    /// `m` is the swap on `n` qubits: for every basis state `i`, the cell in
    /// row `swap_image(i)`, column `i` is one, and the rest of the column is
    /// zero.
    pub open spec fn is_swap(&self, n: nat, q1: nat, q2: nat, m: Grid<T>) -> bool {
        &&& m.wf()
        &&& m.rows == pow2(n)
        &&& m.cols == pow2(n)
        &&& forall|j: int, i: int|
            0 <= j < pow2(n) && 0 <= i < pow2(n) ==> #[trigger] m.at(j, i) == if j == swap_image(
                n,
                q1,
                q2,
                i as nat,
            ) {
                self.one
            } else {
                self.zero
            }
    }

    /// The 2×2 identity.
    pub open spec fn identity2(&self) -> Grid<T> {
        Grid { rows: 2, cols: 2, cells: seq![seq![self.one, self.zero], seq![self.zero, self.one]] }
    }

    /// The factor that stands for qubit `j` when a gate with the matrix `gate`
    /// acts on qubit `q`: that matrix at `q`, the identity elsewhere.
    pub open spec fn factor(&self, gate: Grid<T>, q: nat, j: nat) -> Grid<T> {
        if j == q {
            gate
        } else {
            self.identity2()
        }
    }

    /// `stages` records how `r` is built up, one qubit at a time: `stages[0]`
    /// is the factor of qubit 0, and `stages[k]` is the Kronecker product of
    /// `stages[k - 1]` with the factor of qubit `k`; `r` is the last stage.
    pub open spec fn expansion_trace(
        &self,
        gate: Grid<T>,
        q: nat,
        stages: Seq<Grid<T>>,
        r: Grid<T>,
    ) -> bool {
        &&& stages.len() >= 1
        &&& stages[0] == self.factor(gate, q, 0)
        &&& stages[stages.len() - 1] == r
        &&& forall|k: int|
            1 <= k < stages.len() ==> self.is_kronecker(
                stages[k - 1],
                self.factor(gate, q, k as nat),
                #[trigger] stages[k],
            )
    }

    /// `r` is the Kronecker product of the factors of qubits `0` to `n - 1`,
    /// in this order and nested to the left: `(…(F_0 ⊗ F_1) ⊗ …) ⊗ F_{n-1}`.
    pub open spec fn is_expansion(&self, gate: Grid<T>, q: nat, n: nat, r: Grid<T>) -> bool {
        exists|stages: Seq<Grid<T>>|
            stages.len() == n && #[trigger] self.expansion_trace(gate, q, stages, r)
    }
}

/// `op` is the full operator of `gate` on `n` qubits: the permutation matrix
/// of a `CNOT` or `SWAP`, and for a single-qubit kind the Kronecker product of
/// its 2×2 matrix, at the place of its qubit, with identities.
pub open spec fn is_operator<
    A,
    T: Copy,
    Plus: Fn(T, T) -> T,
    Times: Fn(T, T) -> T,
    Eval: Fn(Coefficient<A>) -> T,
>(arith: Arithmetic<T, Plus, Times>, evaluate: Eval, gate: Gate<A>, n: nat, op: Grid<T>) -> bool {
    match gate.gate_type {
        GateType::CNOT => arith.is_cnot(n, gate.qubits@[0] as nat, gate.qubits@[1] as nat, op),
        GateType::SWAP => arith.is_swap(n, gate.qubits@[0] as nat, gate.qubits@[1] as nat, op),
        kind => exists|m: Grid<T>| #[trigger]
            is_unitary_of(evaluate, kind, m) && arith.is_expansion(
                m,
                gate.qubits@[0] as nat,
                n,
                op,
            ),
    }
}

/// The controlled-NOT on `n_qubits` qubits as a permutation matrix. The two
/// qubits must differ and lie in the register.
pub fn get_cnot_matrix<T: Copy, Plus: Fn(T, T) -> T, Times: Fn(T, T) -> T>(
    n_qubits: usize,
    control: usize,
    target: usize,
    arith: &Arithmetic<T, Plus, Times>,
) -> (m: Result<Matrix<T>, ErrorKind>)
    requires
        pow2(n_qubits as nat) <= usize::MAX,
    ensures
        m is Ok <==> control < n_qubits && target < n_qubits && control != target,
        m matches Ok(matrix) ==> arith.is_cnot(
            n_qubits as nat,
            control as nat,
            target as nat,
            matrix@,
        ),
        m matches Err(e) ==> e == ErrorKind::MalformedOperation,
{
    if control >= n_qubits || target >= n_qubits || control == target {
        return Err(ErrorKind::MalformedOperation);
    }
    let dim = dimension(n_qubits).unwrap();
    let control_weight = weight_of(n_qubits, control);
    let target_weight = weight_of(n_qubits, target);
    let ghost n = n_qubits as nat;
    let ghost target_pos = position_of(n, target as nat);
    let mut images: Vec<usize> = Vec::new();
    let mut i: usize = 0;
    while i < dim
        invariant
            dim == pow2(n),
            n == n_qubits,
            pow2(n) <= usize::MAX,
            control < n_qubits,
            target < n_qubits,
            control_weight == pow2(position_of(n, control as nat)),
            control_weight > 0,
            target_weight == pow2(target_pos),
            target_pos == position_of(n, target as nat),
            i <= dim,
            images@.len() == i,
            forall|x: int|
                0 <= x < i ==> images@[x] == cnot_image(n, control as nat, target as nat, x as nat),
        decreases dim - i,
    {
        let image = if digit(i, control_weight) == 1 {
            flipped(i, target_weight, Ghost(target_pos), Ghost(n))
        } else {
            i
        };
        images.push(image);
        i = i + 1;
    }
    Ok(Matrix::permutation(&images, arith.zero, arith.one))
}

/// The swap of two qubits on `num_qubits` qubits as a permutation matrix.
/// The two qubits must differ and lie in the register.
pub fn get_swap_matrix<T: Copy, Plus: Fn(T, T) -> T, Times: Fn(T, T) -> T>(
    num_qubits: usize,
    qubit1: usize,
    qubit2: usize,
    arith: &Arithmetic<T, Plus, Times>,
) -> (m: Result<Matrix<T>, ErrorKind>)
    requires
        pow2(num_qubits as nat) <= usize::MAX,
    ensures
        m is Ok <==> qubit1 < num_qubits && qubit2 < num_qubits && qubit1 != qubit2,
        m matches Ok(matrix) ==> arith.is_swap(
            num_qubits as nat,
            qubit1 as nat,
            qubit2 as nat,
            matrix@,
        ),
        m matches Err(e) ==> e == ErrorKind::MalformedOperation,
{
    if qubit1 >= num_qubits || qubit2 >= num_qubits || qubit1 == qubit2 {
        return Err(ErrorKind::MalformedOperation);
    }
    let dim = dimension(num_qubits).unwrap();
    let weight1 = weight_of(num_qubits, qubit1);
    let weight2 = weight_of(num_qubits, qubit2);
    let ghost n = num_qubits as nat;
    let ghost pos1 = position_of(n, qubit1 as nat);
    let ghost pos2 = position_of(n, qubit2 as nat);
    let mut images: Vec<usize> = Vec::new();
    let mut i: usize = 0;
    while i < dim
        invariant
            dim == pow2(n),
            n == num_qubits,
            pow2(n) <= usize::MAX,
            qubit1 < num_qubits,
            qubit2 < num_qubits,
            weight1 == pow2(pos1),
            weight2 == pow2(pos2),
            weight1 > 0,
            weight2 > 0,
            pos1 == position_of(n, qubit1 as nat),
            pos2 == position_of(n, qubit2 as nat),
            i <= dim,
            images@.len() == i,
            forall|x: int|
                0 <= x < i ==> images@[x] == swap_image(n, qubit1 as nat, qubit2 as nat, x as nat),
        decreases dim - i,
    {
        let image = if digit(i, weight1) != digit(i, weight2) {
            let once = flipped(i, weight1, Ghost(pos1), Ghost(n));
            flipped(once, weight2, Ghost(pos2), Ghost(n))
        } else {
            i
        };
        images.push(image);
        i = i + 1;
    }
    Ok(Matrix::permutation(&images, arith.zero, arith.one))
}

/// The full operator of a single-qubit gate with the 2×2 matrix
/// `gate_matrix` on qubit `qubit_idx` of `n_qubits`: the Kronecker product,
/// over all qubits from the first to the last, of that matrix at its own qubit
/// and the 2×2 identity at every other.
pub fn expand_single_qubit_gate<T: Copy, Plus: Fn(T, T) -> T, Times: Fn(T, T) -> T>(
    gate_matrix: &Matrix<T>,
    qubit_idx: usize,
    n_qubits: usize,
    arith: &Arithmetic<T, Plus, Times>,
) -> (full: Matrix<T>)
    requires
        arith.total(),
        pow2(n_qubits as nat) <= usize::MAX,
        qubit_idx < n_qubits,
        gate_matrix@.wf(),
        gate_matrix@.rows == 2,
        gate_matrix@.cols == 2,
    ensures
        full@.wf(),
        full@.rows == pow2(n_qubits as nat),
        full@.cols == pow2(n_qubits as nat),
        arith.is_expansion(gate_matrix@, qubit_idx as nat, n_qubits as nat, full@),
{
    let identity = Matrix::identity(2, arith.zero, arith.one);
    proof {
        lemma2_to64();
        assert(identity@.cells[0] =~= seq![arith.one, arith.zero]) by {
            assert(identity@.at(0, 0) == arith.one);
            assert(identity@.at(0, 1) == arith.zero);
        }
        assert(identity@.cells[1] =~= seq![arith.zero, arith.one]) by {
            assert(identity@.at(1, 0) == arith.zero);
            assert(identity@.at(1, 1) == arith.one);
        }
        assert(identity@.cells =~= arith.identity2().cells);
    }
    let mut full = if qubit_idx == 0 {
        gate_matrix.duplicate()
    } else {
        identity.duplicate()
    };
    let ghost n = n_qubits as nat;
    let ghost mut stages: Seq<Grid<T>> = seq![full@];
    let mut j: usize = 1;
    while j < n_qubits
        invariant
            arith.total(),
            n == n_qubits,
            pow2(n) <= usize::MAX,
            1 <= j <= n_qubits,
            identity@ == arith.identity2(),
            gate_matrix@.rows == 2,
            gate_matrix@.cols == 2,
            full@.wf(),
            full@.rows == pow2(j as nat),
            full@.cols == pow2(j as nat),
            stages.len() == j,
            arith.expansion_trace(gate_matrix@, qubit_idx as nat, stages, full@),
        decreases n_qubits - j,
    {
        proof {
            lemma_pow2_unfold((j + 1) as nat);
            if j + 1 < n {
                lemma_pow2_strictly_increases((j + 1) as nat, n);
            }
        }
        let next = if j == qubit_idx {
            kronecker_product(&full, gate_matrix, arith)
        } else {
            kronecker_product(&full, &identity, arith)
        };
        proof {
            stages = stages.push(next@);
        }
        full = next;
        j = j + 1;
    }
    full
}

impl<A: Copy> Gate<A> {
    /// The full operator of this gate on `n_qubits` qubits. A gate that does not
    /// fit the register is refused before any matrix is built.
    pub fn get_full_unitary<
        T: Copy,
        Plus: Fn(T, T) -> T,
        Times: Fn(T, T) -> T,
        Eval: Fn(Coefficient<A>) -> T,
    >(&self, n_qubits: usize, arith: &Arithmetic<T, Plus, Times>, evaluate: &Eval) -> (op: Result<
        Matrix<T>,
        ErrorKind,
    >)
        requires
            pow2(n_qubits as nat) <= usize::MAX,
            arith.total(),
            forall|c: Coefficient<A>| evaluate.requires((c,)),
        ensures
            op is Ok <==> self.well_formed(n_qubits as nat),
            op matches Ok(matrix) ==> matrix@.wf() && matrix@.rows == pow2(n_qubits as nat)
                && matrix@.cols == pow2(n_qubits as nat),
            op matches Ok(matrix) ==> is_operator(
                *arith,
                *evaluate,
                *self,
                n_qubits as nat,
                matrix@,
            ),
            op matches Err(e) ==> e == ErrorKind::MalformedOperation,
    {
        if !self.is_well_formed(n_qubits) {
            return Err(ErrorKind::MalformedOperation);
        }
        match self.gate_type {
            GateType::CNOT => get_cnot_matrix(n_qubits, self.qubits[0], self.qubits[1], arith),
            GateType::SWAP => get_swap_matrix(n_qubits, self.qubits[0], self.qubits[1], arith),
            _ => {
                let gate_matrix = self.gate_type.unitary_matrix(evaluate).unwrap();
                Ok(expand_single_qubit_gate(&gate_matrix, self.qubits[0], n_qubits, arith))
            },
        }
    }
}

} // verus!

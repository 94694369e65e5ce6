//! Gates that only move amplitudes: `X`, `CNOT` and `SWAP`.

use crate::bits::{
    cnot_image, flip_qubit, lemma_cnot_image, lemma_cnot_image_twice, lemma_flip_qubit,
    lemma_flip_qubit_characterized, lemma_split_at_bit, lemma_swap_image, lemma_swap_image_twice,
    position_of, swap_image,
};
use crate::gate::{is_unitary_of, Coefficient, Gate};
use crate::laws::expansion::lemma_expansion_closed_form;
use crate::matrix::Grid;
use crate::operator::is_operator;
use crate::scalar::Arithmetic;
use vstd::arithmetic::power2::pow2;
use vstd::prelude::*;

verus! {

impl<T: Copy, Plus: Fn(T, T) -> T, Times: Fn(T, T) -> T> Arithmetic<T, Plus, Times> {
    /// `m` is the permutation matrix of `image` on `dim` basis states: column
    /// `i` holds one in row `image(i)` and zero in every other row.
    pub open spec fn is_permutation(
        &self,
        dim: nat,
        image: spec_fn(int) -> int,
        m: Grid<T>,
    ) -> bool {
        &&& m.wf()
        &&& m.rows == dim
        &&& m.cols == dim
        &&& forall|j: int, i: int|
            0 <= j < dim && 0 <= i < dim ==> #[trigger] m.at(j, i) == if j == image(i) {
                self.one
            } else {
                self.zero
            }
    }
}

/// `image` maps the numbers below `dim` to numbers below `dim` and undoes
/// itself.
pub open spec fn is_involution(dim: nat, image: spec_fn(int) -> int) -> bool {
    forall|i: int| 0 <= i < dim ==> 0 <= #[trigger] image(i) < dim && image(image(i)) == i
}

/// The running sum over a row that holds one at `hit` and zero elsewhere:
/// zero up to `hit`, the entry of the vector at `hit` from there on.
proof fn lemma_unit_row_sums<T: Copy, Plus: Fn(T, T) -> T, Times: Fn(T, T) -> T>(
    arith: Arithmetic<T, Plus, Times>,
    row: Seq<T>,
    v: Seq<T>,
    products: Seq<T>,
    sums: Seq<T>,
    total: T,
    hit: int,
    upto: int,
)
    requires
        arith.unital(),
        arith.dot_trace(row, v, products, sums, total),
        0 <= hit < row.len(),
        forall|k: int|
            0 <= k < row.len() ==> #[trigger] row[k] == if k == hit {
                arith.one
            } else {
                arith.zero
            },
        0 <= upto <= row.len(),
    ensures
        sums[upto] == if upto > hit {
            v[hit]
        } else {
            arith.zero
        },
    decreases upto,
{
    if upto > 0 {
        let k = upto - 1;
        lemma_unit_row_sums(arith, row, v, products, sums, total, hit, k);
        assert(arith.product(row[k], v[k], products[k]) && arith.sum(
            sums[k],
            products[k],
            sums[k + 1],
        ));
    }
}

/// Applying a permutation matrix moves the amplitudes and changes none:
/// where zero and one behave as such and the permutation undoes itself, the
/// amplitude of basis state `i` is afterwards that of basis state `image(i)`.
pub proof fn lemma_apply_permutation<T: Copy, Plus: Fn(T, T) -> T, Times: Fn(T, T) -> T>(
    arith: Arithmetic<T, Plus, Times>,
    dim: nat,
    image: spec_fn(int) -> int,
    op: Grid<T>,
    v: Seq<T>,
    w: Seq<T>,
)
    requires
        arith.unital(),
        is_involution(dim, image),
        arith.is_permutation(dim, image, op),
        v.len() == dim,
        arith.is_applied(op, v, w),
    ensures
        w.len() == dim,
        forall|i: int| 0 <= i < dim ==> w[#[trigger] image(i)] == v[i],
{
    assert forall|i: int| 0 <= i < dim implies w[#[trigger] image(i)] == v[i] by {
        let j = image(i);
        let row = op.cells[j];
        assert(arith.is_dot(row, v, w[j]));
        let (products, sums) = choose|products: Seq<T>, sums: Seq<T>|
            arith.dot_trace(row, v, products, sums, w[j]);
        assert forall|k: int| 0 <= k < row.len() implies #[trigger] row[k] == if k == i {
            arith.one
        } else {
            arith.zero
        } by {
            assert(row[k] == op.at(j, k));
            if image(k) == j {
                assert(image(image(k)) == k);
            }
        }
        lemma_unit_row_sums(arith, row, v, products, sums, w[j], i, dim as int);
    }
}

/// A permutation that undoes itself sends a basis state to a basis state: if
/// all of the amplitude sits on `b` and every amplitude moves from `i` to
/// `image(i)`, then afterwards all of it sits on `image(b)`.
pub proof fn lemma_moved_basis_state<T: Copy, Plus: Fn(T, T) -> T, Times: Fn(T, T) -> T>(
    arith: Arithmetic<T, Plus, Times>,
    dim: nat,
    image: spec_fn(int) -> int,
    v: Seq<T>,
    w: Seq<T>,
    b: nat,
)
    requires
        is_involution(dim, image),
        b < dim,
        arith.is_basis_state(dim, b, v),
        w.len() == dim,
        forall|i: int| 0 <= i < dim ==> w[#[trigger] image(i)] == v[i],
    ensures
        arith.is_basis_state(dim, image(b as int) as nat, w),
{
    assert forall|j: int| 0 <= j < dim implies #[trigger] w[j] == if j == image(b as int) {
        arith.one
    } else {
        arith.zero
    } by {
        let i = image(j);
        assert(image(i) == j);
        assert(w[image(i)] == v[i]);
        if i == b {
        } else if j == image(b as int) {
            assert(image(image(b as int)) == b);
        }
    }
}

/// A controlled-NOT moves the amplitude of every basis state to the state
/// with the target inverted where the control is 1, and changes none.
pub proof fn lemma_cnot_moves_amplitudes<T: Copy, Plus: Fn(T, T) -> T, Times: Fn(T, T) -> T>(
    arith: Arithmetic<T, Plus, Times>,
    n: nat,
    control: nat,
    target: nat,
    op: Grid<T>,
    v: Seq<T>,
    w: Seq<T>,
)
    requires
        arith.unital(),
        control < n,
        target < n,
        control != target,
        arith.is_cnot(n, control, target, op),
        v.len() == pow2(n),
        arith.is_applied(op, v, w),
    ensures
        w.len() == pow2(n),
        forall|i: int|
            0 <= i < pow2(n) ==> w[#[trigger] cnot_image(n, control, target, i as nat) as int]
                == v[i],
{
    let image = |i: int| cnot_image(n, control, target, i as nat) as int;
    assert forall|i: int| 0 <= i < pow2(n) implies 0 <= #[trigger] image(i) < pow2(n) && image(
        image(i),
    ) == i by {
        lemma_cnot_image(n, control, target, i as nat);
        lemma_cnot_image_twice(n, control, target, i as nat);
    }
    lemma_apply_permutation(arith, pow2(n), image, op, v, w);
    assert forall|i: int| 0 <= i < pow2(n) implies w[#[trigger] cnot_image(
        n,
        control,
        target,
        i as nat,
    ) as int] == v[i] by {
        assert(w[image(i)] == v[i]);
    }
}

/// A swap moves the amplitude of every basis state to the state with the two
/// qubits exchanged, and changes none.
pub proof fn lemma_swap_moves_amplitudes<T: Copy, Plus: Fn(T, T) -> T, Times: Fn(T, T) -> T>(
    arith: Arithmetic<T, Plus, Times>,
    n: nat,
    q1: nat,
    q2: nat,
    op: Grid<T>,
    v: Seq<T>,
    w: Seq<T>,
)
    requires
        arith.unital(),
        q1 < n,
        q2 < n,
        arith.is_swap(n, q1, q2, op),
        v.len() == pow2(n),
        arith.is_applied(op, v, w),
    ensures
        w.len() == pow2(n),
        forall|i: int|
            0 <= i < pow2(n) ==> w[#[trigger] swap_image(n, q1, q2, i as nat) as int] == v[i],
{
    let image = |i: int| swap_image(n, q1, q2, i as nat) as int;
    assert forall|i: int| 0 <= i < pow2(n) implies 0 <= #[trigger] image(i) < pow2(n) && image(
        image(i),
    ) == i by {
        lemma_swap_image(n, q1, q2, i as nat);
        lemma_swap_image_twice(n, q1, q2, i as nat);
    }
    lemma_apply_permutation(arith, pow2(n), image, op, v, w);
    assert forall|i: int| 0 <= i < pow2(n) implies w[#[trigger] swap_image(
        n,
        q1,
        q2,
        i as nat,
    ) as int] == v[i] by {
        assert(w[image(i)] == v[i]);
    }
}

/// `evaluate` reads the formulas 0 and 1 as the zero and the one of `arith`.
pub open spec fn reads_units<
    A,
    T: Copy,
    Plus: Fn(T, T) -> T,
    Times: Fn(T, T) -> T,
    Eval: Fn(Coefficient<A>) -> T,
>(arith: Arithmetic<T, Plus, Times>, evaluate: Eval) -> bool {
    &&& forall|z: T| #[trigger] evaluate.ensures((Coefficient::<A>::Zero,), z) ==> z == arith.zero
    &&& forall|z: T| #[trigger] evaluate.ensures((Coefficient::<A>::One,), z) ==> z == arith.one
}

/// `X` on qubit `q` moves the amplitude of every basis state to the state with
/// qubit `q` inverted, and changes none.
pub proof fn lemma_pauli_x_moves_amplitudes<
    A,
    T: Copy,
    Plus: Fn(T, T) -> T,
    Times: Fn(T, T) -> T,
    Eval: Fn(Coefficient<A>) -> T,
>(
    arith: Arithmetic<T, Plus, Times>,
    evaluate: Eval,
    gate: Gate<A>,
    n: nat,
    op: Grid<T>,
    v: Seq<T>,
    w: Seq<T>,
)
    requires
        arith.unital(),
        reads_units(arith, evaluate),
        gate.gate_type is X,
        gate.well_formed(n),
        is_operator(arith, evaluate, gate, n, op),
        v.len() == pow2(n),
        arith.is_applied(op, v, w),
    ensures
        w.len() == pow2(n),
        forall|i: int|
            0 <= i < pow2(n) ==> w[#[trigger] flip_qubit(n, gate.qubits@[0] as nat, i as nat) as int]
                == v[i],
{
    let q = gate.qubits@[0] as nat;
    let m = choose|m: Grid<T>| #[trigger]
        is_unitary_of(evaluate, gate.gate_type, m) && arith.is_expansion(m, q, n, op);
    lemma_expansion_closed_form(arith, m, q, n, op);
    assert(m.at(0, 0) == arith.zero && m.at(0, 1) == arith.one && m.at(1, 0) == arith.one && m.at(
        1,
        1,
    ) == arith.zero);
    let image = |i: int| flip_qubit(n, q, i as nat) as int;
    assert forall|i: int| 0 <= i < pow2(n) implies 0 <= #[trigger] image(i) < pow2(n) && image(
        image(i),
    ) == i by {
        lemma_flip_qubit(n, q, i as nat);
    }
    assert forall|j: int, i: int| 0 <= j < pow2(n) && 0 <= i < pow2(n) implies #[trigger] op.at(
        j,
        i,
    ) == if j == image(i) {
        arith.one
    } else {
        arith.zero
    } by {
        lemma_flip_qubit_characterized(n, q, i as nat, j as nat);
        lemma_split_at_bit(i as nat, position_of(n, q));
        lemma_split_at_bit(j as nat, position_of(n, q));
        assert(op.at(j, i) == arith.expanded_cell(m, n, q, j as nat, i as nat));
    }
    lemma_apply_permutation(arith, pow2(n), image, op, v, w);
    assert forall|i: int| 0 <= i < pow2(n) implies w[#[trigger] flip_qubit(n, q, i as nat) as int]
        == v[i] by {
        assert(w[image(i)] == v[i]);
    }
}

/// `X` is its own inverse: applied twice to a qubit, it gives back the very
/// state it started from.
pub proof fn lemma_pauli_x_twice<
    A,
    T: Copy,
    Plus: Fn(T, T) -> T,
    Times: Fn(T, T) -> T,
    Eval: Fn(Coefficient<A>) -> T,
>(
    arith: Arithmetic<T, Plus, Times>,
    evaluate: Eval,
    gate: Gate<A>,
    n: nat,
    first: Grid<T>,
    second: Grid<T>,
    start: Seq<T>,
    between: Seq<T>,
    end: Seq<T>,
)
    requires
        arith.unital(),
        reads_units(arith, evaluate),
        gate.gate_type is X,
        gate.well_formed(n),
        start.len() == pow2(n),
        is_operator(arith, evaluate, gate, n, first),
        arith.is_applied(first, start, between),
        is_operator(arith, evaluate, gate, n, second),
        arith.is_applied(second, between, end),
    ensures
        end == start,
{
    let q = gate.qubits@[0] as nat;
    lemma_pauli_x_moves_amplitudes(arith, evaluate, gate, n, first, start, between);
    lemma_pauli_x_moves_amplitudes(arith, evaluate, gate, n, second, between, end);
    assert forall|i: int| 0 <= i < pow2(n) implies end[i] == start[i] by {
        let j = flip_qubit(n, q, i as nat) as int;
        lemma_flip_qubit(n, q, i as nat);
        assert(between[j] == start[i]);
        assert(end[flip_qubit(n, q, j as nat) as int] == between[j]);
    }
    assert(end =~= start);
}

} // verus!

//! The operator of a single-qubit gate, cell by cell.

use crate::bits::{lemma_drop_last_qubit, lemma_last_qubit, qubit_value, without_qubit};
use crate::matrix::Grid;
use crate::scalar::Arithmetic;
use vstd::arithmetic::power2::{lemma2_to64, lemma_pow2_unfold, pow2};
use vstd::prelude::*;

verus! {

impl<T: Copy, Plus: Fn(T, T) -> T, Times: Fn(T, T) -> T> Arithmetic<T, Plus, Times> {
    /// The cell in row `row`, column `col` of the operator of a single-qubit
    /// gate on qubit `q` of `n`: where the two basis states agree in every
    /// other qubit, that cell of its 2×2 matrix that the two values of
    /// qubit `q` select; zero where they do not.
    pub open spec fn expanded_cell(&self, gate: Grid<T>, n: nat, q: nat, row: nat, col: nat) -> T {
        if without_qubit(n, q, row) == without_qubit(n, q, col) {
            gate.at(qubit_value(n, q, row) as int, qubit_value(n, q, col) as int)
        } else {
            self.zero
        }
    }

    /// `r` is the operator of a single-qubit gate on qubit `q` of `n`, cell by
    /// cell.
    pub open spec fn is_expanded(&self, gate: Grid<T>, n: nat, q: nat, r: Grid<T>) -> bool {
        &&& r.wf()
        &&& r.rows == pow2(n)
        &&& r.cols == pow2(n)
        &&& forall|row: int, col: int|
            0 <= row < pow2(n) && 0 <= col < pow2(n) ==> #[trigger] r.at(row, col)
                == self.expanded_cell(gate, n, q, row as nat, col as nat)
    }
}

/// The shape of a Kronecker product with a 2×2 factor, and where each of its
/// cells comes from.
proof fn lemma_double<T: Copy, Plus: Fn(T, T) -> T, Times: Fn(T, T) -> T>(
    arith: Arithmetic<T, Plus, Times>,
    prev: Grid<T>,
    factor: Grid<T>,
    cur: Grid<T>,
    s: nat,
)
    requires
        prev.rows == pow2(s),
        prev.cols == pow2(s),
        factor.rows == 2,
        factor.cols == 2,
        arith.is_kronecker(prev, factor, cur),
    ensures
        cur.wf(),
        cur.rows == pow2(s + 1),
        cur.cols == pow2(s + 1),
        forall|row: int, col: int|
            0 <= row < pow2(s + 1) && 0 <= col < pow2(s + 1) ==> arith.product(
                prev.at(row / 2, col / 2),
                factor.at(row % 2, col % 2),
                #[trigger] cur.at(row, col),
            ) && 0 <= row / 2 < pow2(s) && 0 <= col / 2 < pow2(s),
{
    lemma_pow2_unfold(s + 1);
    assert(cur.rows == pow2(s + 1) && cur.cols == pow2(s + 1)) by (nonlinear_arith)
        requires
            cur.rows == prev.rows * factor.rows,
            cur.cols == prev.cols * factor.cols,
            factor.rows == 2,
            factor.cols == 2,
            prev.rows == pow2(s),
            prev.cols == pow2(s),
            pow2(s + 1) == 2 * pow2(s),
    ;
}

/// The cells of the 2×2 identity.
proof fn lemma_identity2<T: Copy, Plus: Fn(T, T) -> T, Times: Fn(T, T) -> T>(
    arith: Arithmetic<T, Plus, Times>,
)
    ensures
        arith.identity2().wf(),
        arith.identity2().at(0, 0) == arith.one,
        arith.identity2().at(0, 1) == arith.zero,
        arith.identity2().at(1, 0) == arith.zero,
        arith.identity2().at(1, 1) == arith.one,
        arith.is_identity(2, arith.identity2()),
{
}

/// The identity on one more qubit is the Kronecker product of the identity
/// with the 2×2 identity.
proof fn lemma_stage_before<T: Copy, Plus: Fn(T, T) -> T, Times: Fn(T, T) -> T>(
    arith: Arithmetic<T, Plus, Times>,
    prev: Grid<T>,
    cur: Grid<T>,
    s: nat,
)
    requires
        arith.unital(),
        arith.is_identity(pow2(s), prev),
        arith.is_kronecker(prev, arith.identity2(), cur),
    ensures
        arith.is_identity(pow2(s + 1), cur),
{
    lemma_identity2(arith);
    lemma_double(arith, prev, arith.identity2(), cur, s);
    assert forall|row: int, col: int|
        0 <= row < pow2(s + 1) && 0 <= col < pow2(s + 1) implies #[trigger] cur.at(row, col)
        == if row == col {
        arith.one
    } else {
        arith.zero
    } by {
        let left = prev.at(row / 2, col / 2);
        let right = arith.identity2().at(row % 2, col % 2);
        assert(arith.product(left, right, cur.at(row, col)));
        if row / 2 != col / 2 {
            assert(left == arith.zero);
        } else if row % 2 != col % 2 {
            assert(right == arith.zero);
        } else {
            assert(left == arith.one);
            assert(right == arith.one);
        }
    }
}

/// The operator of a gate on the last of `s + 1` qubits is the Kronecker
/// product of the identity with its 2×2 matrix.
proof fn lemma_stage_at<T: Copy, Plus: Fn(T, T) -> T, Times: Fn(T, T) -> T>(
    arith: Arithmetic<T, Plus, Times>,
    gate: Grid<T>,
    prev: Grid<T>,
    cur: Grid<T>,
    s: nat,
)
    requires
        arith.unital(),
        gate.rows == 2,
        gate.cols == 2,
        arith.is_identity(pow2(s), prev),
        arith.is_kronecker(prev, gate, cur),
    ensures
        arith.is_expanded(gate, s + 1, s, cur),
{
    lemma_double(arith, prev, gate, cur, s);
    assert forall|row: int, col: int|
        0 <= row < pow2(s + 1) && 0 <= col < pow2(s + 1) implies #[trigger] cur.at(row, col)
        == arith.expanded_cell(gate, s + 1, s, row as nat, col as nat) by {
        let left = prev.at(row / 2, col / 2);
        let right = gate.at(row % 2, col % 2);
        assert(arith.product(left, right, cur.at(row, col)));
        lemma_last_qubit(s + 1, row as nat);
        lemma_last_qubit(s + 1, col as nat);
        if row / 2 != col / 2 {
            assert(left == arith.zero);
        } else {
            assert(left == arith.one);
        }
    }
}

/// The operator of a gate on one more qubit is the Kronecker product of its
/// operator with the 2×2 identity.
proof fn lemma_stage_after<T: Copy, Plus: Fn(T, T) -> T, Times: Fn(T, T) -> T>(
    arith: Arithmetic<T, Plus, Times>,
    gate: Grid<T>,
    q: nat,
    prev: Grid<T>,
    cur: Grid<T>,
    s: nat,
)
    requires
        arith.unital(),
        q < s,
        arith.is_expanded(gate, s, q, prev),
        arith.is_kronecker(prev, arith.identity2(), cur),
    ensures
        arith.is_expanded(gate, s + 1, q, cur),
{
    lemma_identity2(arith);
    lemma_double(arith, prev, arith.identity2(), cur, s);
    assert forall|row: int, col: int|
        0 <= row < pow2(s + 1) && 0 <= col < pow2(s + 1) implies #[trigger] cur.at(row, col)
        == arith.expanded_cell(gate, s + 1, q, row as nat, col as nat) by {
        let left = prev.at(row / 2, col / 2);
        let right = arith.identity2().at(row % 2, col % 2);
        assert(arith.product(left, right, cur.at(row, col)));
        lemma_drop_last_qubit(s + 1, q, row as nat);
        lemma_drop_last_qubit(s + 1, q, col as nat);
        assert(left == arith.expanded_cell(gate, s, q, (row / 2) as nat, (col / 2) as nat));
        if row % 2 != col % 2 {
            assert(right == arith.zero);
        } else {
            assert(right == arith.one);
        }
    }
}

/// Stage `s` of an expansion, cell by cell: the identity as long as qubit `q`
/// has not been reached, and from then on the operator of a gate on qubit `q`
/// of the qubits so far.
proof fn lemma_stage_cells<T: Copy, Plus: Fn(T, T) -> T, Times: Fn(T, T) -> T>(
    arith: Arithmetic<T, Plus, Times>,
    gate: Grid<T>,
    q: nat,
    stages: Seq<Grid<T>>,
    r: Grid<T>,
    s: nat,
)
    requires
        arith.unital(),
        gate.wf(),
        gate.rows == 2,
        gate.cols == 2,
        arith.expansion_trace(gate, q, stages, r),
        s < stages.len(),
    ensures
        q <= s ==> arith.is_expanded(gate, s + 1, q, stages[s as int]),
        q > s ==> arith.is_identity(pow2(s + 1), stages[s as int]),
    decreases s,
{
    lemma2_to64();
    lemma_identity2(arith);
    if s == 0 {
        if q == 0 {
            assert forall|row: int, col: int| 0 <= row < 2 && 0 <= col < 2 implies #[trigger] gate.at(
                row,
                col,
            ) == arith.expanded_cell(gate, 1, 0, row as nat, col as nat) by {
                lemma_last_qubit(1, row as nat);
                lemma_last_qubit(1, col as nat);
            }
        }
    } else {
        let prev = stages[s - 1];
        let cur = stages[s as int];
        lemma_stage_cells(arith, gate, q, stages, r, (s - 1) as nat);
        assert(arith.is_kronecker(prev, arith.factor(gate, q, s), cur));
        if q < s {
            lemma_stage_after(arith, gate, q, prev, cur, s);
        } else if q == s {
            lemma_stage_at(arith, gate, prev, cur, s);
        } else {
            lemma_stage_before(arith, prev, cur, s);
        }
    }
}

/// The Kronecker expansion of a single-qubit gate in closed form. Where zero
/// and one behave as such, the operator of a gate on qubit `q` of `n` couples
/// only basis states that agree in every other qubit, and couples those by the
/// cell of its own 2×2 matrix that the two values of qubit `q` select.
pub proof fn lemma_expansion_closed_form<T: Copy, Plus: Fn(T, T) -> T, Times: Fn(T, T) -> T>(
    arith: Arithmetic<T, Plus, Times>,
    gate: Grid<T>,
    q: nat,
    n: nat,
    r: Grid<T>,
)
    requires
        arith.unital(),
        gate.wf(),
        gate.rows == 2,
        gate.cols == 2,
        q < n,
        arith.is_expansion(gate, q, n, r),
    ensures
        arith.is_expanded(gate, n, q, r),
{
    let stages = choose|stages: Seq<Grid<T>>|
        stages.len() == n && #[trigger] arith.expansion_trace(gate, q, stages, r);
    lemma_stage_cells(arith, gate, q, stages, r, (n - 1) as nat);
}

} // verus!

//! A single-qubit gate acts on pairs of amplitudes: the two basis states that
//! differ in its qubit and in nothing else.

use crate::bits::{
    flip_qubit, lemma_flip_qubit, lemma_flip_qubit_characterized, lemma_without_qubit, position_of,
    qubit_value, without_qubit,
};
use crate::gate::{is_unitary_of, Coefficient, Gate};
use crate::laws::determinism::{lemma_unitary_is_determined, reads_one_value};
use crate::laws::expansion::lemma_expansion_closed_form;
use crate::matrix::Grid;
use crate::operator::is_operator;
use crate::scalar::Arithmetic;
use vstd::arithmetic::power2::{lemma_pow2_pos, pow2};
use vstd::prelude::*;

verus! {

impl<T: Copy, Plus: Fn(T, T) -> T, Times: Fn(T, T) -> T> Arithmetic<T, Plus, Times> {
    /// `r` is `a · x + b · y`.
    pub open spec fn is_combination(&self, a: T, x: T, b: T, y: T, r: T) -> bool {
        exists|p: T, q: T|
            #![trigger self.product(a, x, p), self.product(b, y, q)]
            self.product(a, x, p) && self.product(b, y, q) && self.sum(p, q, r)
    }

    /// `(x1, y1)` is the 2×2 matrix `gate` applied to the pair `(x, y)`.
    pub open spec fn is_pair_image(&self, gate: Grid<T>, x: T, y: T, x1: T, y1: T) -> bool {
        &&& self.is_combination(gate.at(0, 0), x, gate.at(0, 1), y, x1)
        &&& self.is_combination(gate.at(1, 0), x, gate.at(1, 1), y, y1)
    }

    /// The 2×2 matrix `gate` undoes itself: applied twice to a pair of
    /// scalars, it gives the pair back.
    pub open spec fn is_self_inverse(&self, gate: Grid<T>) -> bool {
        forall|x: T, y: T, x1: T, y1: T, x2: T, y2: T|
            #![trigger
                self.is_pair_image(gate, x, y, x1, y1),
                self.is_pair_image(gate, x1, y1, x2, y2),
            ]
            self.is_pair_image(gate, x, y, x1, y1) && self.is_pair_image(gate, x1, y1, x2, y2)
                ==> x2 == x && y2 == y
    }
}

/// The running sum over a row that is zero but at `c0` and `c1`: zero up to
/// `c0`, the first product up to `c1`, and from there on the sum of the two
/// products.
proof fn lemma_two_hit_sums<T: Copy, Plus: Fn(T, T) -> T, Times: Fn(T, T) -> T>(
    arith: Arithmetic<T, Plus, Times>,
    row: Seq<T>,
    v: Seq<T>,
    products: Seq<T>,
    sums: Seq<T>,
    total: T,
    c0: int,
    c1: int,
    upto: int,
)
    requires
        arith.unital(),
        arith.dot_trace(row, v, products, sums, total),
        0 <= c0 < c1 < row.len(),
        forall|k: int| 0 <= k < row.len() && k != c0 && k != c1 ==> #[trigger] row[k] == arith.zero,
        0 <= upto <= row.len(),
    ensures
        sums[upto] == if upto <= c0 {
            arith.zero
        } else if upto <= c1 {
            products[c0]
        } else {
            sums[c1 + 1]
        },
    decreases upto,
{
    if upto > 0 {
        let k = upto - 1;
        lemma_two_hit_sums(arith, row, v, products, sums, total, c0, c1, k);
        assert(arith.product(row[k], v[k], products[k]) && arith.sum(
            sums[k],
            products[k],
            sums[k + 1],
        ));
        if k != c0 && k != c1 {
            assert(row[k] == arith.zero);
        }
    }
}

/// The inner product of a vector with a row that is zero but at `c0` and
/// `c1` is the combination of the two entries of the vector at those places.
proof fn lemma_two_hit_dot<T: Copy, Plus: Fn(T, T) -> T, Times: Fn(T, T) -> T>(
    arith: Arithmetic<T, Plus, Times>,
    row: Seq<T>,
    v: Seq<T>,
    total: T,
    c0: int,
    c1: int,
)
    requires
        arith.unital(),
        arith.is_dot(row, v, total),
        0 <= c0 < c1 < row.len(),
        forall|k: int| 0 <= k < row.len() && k != c0 && k != c1 ==> #[trigger] row[k] == arith.zero,
    ensures
        arith.is_combination(row[c0], v[c0], row[c1], v[c1], total),
{
    let (products, sums) = choose|products: Seq<T>, sums: Seq<T>|
        arith.dot_trace(row, v, products, sums, total);
    lemma_two_hit_sums(arith, row, v, products, sums, total, c0, c1, c1);
    lemma_two_hit_sums(arith, row, v, products, sums, total, c0, c1, row.len() as int);
    assert(arith.product(row[c0], v[c0], products[c0]));
    assert(arith.product(row[c1], v[c1], products[c1]) && arith.sum(
        sums[c1],
        products[c1],
        sums[c1 + 1],
    ));
}

/// One row of the operator of a single-qubit gate: the amplitude that comes
/// out at `r`, one of the two states of a pair, is the combination of the two
/// amplitudes of the pair by the row of the 2×2 matrix that the value of the
/// qubit in `r` selects.
proof fn lemma_expanded_row<T: Copy, Plus: Fn(T, T) -> T, Times: Fn(T, T) -> T>(
    arith: Arithmetic<T, Plus, Times>,
    gate: Grid<T>,
    n: nat,
    q: nat,
    op: Grid<T>,
    v: Seq<T>,
    w: Seq<T>,
    i: nat,
    r: nat,
)
    requires
        arith.unital(),
        q < n,
        arith.is_expanded(gate, n, q, op),
        v.len() == pow2(n),
        arith.is_applied(op, v, w),
        i < pow2(n),
        qubit_value(n, q, i) == 0,
        r == i || r == flip_qubit(n, q, i),
    ensures
        arith.is_combination(
            gate.at(qubit_value(n, q, r) as int, 0),
            v[i as int],
            gate.at(qubit_value(n, q, r) as int, 1),
            v[flip_qubit(n, q, i) as int],
            w[r as int],
        ),
{
    let c0 = i as int;
    let c1 = flip_qubit(n, q, i) as int;
    lemma_flip_qubit(n, q, i);
    lemma_without_qubit(n, q, i);
    lemma_without_qubit(n, q, c1 as nat);
    lemma_pow2_pos(position_of(n, q));
    let row = op.cells[r as int];
    assert(arith.is_dot(row, v, w[r as int]));
    assert forall|k: int| 0 <= k < row.len() && k != c0 && k != c1 implies #[trigger] row[k]
        == arith.zero by {
        assert(row[k] == op.at(r as int, k));
        lemma_without_qubit(n, q, k as nat);
        lemma_flip_qubit_characterized(n, q, i, k as nat);
    }
    assert(row[c0] == op.at(r as int, c0));
    assert(row[c1] == op.at(r as int, c1));
    lemma_two_hit_dot(arith, row, v, w[r as int], c0, c1);
}

/// The operator of a single-qubit gate acts on pairs. Where zero and one
/// behave as such, take a basis state `i` in which the qubit of a gate is 0,
/// and the state with that qubit inverted: their two amplitudes after the
/// gate are what its 2×2 matrix makes of their two amplitudes before, and no
/// other amplitude comes into it.
pub proof fn lemma_expanded_acts_on_pairs<T: Copy, Plus: Fn(T, T) -> T, Times: Fn(T, T) -> T>(
    arith: Arithmetic<T, Plus, Times>,
    gate: Grid<T>,
    n: nat,
    q: nat,
    op: Grid<T>,
    v: Seq<T>,
    w: Seq<T>,
    i: nat,
)
    requires
        arith.unital(),
        q < n,
        arith.is_expanded(gate, n, q, op),
        v.len() == pow2(n),
        arith.is_applied(op, v, w),
        i < pow2(n),
        qubit_value(n, q, i) == 0,
    ensures
        i < flip_qubit(n, q, i) < pow2(n),
        w.len() == pow2(n),
        arith.is_pair_image(
            gate,
            v[i as int],
            v[flip_qubit(n, q, i) as int],
            w[i as int],
            w[flip_qubit(n, q, i) as int],
        ),
{
    lemma_flip_qubit(n, q, i);
    lemma_pow2_pos(position_of(n, q));
    lemma_expanded_row(arith, gate, n, q, op, v, w, i, i);
    lemma_expanded_row(arith, gate, n, q, op, v, w, i, flip_qubit(n, q, i));
}

/// The 2×2 matrix that exchanges the two scalars of a pair undoes itself,
/// where zero and one behave as such.
pub proof fn lemma_exchange_is_self_inverse<T: Copy, Plus: Fn(T, T) -> T, Times: Fn(T, T) -> T>(
    arith: Arithmetic<T, Plus, Times>,
    gate: Grid<T>,
)
    requires
        arith.unital(),
        gate.at(0, 0) == arith.zero,
        gate.at(0, 1) == arith.one,
        gate.at(1, 0) == arith.one,
        gate.at(1, 1) == arith.zero,
    ensures
        arith.is_self_inverse(gate),
{
    assert forall|x: T, y: T, x1: T, y1: T| #[trigger]
        arith.is_pair_image(gate, x, y, x1, y1) implies x1 == y && y1 == x by {
        let (p, q) = choose|p: T, q: T|
            #![trigger arith.product(arith.zero, x, p), arith.product(arith.one, y, q)]
            arith.product(arith.zero, x, p) && arith.product(arith.one, y, q) && arith.sum(
                p,
                q,
                x1,
            );
        let (r, s) = choose|r: T, s: T|
            #![trigger arith.product(arith.one, x, r), arith.product(arith.zero, y, s)]
            arith.product(arith.one, x, r) && arith.product(arith.zero, y, s) && arith.sum(
                r,
                s,
                y1,
            );
    }
}

/// A gate whose 2×2 matrix undoes itself undoes itself on any qubit of any
/// register: applied twice, its operator gives back the very state it
/// started from.
pub proof fn lemma_self_inverse_twice<T: Copy, Plus: Fn(T, T) -> T, Times: Fn(T, T) -> T>(
    arith: Arithmetic<T, Plus, Times>,
    gate: Grid<T>,
    n: nat,
    q: nat,
    first: Grid<T>,
    second: Grid<T>,
    start: Seq<T>,
    between: Seq<T>,
    end: Seq<T>,
)
    requires
        arith.unital(),
        arith.is_self_inverse(gate),
        q < n,
        start.len() == pow2(n),
        arith.is_expanded(gate, n, q, first),
        arith.is_applied(first, start, between),
        arith.is_expanded(gate, n, q, second),
        arith.is_applied(second, between, end),
    ensures
        end == start,
{
    assert forall|j: int| 0 <= j < pow2(n) implies end[j] == start[j] by {
        let i = without_qubit(n, q, j as nat);
        lemma_without_qubit(n, q, j as nat);
        let pair = flip_qubit(n, q, i) as int;
        lemma_expanded_acts_on_pairs(arith, gate, n, q, first, start, between, i);
        lemma_expanded_acts_on_pairs(arith, gate, n, q, second, between, end, i);
        assert(arith.is_pair_image(
            gate,
            start[i as int],
            start[pair],
            between[i as int],
            between[pair],
        ));
        assert(arith.is_pair_image(
            gate,
            between[i as int],
            between[pair],
            end[i as int],
            end[pair],
        ));
    }
    assert(end =~= start);
}

/// A single-qubit gate of a kind whose 2×2 matrix undoes itself undoes itself
/// in a circuit: where each formula has one value, applying such a gate twice
/// gives back the very state it started from.
pub proof fn lemma_self_inverse_gate_twice<
    A,
    T: Copy,
    Plus: Fn(T, T) -> T,
    Times: Fn(T, T) -> T,
    Eval: Fn(Coefficient<A>) -> T,
>(
    arith: Arithmetic<T, Plus, Times>,
    evaluate: Eval,
    gate: Gate<A>,
    n: nat,
    first: Grid<T>,
    second: Grid<T>,
    start: Seq<T>,
    between: Seq<T>,
    end: Seq<T>,
)
    requires
        arith.unital(),
        reads_one_value(evaluate),
        gate.gate_type.is_single_qubit(),
        gate.well_formed(n),
        forall|m: Grid<T>| #[trigger]
            is_unitary_of(evaluate, gate.gate_type, m) ==> arith.is_self_inverse(m),
        start.len() == pow2(n),
        is_operator(arith, evaluate, gate, n, first),
        arith.is_applied(first, start, between),
        is_operator(arith, evaluate, gate, n, second),
        arith.is_applied(second, between, end),
    ensures
        end == start,
{
    let q = gate.qubits@[0] as nat;
    let m1 = choose|m: Grid<T>| #[trigger]
        is_unitary_of(evaluate, gate.gate_type, m) && arith.is_expansion(m, q, n, first);
    let m2 = choose|m: Grid<T>| #[trigger]
        is_unitary_of(evaluate, gate.gate_type, m) && arith.is_expansion(m, q, n, second);
    lemma_unitary_is_determined(evaluate, gate.gate_type, m1, m2);
    lemma_expansion_closed_form(arith, m1, q, n, first);
    lemma_expansion_closed_form(arith, m1, q, n, second);
    lemma_self_inverse_twice(arith, m1, n, q, first, second, start, between, end);
}

} // verus!

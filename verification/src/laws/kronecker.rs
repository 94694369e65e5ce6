//! The Kronecker product: where its cells come from, and that it may be
//! bracketed either way.

use crate::matrix::{lemma_split_index, Grid};
use crate::scalar::Arithmetic;
use vstd::arithmetic::div_mod::{
    lemma_breakdown, lemma_div_denominator, lemma_fundamental_div_mod_converse, lemma_mod_bound,
    lemma_mod_mod,
};
use vstd::prelude::*;

verus! {

impl<T: Copy, Plus: Fn(T, T) -> T, Times: Fn(T, T) -> T> Arithmetic<T, Plus, Times> {
    /// The multiplication gives one result however a product of three is
    /// bracketed.
    pub open spec fn times_associates(&self) -> bool {
        forall|x: T, y: T, z: T, xy: T, yz: T, left: T, right: T|
            #![trigger
                self.product(x, y, xy),
                self.product(xy, z, left),
                self.product(y, z, yz),
                self.product(x, yz, right),
            ]
            self.product(x, y, xy) && self.product(xy, z, left) && self.product(y, z, yz)
                && self.product(x, yz, right) ==> left == right
    }
}

/// The cell of a Kronecker product by the cells it comes from: in row
/// `i · b.rows + k`, column `j · b.cols + l` stands the product of the cell of
/// `a` in row `i`, column `j` with the cell of `b` in row `k`, column `l`.
pub proof fn lemma_kronecker_cell<T: Copy, Plus: Fn(T, T) -> T, Times: Fn(T, T) -> T>(
    arith: Arithmetic<T, Plus, Times>,
    a: Grid<T>,
    b: Grid<T>,
    r: Grid<T>,
    i: int,
    j: int,
    k: int,
    l: int,
)
    requires
        arith.is_kronecker(a, b, r),
        0 <= i < a.rows,
        0 <= j < a.cols,
        0 <= k < b.rows,
        0 <= l < b.cols,
    ensures
        0 <= i * b.rows + k < r.rows,
        0 <= j * b.cols + l < r.cols,
        arith.product(a.at(i, j), b.at(k, l), r.at(i * b.rows + k, j * b.cols + l)),
{
    let p = i * b.rows + k;
    let q = j * b.cols + l;
    lemma_join_index(i, k, a.rows, b.rows);
    lemma_join_index(j, l, a.cols, b.cols);
    assert(arith.product(
        a.at(p / (b.rows as int), q / (b.cols as int)),
        b.at(p % (b.rows as int), q % (b.cols as int)),
        r.at(p, q),
    ));
}

/// An index below `outer` and one below `inner` join into one below
/// `outer * inner`, from which both can be read off again.
pub proof fn lemma_join_index(i: int, k: int, outer: nat, inner: nat)
    requires
        0 <= i < outer,
        0 <= k < inner,
    ensures
        0 <= i * inner + k < outer * inner,
        (i * inner + k) / (inner as int) == i,
        (i * inner + k) % (inner as int) == k,
{
    assert(0 <= i * inner + k < outer * inner) by (nonlinear_arith)
        requires
            0 <= i < outer,
            0 <= k < inner,
    ;
    assert(i * inner + k == i * (inner as int) + k);
    lemma_fundamental_div_mod_converse(i * inner + k, inner as int, i, k);
}

/// The Kronecker product has the product of the shapes of its factors, and it
/// does not matter how a product of three matrices is bracketed, where that
/// does not matter for the multiplication of scalars: `(a ⊗ b) ⊗ c` and
/// `a ⊗ (b ⊗ c)` are the same matrix.
pub proof fn lemma_kronecker_associative<T: Copy, Plus: Fn(T, T) -> T, Times: Fn(T, T) -> T>(
    arith: Arithmetic<T, Plus, Times>,
    a: Grid<T>,
    b: Grid<T>,
    c: Grid<T>,
    ab: Grid<T>,
    bc: Grid<T>,
    left: Grid<T>,
    right: Grid<T>,
)
    requires
        arith.times_associates(),
        arith.is_kronecker(a, b, ab),
        arith.is_kronecker(ab, c, left),
        arith.is_kronecker(b, c, bc),
        arith.is_kronecker(a, bc, right),
    ensures
        left.rows == a.rows * b.rows * c.rows,
        left.cols == a.cols * b.cols * c.cols,
        right.rows == left.rows,
        right.cols == left.cols,
        left == right,
{
    assert(a.rows * (b.rows * c.rows) == a.rows * b.rows * c.rows) by (nonlinear_arith);
    assert(a.cols * (b.cols * c.cols) == a.cols * b.cols * c.cols) by (nonlinear_arith);
    assert forall|p: int, q: int| 0 <= p < left.rows && 0 <= q < left.cols implies left.at(p, q)
        == right.at(p, q) by {
        lemma_nested_index(p, a.rows as int, b.rows as int, c.rows as int);
        lemma_nested_index(q, a.cols as int, b.cols as int, c.cols as int);
        let rb = b.rows as int;
        let rc = c.rows as int;
        let cb = b.cols as int;
        let cc = c.cols as int;
        let x = a.at(p / rc / rb, q / cc / cb);
        let y = b.at((p / rc) % rb, (q / cc) % cb);
        let z = c.at(p % rc, q % cc);
        // On the left: (x · y) · z.
        let xy = ab.at(p / rc, q / cc);
        assert(arith.product(xy, z, left.at(p, q)));
        assert(arith.product(x, y, xy));
        // On the right: x · (y · z).
        let yz = bc.at(p % (rb * rc), q % (cb * cc));
        assert(arith.product(a.at(p / (rb * rc), q / (cb * cc)), yz, right.at(p, q)));
        assert(arith.product(
            b.at((p % (rb * rc)) / rc, (q % (cb * cc)) / cc),
            c.at((p % (rb * rc)) % rc, (q % (cb * cc)) % cc),
            yz,
        ));
        assert(arith.product(y, z, yz));
        assert(arith.product(x, yz, right.at(p, q)));
    }
    assert forall|p: int| 0 <= p < left.rows implies left.cells[p] == right.cells[p] by {
        assert forall|q: int| 0 <= q < left.cols implies left.cells[p][q] == right.cells[p][q] by {
            assert(left.at(p, q) == right.at(p, q));
        }
        assert(left.cells[p] =~= right.cells[p]);
    }
    assert(left.cells =~= right.cells);
}

/// How an index below `n1 * n2 * n3` splits into three, whichever two are
/// split off first.
pub proof fn lemma_nested_index(p: int, n1: int, n2: int, n3: int)
    requires
        0 <= n1,
        0 <= n2,
        0 <= n3,
        0 <= p < n1 * n2 * n3,
    ensures
        n2 > 0,
        n3 > 0,
        0 <= p / n3 < n1 * n2,
        0 <= p / n3 / n2 < n1,
        0 <= (p / n3) % n2 < n2,
        0 <= p % n3 < n3,
        0 <= p % (n2 * n3) < n2 * n3,
        p / (n2 * n3) == p / n3 / n2,
        (p % (n2 * n3)) / n3 == (p / n3) % n2,
        (p % (n2 * n3)) % n3 == p % n3,
{
    assert(n1 * n2 * n3 == (n1 * n2) * n3) by (nonlinear_arith);
    assert(n1 * n2 >= 0) by (nonlinear_arith)
        requires
            n1 >= 0,
            n2 >= 0,
    ;
    lemma_split_index(p, (n1 * n2) as nat, n3 as nat);
    lemma_split_index(p / n3, n1 as nat, n2 as nat);
    assert(n2 * n3 > 0) by (nonlinear_arith)
        requires
            n2 > 0,
            n3 > 0,
    ;
    lemma_mod_bound(p, n2 * n3);
    lemma_div_denominator(p, n3, n2);
    assert(n3 * n2 == n2 * n3) by (nonlinear_arith);
    lemma_breakdown(p, n3, n2);
    lemma_mod_mod(p, n3, n2);
    let low = p % n3;
    let mid = (p / n3) % n2;
    assert(p % (n3 * n2) == n3 * mid + low);
    assert(n3 * mid + low == mid * n3 + low) by (nonlinear_arith);
    lemma_fundamental_div_mod_converse(p % (n2 * n3), n3, mid, low);
}

} // verus!

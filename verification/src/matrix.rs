//! Dense matrices over an arbitrary scalar, and the products the engine needs.

use crate::scalar::Arithmetic;
use vstd::arithmetic::div_mod::{lemma_fundamental_div_mod, lemma_mod_bound};
use vstd::prelude::*;

verus! {

/// What a matrix is, mathematically: a shape and the cells, row by row.
pub struct Grid<T> {
    pub rows: nat,
    pub cols: nat,
    pub cells: Seq<Seq<T>>,
}

impl<T> Grid<T> {
    /// There are `rows` rows and each holds `cols` cells.
    pub open spec fn wf(self) -> bool {
        &&& self.cells.len() == self.rows
        &&& forall|i: int| 0 <= i < self.rows ==> (#[trigger] self.cells[i]).len() == self.cols
    }

    /// The cell in row `i`, column `j`.
    pub open spec fn at(self, i: int, j: int) -> T {
        self.cells[i][j]
    }

    /// Column `j`, top to bottom.
    pub open spec fn column(self, j: int) -> Seq<T> {
        Seq::new(self.rows, |i: int| self.cells[i][j])
    }
}

/// A dense, row-major matrix. Every row has the same length.
pub struct Matrix<T> {
    rows: usize,
    cols: usize,
    cells: Vec<Vec<T>>,
}

impl<T> View for Matrix<T> {
    type V = Grid<T>;

    closed spec fn view(&self) -> Grid<T> {
        Grid {
            rows: self.rows as nat,
            cols: self.cols as nat,
            cells: Seq::new(self.cells@.len(), |i: int| self.cells@[i]@),
        }
    }
}

impl<T> Matrix<T> {
    #[verifier::type_invariant]
    spec fn rectangular(&self) -> bool {
        &&& self.cells@.len() == self.rows
        &&& forall|i: int| 0 <= i < self.rows ==> (#[trigger] self.cells@[i])@.len() == self.cols
    }
}

impl<T: Copy> Matrix<T> {
    /// The number of rows.
    pub fn rows(&self) -> (n: usize)
        ensures
            n == self@.rows,
            self@.wf(),
    {
        proof {
            use_type_invariant(self);
        }
        self.rows
    }

    /// The number of columns.
    pub fn cols(&self) -> (n: usize)
        ensures
            n == self@.cols,
            self@.wf(),
    {
        proof {
            use_type_invariant(self);
        }
        self.cols
    }

    /// The cell in row `i`, column `j`, if the matrix has one there.
    pub fn get(&self, i: usize, j: usize) -> (cell: Option<T>)
        ensures
            cell is Some <==> i < self@.rows && j < self@.cols,
            cell matches Some(value) ==> value == self@.at(i as int, j as int),
    {
        proof {
            use_type_invariant(self);
        }
        if i < self.rows && j < self.cols {
            Some(self.cells[i][j])
        } else {
            None
        }
    }

    /// The 2×2 matrix with the given cells.
    pub fn square2(top_left: T, top_right: T, bottom_left: T, bottom_right: T) -> (m: Matrix<T>)
        ensures
            m@.wf(),
            m@.rows == 2,
            m@.cols == 2,
            m@.at(0, 0) == top_left,
            m@.at(0, 1) == top_right,
            m@.at(1, 0) == bottom_left,
            m@.at(1, 1) == bottom_right,
    {
        let mut top: Vec<T> = Vec::new();
        top.push(top_left);
        top.push(top_right);
        let mut bottom: Vec<T> = Vec::new();
        bottom.push(bottom_left);
        bottom.push(bottom_right);
        let mut cells: Vec<Vec<T>> = Vec::new();
        cells.push(top);
        cells.push(bottom);
        Matrix { rows: 2, cols: 2, cells }
    }

    /// The matrix whose rows are the given vectors, if they all have one length.
    /// No rows at all give the empty matrix, of no columns.
    pub fn from_rows(cells: Vec<Vec<T>>) -> (m: Option<Matrix<T>>)
        ensures
            m is Some <==> forall|i: int| 0 <= i < cells@.len() ==> (#[trigger] cells@[i])@.len()
                == cells@[0]@.len(),
            m matches Some(mat) ==> {
                &&& mat@.wf()
                &&& mat@.rows == cells@.len()
                &&& mat@.cols == if cells@.len() == 0 { 0 } else { cells@[0]@.len() }
                &&& forall|i: int|
                    0 <= i < cells@.len() ==> mat@.cells[i] == (#[trigger] cells@[i])@
            },
    {
        let rows = cells.len();
        if rows == 0 {
            return Some(Matrix { rows: 0, cols: 0, cells });
        }
        let cols = cells[0].len();
        let mut i: usize = 0;
        while i < rows
            invariant
                rows == cells@.len(),
                rows > 0,
                cols == cells@[0]@.len(),
                i <= rows,
                forall|p: int| 0 <= p < i ==> (#[trigger] cells@[p])@.len() == cols,
            decreases rows - i,
        {
            if cells[i].len() != cols {
                return None;
            }
            i = i + 1;
        }
        Some(Matrix { rows, cols, cells })
    }

    /// A copy of the matrix.
    pub fn duplicate(&self) -> (m: Matrix<T>)
        ensures
            m@ == self@,
    {
        proof {
            use_type_invariant(self);
        }
        let mut cells: Vec<Vec<T>> = Vec::new();
        let mut i: usize = 0;
        while i < self.rows
            invariant
                self.rectangular(),
                i <= self.rows,
                cells@.len() == i,
                forall|p: int| 0 <= p < i ==> (#[trigger] cells@[p])@ == self.cells@[p]@,
            decreases self.rows - i,
        {
            let mut row: Vec<T> = Vec::new();
            let mut j: usize = 0;
            while j < self.cols
                invariant
                    self.rectangular(),
                    i < self.rows,
                    j <= self.cols,
                    row@.len() == j,
                    forall|q: int| 0 <= q < j ==> row@[q] == self.cells@[i as int]@[q],
                decreases self.cols - j,
            {
                row.push(self.cells[i][j]);
                j = j + 1;
            }
            assert(row@ =~= self.cells@[i as int]@);
            cells.push(row);
            i = i + 1;
        }
        let m = Matrix { rows: self.rows, cols: self.cols, cells };
        assert(m@.cells =~= self@.cells);
        m
    }

    /// The permutation matrix that sends basis state `i` to `images[i]`: column
    /// `i` holds `one` in row `images[i]` and `zero` in every other row.
    pub fn permutation(images: &Vec<usize>, zero: T, one: T) -> (m: Matrix<T>)
        ensures
            m@.wf(),
            m@.rows == images@.len(),
            m@.cols == images@.len(),
            forall|j: int, i: int|
                0 <= j < images@.len() && 0 <= i < images@.len() ==> #[trigger] m@.at(j, i) == if j
                    == images@[i] {
                    one
                } else {
                    zero
                },
    {
        let dim = images.len();
        let mut cells: Vec<Vec<T>> = Vec::new();
        let mut j: usize = 0;
        while j < dim
            invariant
                dim == images@.len(),
                j <= dim,
                cells@.len() == j,
                forall|p: int| 0 <= p < j ==> (#[trigger] cells@[p])@.len() == dim,
                forall|p: int, i: int|
                    0 <= p < j && 0 <= i < dim ==> #[trigger] cells@[p]@[i] == if p == images@[i] {
                        one
                    } else {
                        zero
                    },
            decreases dim - j,
        {
            let mut row: Vec<T> = Vec::new();
            let mut i: usize = 0;
            while i < dim
                invariant
                    dim == images@.len(),
                    j < dim,
                    i <= dim,
                    row@.len() == i,
                    forall|x: int|
                        0 <= x < i ==> #[trigger] row@[x] == if j == images@[x] {
                            one
                        } else {
                            zero
                        },
                decreases dim - i,
            {
                if images[i] == j {
                    row.push(one);
                } else {
                    row.push(zero);
                }
                i = i + 1;
            }
            cells.push(row);
            j = j + 1;
        }
        Matrix { rows: dim, cols: dim, cells }
    }

    /// The identity matrix of `dim` rows: `one` on the diagonal, `zero` elsewhere.
    pub fn identity(dim: usize, zero: T, one: T) -> (m: Matrix<T>)
        ensures
            m@.wf(),
            m@.rows == dim,
            m@.cols == dim,
            forall|j: int, i: int|
                0 <= j < dim && 0 <= i < dim ==> #[trigger] m@.at(j, i) == if j == i {
                    one
                } else {
                    zero
                },
    {
        let mut images: Vec<usize> = Vec::new();
        let mut i: usize = 0;
        while i < dim
            invariant
                i <= dim,
                images@.len() == i,
                forall|x: int| 0 <= x < i ==> images@[x] == x,
            decreases dim - i,
        {
            images.push(i);
            i = i + 1;
        }
        Matrix::permutation(&images, zero, one)
    }

    /// The rows of the matrix, top to bottom.
    pub fn into_rows(self) -> (cells: Vec<Vec<T>>)
        ensures
            self@.wf(),
            cells@.len() == self@.rows,
            forall|i: int| 0 <= i < self@.rows ==> (#[trigger] cells@[i])@ == self@.cells[i],
    {
        proof {
            use_type_invariant(&self);
        }
        self.cells
    }
}

impl<T: Copy, Plus: Fn(T, T) -> T, Times: Fn(T, T) -> T> Arithmetic<T, Plus, Times> {
    /// `r` is the Kronecker product of `a` and `b`: it has the product of their
    /// shapes, and the cell in row `p`, column `q` is the product of the cell of
    /// `a` in row `p / b.rows`, column `q / b.cols`, with the cell of `b` in row
    /// `p % b.rows`, column `q % b.cols`.
    pub open spec fn is_kronecker(&self, a: Grid<T>, b: Grid<T>, r: Grid<T>) -> bool {
        &&& r.wf()
        &&& r.rows == a.rows * b.rows
        &&& r.cols == a.cols * b.cols
        &&& forall|p: int, q: int|
            0 <= p < r.rows && 0 <= q < r.cols ==> self.product(
                a.at(p / (b.rows as int), q / (b.cols as int)),
                b.at(p % (b.rows as int), q % (b.cols as int)),
                #[trigger] r.at(p, q),
            )
    }
}

impl<T: Copy, Plus: Fn(T, T) -> T, Times: Fn(T, T) -> T> Arithmetic<T, Plus, Times> {
    /// `m` is the identity matrix of `dim` rows: one on the diagonal, zero
    /// elsewhere.
    pub open spec fn is_identity(&self, dim: nat, m: Grid<T>) -> bool {
        &&& m.wf()
        &&& m.rows == dim
        &&& m.cols == dim
        &&& forall|j: int, i: int|
            0 <= j < dim && 0 <= i < dim ==> #[trigger] m.at(j, i) == if j == i {
                self.one
            } else {
                self.zero
            }
    }

    /// `w` is the matrix `m` applied to the vector `v`: entry `i` is the inner
    /// product of row `i` with `v`.
    pub open spec fn is_applied(&self, m: Grid<T>, v: Seq<T>, w: Seq<T>) -> bool {
        &&& w.len() == m.rows
        &&& forall|i: int| 0 <= i < m.rows ==> self.is_dot(m.cells[i], v, #[trigger] w[i])
    }

    /// `r` is the matrix product `a · b`: the cell in row `i`, column `j` is the
    /// inner product of row `i` of `a` with column `j` of `b`.
    pub open spec fn is_product(&self, a: Grid<T>, b: Grid<T>, r: Grid<T>) -> bool {
        &&& r.wf()
        &&& r.rows == a.rows
        &&& r.cols == b.cols
        &&& forall|i: int, j: int|
            0 <= i < r.rows && 0 <= j < r.cols ==> self.is_dot(
                a.cells[i],
                b.column(j),
                #[trigger] r.at(i, j),
            )
    }
}

impl<T: Copy> Matrix<T> {
    /// The matrix applied to a vector of as many entries as it has columns.
    pub fn times_vector<Plus: Fn(T, T) -> T, Times: Fn(T, T) -> T>(
        &self,
        v: &Vec<T>,
        arith: &Arithmetic<T, Plus, Times>,
    ) -> (w: Vec<T>)
        requires
            arith.total(),
            v@.len() == self@.cols,
        ensures
            arith.is_applied(self@, v@, w@),
    {
        proof {
            use_type_invariant(self);
        }
        let mut w: Vec<T> = Vec::new();
        let mut i: usize = 0;
        while i < self.rows
            invariant
                arith.total(),
                self.rectangular(),
                v@.len() == self.cols,
                i <= self.rows,
                w@.len() == i,
                forall|p: int| 0 <= p < i ==> arith.is_dot(self@.cells[p], v@, #[trigger] w@[p]),
            decreases self.rows - i,
        {
            let entry = arith.dot(&self.cells[i], v);
            w.push(entry);
            i = i + 1;
        }
        w
    }

    /// The inner product of row `i` of `self` with column `j` of `rhs`.
    fn row_times_column<Plus: Fn(T, T) -> T, Times: Fn(T, T) -> T>(
        &self,
        i: usize,
        rhs: &Matrix<T>,
        j: usize,
        arith: &Arithmetic<T, Plus, Times>,
    ) -> (total: T)
        requires
            arith.total(),
            self@.cols == rhs@.rows,
            i < self@.rows,
            j < rhs@.cols,
        ensures
            arith.is_dot(self@.cells[i as int], rhs@.column(j as int), total),
    {
        proof {
            use_type_invariant(self);
            use_type_invariant(rhs);
        }
        let ghost xs = self@.cells[i as int];
        let ghost ys = rhs@.column(j as int);
        let mut acc = arith.zero;
        let ghost mut products: Seq<T> = Seq::empty();
        let ghost mut sums: Seq<T> = seq![arith.zero];
        let mut k: usize = 0;
        while k < self.cols
            invariant
                arith.total(),
                self.rectangular(),
                rhs.rectangular(),
                self.cols == rhs.rows,
                i < self.rows,
                j < rhs.cols,
                xs == self@.cells[i as int],
                ys == rhs@.column(j as int),
                k <= self.cols,
                products.len() == k,
                sums.len() == k + 1,
                sums[0] == arith.zero,
                sums[k as int] == acc,
                forall|m: int|
                    0 <= m < k ==> arith.product(xs[m], ys[m], #[trigger] products[m]) && arith.sum(
                        sums[m],
                        products[m],
                        sums[m + 1],
                    ),
            decreases self.cols - k,
        {
            let p = (arith.times)(self.cells[i][k], rhs.cells[k][j]);
            let next = (arith.plus)(acc, p);
            proof {
                products = products.push(p);
                sums = sums.push(next);
            }
            acc = next;
            k = k + 1;
        }
        proof {
            assert(arith.dot_trace(xs, ys, products, sums, acc));
        }
        acc
    }

    /// The matrix product `self · rhs`, for `rhs` of as many rows as `self` has
    /// columns.
    pub fn times_matrix<Plus: Fn(T, T) -> T, Times: Fn(T, T) -> T>(
        &self,
        rhs: &Matrix<T>,
        arith: &Arithmetic<T, Plus, Times>,
    ) -> (r: Matrix<T>)
        requires
            arith.total(),
            self@.cols == rhs@.rows,
        ensures
            arith.is_product(self@, rhs@, r@),
    {
        proof {
            use_type_invariant(self);
            use_type_invariant(rhs);
        }
        let rows = self.rows;
        let cols = rhs.cols;
        let mut cells: Vec<Vec<T>> = Vec::new();
        let mut i: usize = 0;
        while i < rows
            invariant
                arith.total(),
                self@.cols == rhs@.rows,
                rows == self@.rows,
                cols == rhs@.cols,
                i <= rows,
                cells@.len() == i,
                forall|p: int| 0 <= p < i ==> (#[trigger] cells@[p])@.len() == cols,
                forall|p: int, q: int|
                    0 <= p < i && 0 <= q < cols ==> arith.is_dot(
                        self@.cells[p],
                        rhs@.column(q),
                        #[trigger] cells@[p]@[q],
                    ),
            decreases rows - i,
        {
            let mut row: Vec<T> = Vec::new();
            let mut j: usize = 0;
            while j < cols
                invariant
                    arith.total(),
                    self@.cols == rhs@.rows,
                    rows == self@.rows,
                    cols == rhs@.cols,
                    i < rows,
                    j <= cols,
                    row@.len() == j,
                    forall|q: int|
                        0 <= q < j ==> arith.is_dot(
                            self@.cells[i as int],
                            rhs@.column(q),
                            #[trigger] row@[q],
                        ),
                decreases cols - j,
            {
                let cell = self.row_times_column(i, rhs, j, arith);
                row.push(cell);
                j = j + 1;
            }
            cells.push(row);
            i = i + 1;
        }
        Matrix { rows, cols, cells }
    }
}

/// Where a cell of a Kronecker product comes from: a row (or column) index
/// below `outer * inner` splits into an index below `outer` and one below
/// `inner`.
pub proof fn lemma_split_index(p: int, outer: nat, inner: nat)
    requires
        0 <= p < outer * inner,
    ensures
        inner > 0,
        0 <= p / (inner as int),
        p / (inner as int) < outer,
        0 <= p % (inner as int),
        p % (inner as int) < inner,
{
    assert(inner > 0) by (nonlinear_arith)
        requires
            0 <= p < outer * inner,
    ;
    lemma_fundamental_div_mod(p, inner as int);
    lemma_mod_bound(p, inner as int);
    let d = p / (inner as int);
    let m = p % (inner as int);
    assert(0 <= d < outer) by (nonlinear_arith)
        requires
            p == inner * d + m,
            0 <= m < inner,
            0 <= p < outer * inner,
    ;
}

/// The Kronecker (tensor) product of two matrices.
pub fn kronecker_product<T: Copy, Plus: Fn(T, T) -> T, Times: Fn(T, T) -> T>(
    a: &Matrix<T>,
    b: &Matrix<T>,
    arith: &Arithmetic<T, Plus, Times>,
) -> (r: Matrix<T>)
    requires
        arith.total(),
        a@.rows * b@.rows <= usize::MAX,
        a@.cols * b@.cols <= usize::MAX,
    ensures
        arith.is_kronecker(a@, b@, r@),
{
    proof {
        use_type_invariant(a);
        use_type_invariant(b);
    }
    let rows = a.rows * b.rows;
    let cols = a.cols * b.cols;
    let mut cells: Vec<Vec<T>> = Vec::new();
    let mut p: usize = 0;
    while p < rows
        invariant
            arith.total(),
            a.rectangular(),
            b.rectangular(),
            rows == a.rows * b.rows,
            cols == a.cols * b.cols,
            p <= rows,
            cells@.len() == p,
            forall|x: int| 0 <= x < p ==> (#[trigger] cells@[x])@.len() == cols,
            forall|x: int, y: int|
                0 <= x < p && 0 <= y < cols ==> arith.product(
                    a@.at(x / (b.rows as int), y / (b.cols as int)),
                    b@.at(x % (b.rows as int), y % (b.cols as int)),
                    #[trigger] cells@[x]@[y],
                ),
        decreases rows - p,
    {
        proof {
            lemma_split_index(p as int, a.rows as nat, b.rows as nat);
        }
        let i = p / b.rows;
        let k = p % b.rows;
        let mut row: Vec<T> = Vec::new();
        let mut q: usize = 0;
        while q < cols
            invariant
                arith.total(),
                a.rectangular(),
                b.rectangular(),
                cols == a.cols * b.cols,
                i < a.rows,
                k < b.rows,
                i == p as int / (b.rows as int),
                k == p as int % (b.rows as int),
                q <= cols,
                row@.len() == q,
                forall|y: int|
                    0 <= y < q ==> arith.product(
                        a@.at(i as int, y / (b.cols as int)),
                        b@.at(k as int, y % (b.cols as int)),
                        #[trigger] row@[y],
                    ),
            decreases cols - q,
        {
            proof {
                lemma_split_index(q as int, a.cols as nat, b.cols as nat);
            }
            let j = q / b.cols;
            let l = q % b.cols;
            let cell = (arith.times)(a.cells[i][j], b.cells[k][l]);
            row.push(cell);
            q = q + 1;
        }
        cells.push(row);
        p = p + 1;
    }
    Matrix { rows, cols, cells }
}

} // verus!

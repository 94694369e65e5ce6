//! The scalar operations a simulation runs on.
//!
//! The engine never looks inside an amplitude. It is handed the two neutral
//! elements and the two ring operations, and every contract is stated over
//! what those operations themselves promise.

use vstd::prelude::*;

verus! {

/// A carrier of amplitudes: its zero, its one, addition and multiplication.
pub struct Arithmetic<T, Plus, Times> {
    pub zero: T,
    pub one: T,
    pub plus: Plus,
    pub times: Times,
}

impl<T: Copy, Plus: Fn(T, T) -> T, Times: Fn(T, T) -> T> Arithmetic<T, Plus, Times> {
    /// Both operations accept every pair of scalars.
    pub open spec fn total(&self) -> bool {
        &&& forall|x: T, y: T| self.plus.requires((x, y))
        &&& forall|x: T, y: T| self.times.requires((x, y))
    }

    /// `z` is a value the addition may return for `x + y`.
    pub open spec fn sum(&self, x: T, y: T, z: T) -> bool {
        self.plus.ensures((x, y), z)
    }

    /// `z` is a value the multiplication may return for `x · y`.
    pub open spec fn product(&self, x: T, y: T, z: T) -> bool {
        self.times.ensures((x, y), z)
    }

    /// Zero and one behave as such: one is neutral for the multiplication,
    /// zero absorbs under it, and zero is neutral for the addition.
    pub open spec fn unital(&self) -> bool {
        &&& forall|x: T, z: T| #[trigger] self.product(self.one, x, z) ==> z == x
        &&& forall|x: T, z: T| #[trigger] self.product(x, self.one, z) ==> z == x
        &&& forall|x: T, z: T| #[trigger] self.product(self.zero, x, z) ==> z == self.zero
        &&& forall|x: T, z: T| #[trigger] self.product(x, self.zero, z) ==> z == self.zero
        &&& forall|x: T, z: T| #[trigger] self.sum(self.zero, x, z) ==> z == x
        &&& forall|x: T, z: T| #[trigger] self.sum(x, self.zero, z) ==> z == x
    }

    /// `products` and `sums` record, step by step, how `total` comes about:
    /// `products[k]` is `xs[k] · ys[k]`, `sums[0]` is zero, and `sums[k + 1]`
    /// is `sums[k] + products[k]`.
    pub open spec fn dot_trace(
        &self,
        xs: Seq<T>,
        ys: Seq<T>,
        products: Seq<T>,
        sums: Seq<T>,
        total: T,
    ) -> bool {
        &&& xs.len() == ys.len()
        &&& products.len() == xs.len()
        &&& sums.len() == xs.len() + 1
        &&& sums[0] == self.zero
        &&& sums[xs.len() as int] == total
        &&& forall|k: int|
            0 <= k < xs.len() ==> self.product(xs[k], ys[k], #[trigger] products[k]) && self.sum(
                sums[k],
                products[k],
                sums[k + 1],
            )
    }

    /// `total` is the inner product of `xs` and `ys`: the products
    /// `xs[k] · ys[k]` added up in index order, starting from zero.
    pub open spec fn is_dot(&self, xs: Seq<T>, ys: Seq<T>, total: T) -> bool {
        exists|products: Seq<T>, sums: Seq<T>| self.dot_trace(xs, ys, products, sums, total)
    }

    /// The inner product of two equally long vectors.
    pub fn dot(&self, xs: &Vec<T>, ys: &Vec<T>) -> (total: T)
        requires
            self.total(),
            xs.len() == ys.len(),
        ensures
            self.is_dot(xs@, ys@, total),
    {
        let mut acc = self.zero;
        let ghost mut products: Seq<T> = Seq::empty();
        let ghost mut sums: Seq<T> = seq![self.zero];
        let mut k: usize = 0;
        while k < xs.len()
            invariant
                self.total(),
                xs.len() == ys.len(),
                k <= xs.len(),
                products.len() == k,
                sums.len() == k + 1,
                sums[0] == self.zero,
                sums[k as int] == acc,
                forall|m: int|
                    0 <= m < k ==> self.product(xs@[m], ys@[m], #[trigger] products[m])
                        && self.sum(sums[m], products[m], sums[m + 1]),
            decreases xs.len() - k,
        {
            let p = (self.times)(xs[k], ys[k]);
            let next = (self.plus)(acc, p);
            proof {
                products = products.push(p);
                sums = sums.push(next);
            }
            acc = next;
            k = k + 1;
        }
        proof {
            assert(self.dot_trace(xs@, ys@, products, sums, acc));
        }
        acc
    }
}

} // verus!

use vstd::prelude::*;

use crate::raster::Raster;

verus! {

impl<T: Copy> Raster<T> {
    /// Tests `pred` on each pair of cells at the same position, in row-major
    /// order, and stops at the first pair it rejects.
    ///
    /// This is the traversal shared by every closeness test: absolute,
    /// relative and units-in-the-last-place comparison differ only in `pred`.
    pub fn all_pairs<P: Fn(T, T) -> bool>(&self, other: &Raster<T>, pred: P) -> (r: bool)
        requires
            self.same_shape(*other),
            forall|a: T, b: T| pred.requires((a, b)),
        ensures
            r ==> forall|i: int|
                0 <= i < self.cells().len() ==> pred.ensures(
                    (self.cells()[i], other.cells()[i]),
                    true,
                ),
            !r ==> exists|i: int|
                0 <= i < self.cells().len() && pred.ensures(
                    (self.cells()[i], other.cells()[i]),
                    false,
                ) && forall|j: int|
                    0 <= j < i ==> pred.ensures((self.cells()[j], other.cells()[j]), true),
    {
        let n = self.len();
        let m = other.len();
        assert(n == m);
        let mut i: usize = 0;
        while i < n
            invariant
                n == self.cells().len(),
                n == other.cells().len(),
                i <= n,
                forall|a: T, b: T| pred.requires((a, b)),
                forall|j: int|
                    0 <= j < i ==> pred.ensures((self.cells()[j], other.cells()[j]), true),
            decreases n - i,
        {
            let a = self.cell(i);
            let b = other.cell(i);
            if !pred(a, b) {
                return false;
            }
            i = i + 1;
        }
        true
    }
}

} // verus!

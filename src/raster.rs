use vstd::prelude::*;

verus! {

/// Two shapes were expected to agree and did not, or a flat buffer did not
/// hold `rows * cols` elements.
#[derive(Debug, Clone, Copy, PartialEq, Eq, Structural)]
pub struct ShapeMismatch;

/// A rectangular grid of cells stored in row-major order.
///
/// The number of cells is always `rows * cols`; the empty raster has no rows,
/// no columns and no cells.
#[derive(Debug, PartialEq)]
pub struct Raster<T> {
    rows: usize,
    cols: usize,
    data: Vec<T>,
}

impl<T> Raster<T> {
    #[verifier::type_invariant]
    closed spec fn inv(self) -> bool {
        self.data@.len() == self.rows as nat * self.cols as nat
    }

    /// Number of rows.
    pub closed spec fn nrows(self) -> nat {
        self.rows as nat
    }

    /// Number of columns.
    pub closed spec fn ncols(self) -> nat {
        self.cols as nat
    }

    /// The cells, row after row.
    pub closed spec fn cells(self) -> Seq<T> {
        self.data@
    }

    /// Whether two rasters have the same number of rows and of columns.
    pub open spec fn same_shape<U>(self, other: Raster<U>) -> bool {
        self.nrows() == other.nrows() && self.ncols() == other.ncols()
    }

    /// Number of cells; for every raster it is the number of rows times the
    /// number of columns.
    pub fn len(&self) -> (n: usize)
        ensures
            n == self.cells().len(),
            n == self.nrows() * self.ncols(),
    {
        proof {
            use_type_invariant(self);
        }
        self.data.len()
    }

    /// Number of rows.
    pub fn rows(&self) -> (n: usize)
        ensures
            n == self.nrows(),
    {
        self.rows
    }

    /// Number of columns.
    pub fn cols(&self) -> (n: usize)
        ensures
            n == self.ncols(),
    {
        self.cols
    }

    /// Builds a `rows` by `cols` raster from its cells in row-major order.
    pub fn from_elements(rows: usize, cols: usize, elements: Vec<T>) -> (r: Result<
        Raster<T>,
        ShapeMismatch,
    >)
        ensures
            r is Ok <==> elements@.len() == rows as nat * cols as nat,
            r matches Ok(g) ==> g.nrows() == rows && g.ncols() == cols && g.cells()
                == elements@,
    {
        let len = elements.len();
        match rows.checked_mul(cols) {
            Some(n) => {
                if len == n {
                    Ok(Raster { rows, cols, data: elements })
                } else {
                    Err(ShapeMismatch)
                }
            },
            None => Err(ShapeMismatch),
        }
    }

    /// The cell at row-major position `i`.
    pub fn cell(&self, i: usize) -> (c: T) where T: Copy
        requires
            i < self.cells().len(),
        ensures
            c == self.cells()[i as int],
    {
        self.data[i]
    }

    /// The cell at `row` and `col`.
    pub fn get(&self, row: usize, col: usize) -> (c: T) where T: Copy
        requires
            row < self.nrows(),
            col < self.ncols(),
        ensures
            c == self.cells()[row * self.ncols() + col],
    {
        let n = self.len();
        proof {
            assert(row * self.ncols() + col < n) by (nonlinear_arith)
                requires
                    row < self.nrows(),
                    col < self.ncols(),
                    n == self.nrows() * self.ncols(),
            ;
        }
        self.data[row * self.cols + col]
    }

    /// Builds a raster from cells already known to fill the shape.
    pub(crate) fn from_filled(rows: usize, cols: usize, data: Vec<T>) -> (r: Raster<T>)
        requires
            data@.len() == rows as nat * cols as nat,
        ensures
            r.nrows() == rows,
            r.ncols() == cols,
            r.cells() == data@,
    {
        Raster { rows, cols, data }
    }

    /// The cells, row after row, as a vector.
    pub fn into_elements(self) -> (v: Vec<T>)
        ensures
            v@ == self.cells(),
    {
        self.data
    }

    /// The degenerate raster with no rows, no columns and no cells.
    pub fn empty() -> (r: Raster<T>)
        ensures
            r.nrows() == 0,
            r.ncols() == 0,
            r.cells() == Seq::<T>::empty(),
    {
        Raster { rows: 0, cols: 0, data: Vec::new() }
    }
}

} // verus!

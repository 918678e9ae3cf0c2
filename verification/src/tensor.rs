//! A minimal row-major tensor used to pass data between layers.
use vstd::prelude::*;

use crate::fixed_point::FixedPoint;

verus! {

/// A 2D tensor stored in row-major order.
#[derive(Debug, PartialEq, Eq)]
pub struct Tensor {
    data: Vec<FixedPoint>,
    shape: (usize, usize),
}

impl View for Tensor {
    type V = (Seq<FixedPoint>, usize, usize);

    /// The elements in row-major order, the row count and the column count.
    closed spec fn view(&self) -> (Seq<FixedPoint>, usize, usize) {
        (self.data@, self.shape.0, self.shape.1)
    }
}

impl Tensor {
    /// The element count is the product of the dimensions.
    #[verifier::type_invariant]
    spec fn shape_matches(self) -> bool {
        self.data@.len() == self.shape.0 * self.shape.1
    }

    /// Build a tensor from a flat vector, validating the shape.
    pub fn new(data: Vec<FixedPoint>, rows: usize, cols: usize) -> (r: Option<Self>)
        requires
            rows * cols <= usize::MAX,
        ensures
            (data@.len() == rows * cols) <==> r is Some,
            r matches Some(t) ==> t@ == (data@, rows, cols),
    {
        if data.len() == rows * cols {
            Some(Tensor { data, shape: (rows, cols) })
        } else {
            None
        }
    }

    /// Number of rows.
    pub fn rows(&self) -> (r: usize)
        ensures
            r == self@.1,
    {
        self.shape.0
    }

    /// Number of columns.
    pub fn cols(&self) -> (r: usize)
        ensures
            r == self@.2,
    {
        self.shape.1
    }

    /// Get the element at `(r, c)`, if in bounds.
    pub fn get(&self, r: usize, c: usize) -> (x: Option<FixedPoint>)
        ensures
            (r < self@.1 && c < self@.2) <==> x is Some,
            x matches Some(v) ==> v == self@.0[r * self@.2 + c],
    {
        proof {
            use_type_invariant(self);
        }
        let n = self.data.len();
        let (rows, cols) = self.shape;
        if r < rows && c < cols {
            proof {
                assert(r * cols <= r * cols + c < rows * cols) by (nonlinear_arith)
                    requires
                        r < rows,
                        c < cols,
                ;
            }
            Some(self.data[r * cols + c])
        } else {
            None
        }
    }

    /// Reshape in place without copying, if the element count matches.
    pub fn reshape(&mut self, rows: usize, cols: usize) -> (r: bool)
        requires
            rows * cols <= usize::MAX,
        ensures
            r == (rows * cols == old(self)@.0.len()),
            r ==> final(self)@ == (old(self)@.0, rows, cols),
            !r ==> final(self)@ == old(self)@,
    {
        proof {
            use_type_invariant(&*self);
        }
        if rows * cols == self.data.len() {
            self.shape = (rows, cols);
            true
        } else {
            false
        }
    }
}

} // verus!

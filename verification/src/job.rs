//! What crosses the channel between a caller and a device worker.

use vstd::prelude::*;

use crate::scalar::Scalar;

verus! {

/// One request to run a GPU kernel.
pub enum Command<T> {
    /// The elementwise sum of two vectors.
    VectorAdd { a: Vec<T>, b: Vec<T> },
    /// The sum of one vector.
    Reduce { a: Vec<T> },
    /// The dot product of two vectors.
    DotProduct { a: Vec<T>, b: Vec<T> },
    /// The product of an `m x k` and a `k x n` matrix, both row-major.
    MatMul { a: Vec<T>, b: Vec<T>, m: usize, n: usize, k: usize },
}

/// A command, the process that waits for its result, and the number under
/// which the result will arrive.
pub struct Job<T, P> {
    pub id: u64,
    pub pid: P,
    pub command: Command<T>,
}

/// The product of two machine numbers, in full.
pub fn full_product(x: usize, y: usize) -> (product: u128)
    ensures
        product == x * y,
{
    assert(x * y <= u64::MAX * u64::MAX) by (nonlinear_arith)
        requires
            x <= u64::MAX,
            y <= u64::MAX,
    ;
    assert(0 <= x * y) by (nonlinear_arith);
    x as u128 * y as u128
}

impl<T: Scalar> Command<T> {
    /// The number of elements in the result is a machine number. Only a matrix
    /// product can fail this, and only if both matrices have the right size.
    pub open spec fn fits(self) -> bool {
        match self {
            Command::MatMul { a, b, m, n, k } => a@.len() == m * k && b@.len() == k * n ==> m * n
                <= usize::MAX,
            _ => true,
        }
    }

    /// Tells whether the number of elements in the result is a machine number.
    /// Commands that fail this must not be run.
    pub fn sizes_fit(&self) -> (result: bool)
        ensures
            result == self.fits(),
    {
        match self {
            Command::MatMul { a, b, m, n, k } => {
                a.len() as u128 != full_product(*m, *k) || b.len() as u128 != full_product(*k, *n)
                    || m.checked_mul(*n).is_some()
            },
            _ => true,
        }
    }
}

} // verus!

//! Truncated singular value decomposition: a surface that exists in name
//! only.

use vstd::prelude::*;
use crate::error::Error;

verus! {

/// The first `k` singular values of a matrix with `n_rows` rows and `n_cols`
/// columns, refined in `n_iter` rounds, are not available: whatever is asked
/// for, the answer is `NotImplemented`, and nothing is decomposed.
pub fn randomized_svd(n_rows: usize, n_cols: usize, k: usize, n_iter: usize) -> (request: Result<
    (),
    Error,
>)
    ensures
        request == Err::<(), Error>(Error::NotImplemented),
{
    Err(Error::NotImplemented)
}

} // verus!

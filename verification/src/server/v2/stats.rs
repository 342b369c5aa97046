//! Statistics of a region.

use vstd::prelude::*;

verus! {

/// Rounds of clipping where a request names none.
pub fn default_maxiters() -> (n: usize)
    ensures
        n == 5,
{
    5
}

/// The values that clipping threw out, of those that went in.
pub fn rejected(n_input: usize, n_survivors: usize) -> (n: usize)
    requires
        n_survivors <= n_input,
    ensures
        n == n_input - n_survivors,
{
    n_input - n_survivors
}

} // verus!

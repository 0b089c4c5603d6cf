//! The names of the process configuration.

use vstd::prelude::*;

verus! {

/// The length of an array of units, as a value: counts the items of a list
/// written out in full.
pub fn count_helper<const N: usize>(_items: [(); N]) -> (r: usize)
    ensures
        r == N,
{
    N
}

} // verus!

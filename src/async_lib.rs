//! Glue for running blocking work from a non-blocking caller.

use vstd::prelude::*;

verus! {

/// The value a finished blocking task handed back.
#[inline]
pub fn unwrap_joinhandle_value<T>(value: T) -> (r: T)
    ensures
        r == value,
{
    value
}

} // verus!

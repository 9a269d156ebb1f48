//! Checks on what comes in over the C boundary.

use vstd::prelude::*;

verus! {

/// Whether a buffer, given by whether its address is null and by its length,
/// holds any data: the address is set and the length is positive.
pub fn check_ptr_len(is_null: bool, len: usize) -> (ok: bool)
    ensures
        ok == (!is_null && len > 0),
{
    !(is_null || len == 0)
}

} // verus!

use vstd::prelude::*;

pub mod codec;
pub mod errors;
pub mod failure;
pub mod text;
pub mod validation;

verus! {

/// Sum of two integers; the caller keeps the sum within `u64`.
pub fn add(left: u64, right: u64) -> (r: u64)
    requires
        left + right <= u64::MAX,
    ensures
        r == left + right,
{
    left + right
}

} // verus!

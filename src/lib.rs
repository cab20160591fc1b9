//! Framing, dispatch and command encoding for the serial link to a
//! satellite-navigation receiver.
use vstd::prelude::*;

pub mod command;
pub mod framing;
pub mod link;
pub mod router;

verus! {

/// The sum of two sizes.
pub fn add(left: usize, right: usize) -> (r: usize)
    requires
        left + right <= usize::MAX,
    ensures
        r == left + right,
{
    left + right
}

} // verus!

use vstd::prelude::*;

verus! {

/// Only the modes of this crate implement `Mode`.
pub trait Sealed {}

} // verus!

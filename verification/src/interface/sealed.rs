use vstd::prelude::*;

verus! {

/// Only the I/O kinds of this crate implement `Io`.
pub trait Sealed {}

} // verus!

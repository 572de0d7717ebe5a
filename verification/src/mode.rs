use vstd::prelude::*;

use crate::parse::decode::Decoder;
use crate::parse::encode::Encoder;

mod sealed;

verus! {

/// The wire format that a codec speaks: `Fixed` (20-byte frames with a
/// checksum) or `Variable` (start byte, type byte, identifier, payload, end byte).
pub trait Mode: sealed::Sealed {}

/// The fixed-length wire format.
pub struct Fixed;

impl sealed::Sealed for Fixed {}

impl Mode for Fixed {}

impl Fixed {
    pub fn encoder() -> (r: Encoder<Fixed>) {
        Encoder::<Fixed>::new()
    }

    /// A decoder that holds no bytes.
    pub fn decoder() -> (r: Decoder<Fixed>)
        ensures
            r.pending() == Seq::<u8>::empty(),
    {
        Decoder::<Fixed>::new()
    }
}

/// The variable-length wire format.
pub struct Variable;

impl sealed::Sealed for Variable {}

impl Mode for Variable {}

impl Variable {
    pub fn encoder() -> (r: Encoder<Variable>) {
        Encoder::<Variable>::new()
    }

    /// A decoder that holds no bytes.
    pub fn decoder() -> (r: Decoder<Variable>)
        ensures
            r.pending() == Seq::<u8>::empty(),
    {
        Decoder::<Variable>::new()
    }
}

} // verus!

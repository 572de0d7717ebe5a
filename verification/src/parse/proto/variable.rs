use vstd::prelude::*;

verus! {

/// Constants of the variable-length format.
pub const END: u8 = 0x55;
pub const TYPE_MARKER: u8 = 0b1100_0000;
pub const RTR_BIT: u8 = 0b0001_0000;
pub const EXT_BIT: u8 = 0b0010_0000;
pub const DLC_MASK: u8 = 0b0000_1111;

} // verus!

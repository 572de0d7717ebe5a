use vstd::prelude::*;

verus! {

/// Constants of the fixed-length format.
pub const HEADER2: u8 = 0x55;
pub const TYPE: u8 = 0x01;
pub const STD: u8 = 0x01;
pub const EXT: u8 = 0x02;
pub const DATA: u8 = 0x01;
pub const REMOTE: u8 = 0x02;

pub const CHECKSUM_START: usize = 2;
pub const RESERVED_IDX: usize = 18;
pub const CHECKSUM_IDX: usize = 19;

} // verus!

use vstd::prelude::*;

use core::marker::PhantomData;

use crate::frame::{Frame, FrameView};
use crate::mode::{Fixed, Mode, Variable};

pub mod decode;
pub mod encode;
pub mod proto;
pub mod roundtrip;

verus! {

/// How many bytes a frame takes on the wire in a given format.
#[derive(Debug, PartialEq, Eq)]
pub struct FrameSizeIndicator<M: Mode> {
    _mode: PhantomData<M>,
}

/// The room that a frame needs in the variable-length format: start byte,
/// type byte, the identifier's two or four bytes, the data length code, end byte.
pub open spec fn variable_size(v: FrameView) -> nat {
    3 + (if v.id().is_standard() { 2nat } else { 4nat }) + v.dlc()
}

impl<M: Mode> Clone for FrameSizeIndicator<M> {
    fn clone(&self) -> (r: Self) {
        FrameSizeIndicator { _mode: PhantomData }
    }
}

impl<M: Mode> Copy for FrameSizeIndicator<M> {}

impl FrameSizeIndicator<Fixed> {
    pub fn size(_frame: &Frame) -> (r: usize)
        ensures
            r == 20,
    {
        20
    }
}

impl FrameSizeIndicator<Variable> {
    pub fn size(frame: &Frame) -> (r: usize)
        ensures
            r == variable_size(frame@),
    {
        let mut length: usize = 3;
        length += if frame.is_standard() {
            2
        } else {
            4
        };
        length += frame.dlc();
        length
    }
}

} // verus!

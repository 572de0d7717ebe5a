use vstd::prelude::*;

use crate::parse::decode::DecoderError;
use crate::parse::encode::EncoderError;

mod sealed;

verus! {

/// How an interface talks to its byte stream: blocking or asynchronous.
pub trait Io: sealed::Sealed {}

/// Blocking input and output.
pub struct Synch;

impl sealed::Sealed for Synch {}

impl Io for Synch {}

/// Asynchronous input and output.
pub struct Asynch;

impl sealed::Sealed for Asynch {}

impl Io for Asynch {}

/// Why an interface could not send or receive a frame.
#[derive(Debug)]
pub enum InterfaceError<E> {
    /// The byte stream failed.
    Io(E),
    /// The frame could not be written.
    Encode(EncoderError),
    /// The received bytes could not be read as a frame.
    Decode(DecoderError),
}

} // verus!

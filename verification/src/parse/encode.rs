use vstd::prelude::*;

use core::marker::PhantomData;

use crate::frame::{Frame, FrameView};
use crate::id::{CanId, IdView};
use crate::mode::{Fixed, Mode, Variable};
use crate::parse::proto::{fixed, variable, START};
use crate::parse::proto::{le_u16, le_u32, u16_to_le, u32_to_le};
use crate::parse::{variable_size, FrameSizeIndicator};

verus! {

/// Writes a value into a byte buffer in some wire format.
pub trait Encode<T> {
    /// Writes `frame` at the start of `buf` and returns how many bytes it wrote.
    fn encode(&self, frame: &T, buf: &mut [u8]) -> Result<usize, EncoderError>;
}

/// Why an encoder could not write a frame.
#[derive(Debug, Clone, Copy, PartialEq, Eq)]
#[non_exhaustive]
pub enum EncoderError {
    /// The buffer holds `provided` bytes, the frame needs `expected`.
    BufferTooSmall { expected: usize, provided: usize },
}

/// Writes frames in the wire format `M`.
pub struct Encoder<M: Mode> {
    _mode: PhantomData<M>,
}

impl<M: Mode> Encoder<M> {
    pub fn new() -> (r: Encoder<M>) {
        Encoder { _mode: PhantomData }
    }
}

/// The identifier as a 32-bit number.
pub open spec fn id_raw32(id: IdView) -> u32 {
    match id {
        IdView::Standard(raw) => raw as u32,
        IdView::Extended(raw) => raw,
    }
}

/// The sum of the bytes.
pub open spec fn byte_sum(s: Seq<u8>) -> nat
    decreases s.len(),
{
    if s.len() == 0 {
        0
    } else {
        byte_sum(s.drop_last()) + s.last() as nat
    }
}

/// The checksum of the fixed-length format: the sum of the bytes, modulo 256.
pub open spec fn checksum(s: Seq<u8>) -> u8 {
    (byte_sum(s) % 256) as u8
}

/// The first 19 bytes of a frame in the fixed-length format: two header bytes,
/// the type byte, the kind of identifier, the kind of frame, the identifier's
/// four bytes, the data length code, the payload padded with zeros to eight
/// bytes, and a reserved zero byte.
pub open spec fn fixed_body(v: FrameView) -> Seq<u8> {
    seq![
        START,
        fixed::HEADER2,
        fixed::TYPE,
        if v.id().is_standard() { fixed::STD } else { fixed::EXT },
        if v is Data { fixed::DATA } else { fixed::REMOTE },
    ] + le_u32(id_raw32(v.id())) + seq![v.dlc() as u8] + v.data() + Seq::new(
        (9 - v.data().len()) as nat,
        |i: int| 0u8,
    )
}

/// A frame in the fixed-length format: the body and the checksum of its bytes
/// from the type byte to the reserved byte.
pub open spec fn fixed_bytes(v: FrameView) -> Seq<u8> {
    fixed_body(v).push(checksum(fixed_body(v).subrange(2, 19)))
}

/// The type byte of the variable-length format: the type marker, the remote
/// bit, the extended bit and the low four bits of the data length code.
pub open spec fn marker(v: FrameView) -> u8 {
    ((if v is Remote {
        variable::TYPE_MARKER | variable::RTR_BIT
    } else {
        variable::TYPE_MARKER
    }) | (if v.id().is_standard() {
        0u8
    } else {
        variable::EXT_BIT
    })) | ((v.dlc() as u8) & variable::DLC_MASK)
}

/// The identifier's bytes in the variable-length format: two for a standard,
/// four for an extended one, least significant first.
pub open spec fn id_bytes(id: IdView) -> Seq<u8> {
    match id {
        IdView::Standard(raw) => le_u16(raw),
        IdView::Extended(raw) => le_u32(raw),
    }
}

/// A frame in the variable-length format: start byte, type byte, identifier,
/// payload, end byte.
pub open spec fn variable_bytes(v: FrameView) -> Seq<u8> {
    seq![START, marker(v)] + id_bytes(v.id()) + v.data() + seq![variable::END]
}

pub(crate) proof fn lemma_byte_sum_step(s: Seq<u8>, lo: int, hi: int)
    requires
        0 <= lo <= hi < s.len(),
    ensures
        byte_sum(s.subrange(lo, hi + 1)) == byte_sum(s.subrange(lo, hi)) + s[hi],
{
    assert(s.subrange(lo, hi + 1).drop_last() =~= s.subrange(lo, hi));
}

impl Encode<Frame> for Encoder<Fixed> {
    /// Writes the 20 bytes of `frame` in the fixed-length format.
    fn encode(&self, frame: &Frame, buf: &mut [u8]) -> (r: Result<usize, EncoderError>)
        ensures
            old(buf)@.len() < 20 ==> r == Err::<usize, EncoderError>(
                EncoderError::BufferTooSmall { expected: 20, provided: old(buf)@.len() as usize },
            ) && final(buf)@ == old(buf)@,
            old(buf)@.len() >= 20 ==> r == Ok::<usize, EncoderError>(20) && final(buf)@
                == fixed_bytes(frame@) + old(buf)@.skip(20),
    {
        let size = FrameSizeIndicator::<Fixed>::size(frame);
        if buf.len() < size {
            return Err(EncoderError::BufferTooSmall { expected: size, provided: buf.len() });
        }
        let ghost orig = buf@;
        let ghost v = frame@;
        let ghost body = fixed_body(v);
        let data = frame.data();
        let n = data.len();
        assert(body.len() == 19);

        // clear the frame's bytes
        let mut i: usize = 0;
        while i < size
            invariant
                size == 20,
                buf@.len() == orig.len(),
                orig.len() >= 20,
                i <= size,
                forall|j: int| 0 <= j < i ==> buf@[j] == 0,
                forall|j: int| 20 <= j < orig.len() ==> buf@[j] == orig[j],
            decreases size - i,
        {
            buf[i] = 0;
            i = i + 1;
        }

        let mut idx: usize = 0;
        buf[idx] = START;
        idx += 1;
        buf[idx] = fixed::HEADER2;
        idx += 1;
        buf[idx] = fixed::TYPE;
        idx += 1;
        buf[idx] = if frame.is_standard() {
            fixed::STD
        } else {
            fixed::EXT
        };
        idx += 1;
        buf[idx] = if frame.is_data_frame() {
            fixed::DATA
        } else {
            fixed::REMOTE
        };
        idx += 1;

        // the identifier, least significant byte first
        let le_bytes = match frame.id() {
            CanId::Standard(id) => u32_to_le(id.as_raw() as u32),
            CanId::Extended(id) => u32_to_le(id.as_raw()),
        };
        assert(le_bytes@ == le_u32(id_raw32(v.id())));
        let mut k: usize = 0;
        while k < 4
            invariant
                idx == 5 + k,
                k <= 4,
                buf@.len() == orig.len(),
                orig.len() >= 20,
                le_bytes@ == le_u32(id_raw32(v.id())),
                body == fixed_body(v),
                forall|j: int| 0 <= j < idx ==> buf@[j] == body[j],
                forall|j: int| idx <= j < 20 ==> buf@[j] == 0,
                forall|j: int| 20 <= j < orig.len() ==> buf@[j] == orig[j],
            decreases 4 - k,
        {
            buf[idx] = le_bytes[k];
            idx += 1;
            k += 1;
        }

        buf[idx] = frame.dlc() as u8;
        idx += 1;

        // the payload
        let mut k: usize = 0;
        while k < n
            invariant
                idx == 10 + k,
                k <= n,
                n == data@.len(),
                n <= 8,
                data@ == v.data(),
                buf@.len() == orig.len(),
                orig.len() >= 20,
                body == fixed_body(v),
                forall|j: int| 0 <= j < idx ==> buf@[j] == body[j],
                forall|j: int| idx <= j < 20 ==> buf@[j] == 0,
                forall|j: int| 20 <= j < orig.len() ==> buf@[j] == orig[j],
            decreases n - k,
        {
            buf[idx] = data[k];
            idx += 1;
            k += 1;
        }

        buf[fixed::RESERVED_IDX] = 0x00;
        assert forall|j: int| 0 <= j < 19 implies buf@[j] == body[j] by {
            if j >= 10 + n {
                assert(body[j] == 0);
            }
        }
        idx = fixed::CHECKSUM_IDX;

        // the checksum
        let mut sum: u8 = 0;
        let mut c: usize = fixed::CHECKSUM_START;
        assert(buf@.subrange(2, 2) =~= Seq::<u8>::empty());
        while c <= fixed::RESERVED_IDX
            invariant
                2 <= c <= 19,
                buf@.len() == orig.len(),
                orig.len() >= 20,
                sum == checksum(buf@.subrange(2, c as int)),
            decreases 19 - c,
        {
            proof {
                lemma_byte_sum_step(buf@, 2, c as int);
                let x = byte_sum(buf@.subrange(2, c as int));
                vstd::arithmetic::div_mod::lemma_add_mod_noop(x as int, buf@[c as int] as int, 256);
            }
            sum = sum.wrapping_add(buf[c]);
            c += 1;
        }
        assert(buf@.subrange(2, 19) =~= body.subrange(2, 19));
        buf[idx] = sum;
        idx += 1;
        assert(buf@ =~= fixed_bytes(v) + orig.skip(20));
        Ok(idx)
    }
}

impl Encode<Frame> for Encoder<Variable> {
    /// Writes `frame` in the variable-length format. The room it asks for is
    /// `variable_size`; a remote frame takes only the bytes before its payload
    /// and the end byte.
    fn encode(&self, frame: &Frame, buf: &mut [u8]) -> (r: Result<usize, EncoderError>)
        ensures
            old(buf)@.len() < variable_size(frame@) ==> r == Err::<usize, EncoderError>(
                EncoderError::BufferTooSmall {
                    expected: variable_size(frame@) as usize,
                    provided: old(buf)@.len() as usize,
                },
            ) && final(buf)@ == old(buf)@,
            old(buf)@.len() >= variable_size(frame@) ==> r == Ok::<usize, EncoderError>(
                variable_bytes(frame@).len() as usize,
            ) && final(buf)@ == variable_bytes(frame@) + old(buf)@.skip(
                variable_bytes(frame@).len() as int,
            ),
    {
        let size = FrameSizeIndicator::<Variable>::size(frame);
        if buf.len() < size {
            return Err(EncoderError::BufferTooSmall { expected: size, provided: buf.len() });
        }
        let ghost orig = buf@;
        let ghost v = frame@;
        let ghost target = variable_bytes(v);
        let data = frame.data();
        let n = data.len();

        let mut idx: usize = 0;
        buf[idx] = START;
        idx += 1;

        let mut marker = if frame.is_remote_frame() {
            variable::TYPE_MARKER | variable::RTR_BIT
        } else {
            variable::TYPE_MARKER
        };
        marker |= if frame.is_extended() {
            variable::EXT_BIT
        } else {
            0
        };
        marker |= (frame.dlc() as u8) & variable::DLC_MASK;
        buf[idx] = marker;
        idx += 1;

        let ghost id_len: int = if v.id().is_standard() { 2 } else { 4 };
        assert(id_bytes(v.id()).len() == id_len);
        assert(size >= 3 + id_len + n);

        match frame.id() {
            CanId::Standard(id) => {
                let le_bytes = u16_to_le(id.as_raw());
                let mut k: usize = 0;
                while k < 2
                    invariant
                        idx == 2 + k,
                        k <= 2,
                        id_len == 2,
                        le_bytes@ == id_bytes(v.id()),
                        buf@.len() == orig.len(),
                        orig.len() >= size,
                        size >= 5,
                        target == variable_bytes(v),
                        forall|j: int| 0 <= j < idx ==> buf@[j] == target[j],
                        forall|j: int| idx <= j < orig.len() ==> buf@[j] == orig[j],
                    decreases 2 - k,
                {
                    buf[idx] = le_bytes[k];
                    idx += 1;
                    k += 1;
                }
            },
            CanId::Extended(id) => {
                let le_bytes = u32_to_le(id.as_raw());
                let mut k: usize = 0;
                while k < 4
                    invariant
                        idx == 2 + k,
                        k <= 4,
                        id_len == 4,
                        le_bytes@ == id_bytes(v.id()),
                        buf@.len() == orig.len(),
                        orig.len() >= size,
                        size >= 7,
                        target == variable_bytes(v),
                        forall|j: int| 0 <= j < idx ==> buf@[j] == target[j],
                        forall|j: int| idx <= j < orig.len() ==> buf@[j] == orig[j],
                    decreases 4 - k,
                {
                    buf[idx] = le_bytes[k];
                    idx += 1;
                    k += 1;
                }
            },
        }

        let mut k: usize = 0;
        while k < n
            invariant
                idx == 2 + id_len + k,
                k <= n,
                n == data@.len(),
                data@ == v.data(),
                buf@.len() == orig.len(),
                orig.len() >= 3 + id_len + n,
                id_bytes(v.id()).len() == id_len,
                target == variable_bytes(v),
                forall|j: int| 0 <= j < idx ==> buf@[j] == target[j],
                forall|j: int| idx <= j < orig.len() ==> buf@[j] == orig[j],
            decreases n - k,
        {
            buf[idx] = data[k];
            idx += 1;
            k += 1;
        }

        buf[idx] = variable::END;
        idx += 1;
        assert(target.len() == idx);
        assert(buf@ =~= target + orig.skip(idx as int));
        Ok(idx)
    }
}

} // verus!

use vstd::prelude::*;

use core::marker::PhantomData;

use crate::frame::{Frame, FrameView};
use crate::id::{CanId, ExtendedId, IdView, StandardId};
use crate::mode::{Fixed, Mode, Variable};
use crate::parse::proto::{u16_from_le, u16_of_le, u32_from_le, u32_of_le, variable, START};

verus! {

/// Why a decoder dropped or refused the bytes it had collected.
#[derive(Debug, PartialEq, Eq, Clone, Copy)]
pub enum DecoderError {
    /// More bytes arrived than a frame can hold.
    Overflow,
    /// The type byte announced more than eight data bytes.
    InvalidDlc,
    /// The byte where the end marker belongs held something else.
    MissingEnd,
    /// The identifier was out of range for its kind.
    InvalidId,
    /// The frame could not be built from the collected bytes.
    InvalidFrame,
}

/// What pushing one byte into a decoder gives: nothing yet, a frame, or an error.
pub enum Outcome {
    Pending,
    Decoded(FrameView),
    Failed(DecoderError),
}

/// The outcome that a result of `push` stands for.
pub open spec fn outcome(r: Result<Option<Frame>, DecoderError>) -> Outcome {
    match r {
        Ok(None) => Outcome::Pending,
        Ok(Some(f)) => Outcome::Decoded(f@),
        Err(e) => Outcome::Failed(e),
    }
}

/// A decoder that is fed one byte at a time and yields frames in the format `M`.
pub struct Decoder<M: Mode> {
    buf: [u8; 20],
    len: usize,
    _mode: PhantomData<M>,
}

impl<M: Mode> Decoder<M> {
    /// The decoder never holds more than its 20 bytes.
    #[verifier::type_invariant]
    closed spec fn inv(self) -> bool {
        self.len <= 20
    }

    /// The bytes that the decoder has collected and not yet turned into a
    /// frame or dropped.
    pub closed spec fn pending(&self) -> Seq<u8> {
        self.buf@.subrange(0, self.len as int)
    }

    pub fn new() -> (r: Decoder<M>)
        ensures
            r.pending() == Seq::<u8>::empty(),
    {
        let r = Decoder { buf: [0x00; 20], len: 0, _mode: PhantomData };
        assert(r.pending() =~= Seq::<u8>::empty());
        r
    }
}

/// A step of the fixed-length decoder: it collects nothing and yields nothing.
pub open spec fn fixed_step(pending: Seq<u8>, byte: u8) -> (Seq<u8>, Outcome) {
    (pending, Outcome::Pending)
}

impl Decoder<Fixed> {
    /// Takes one byte; the fixed-length format is not decoded yet, so nothing
    /// comes out and nothing is kept.
    #[allow(unused_variables)]
    pub fn push(&mut self, byte: u8) -> (r: Result<Option<Frame>, DecoderError>)
        ensures
            fixed_step(old(self).pending(), byte) == (final(self).pending(), outcome(r)),
            r == Ok::<Option<Frame>, DecoderError>(None),
    {
        Ok(None)
    }
}

/// The number of bytes of a frame in the variable-length format whose type
/// byte is `t`: start and type bytes, two or four identifier bytes, the data
/// bytes unless the frame is a remote frame, and the end byte.
pub open spec fn expected_len(t: u8) -> nat {
    3 + (if t & variable::EXT_BIT != 0 { 4nat } else { 2nat }) + (if t & variable::RTR_BIT == 0 {
        (t & variable::DLC_MASK) as nat
    } else {
        0nat
    })
}

/// The identifier of the collected bytes `p`, when it is in range.
pub open spec fn decoded_id(p: Seq<u8>) -> Option<IdView> {
    if p[1] & variable::EXT_BIT != 0 {
        let raw = u32_of_le(p[2], p[3], p[4], p[5]);
        if raw <= 0x1FFF_FFFF {
            Some(IdView::Extended(raw))
        } else {
            None
        }
    } else {
        let raw = u16_of_le(p[2], p[3]);
        if raw <= 0x7FF {
            Some(IdView::Standard(raw))
        } else {
            None
        }
    }
}

/// The frame that the complete collected bytes `p` stand for, or the error.
pub open spec fn frame_outcome(p: Seq<u8>) -> Outcome {
    let t = p[1];
    let dlc = t & variable::DLC_MASK;
    match decoded_id(p) {
        None => Outcome::Failed(DecoderError::InvalidId),
        Some(id) => if dlc > 8 {
            Outcome::Failed(DecoderError::InvalidFrame)
        } else if t & variable::RTR_BIT != 0 {
            Outcome::Decoded(FrameView::Remote { id, dlc })
        } else {
            let start: int = if t & variable::EXT_BIT != 0 { 6 } else { 4 };
            Outcome::Decoded(FrameView::Data { id, data: p.subrange(start, start + dlc) })
        },
    }
}

/// A step of the variable-length decoder: the bytes it keeps and the outcome,
/// given the bytes it held and the byte that arrives.
///
/// With nothing collected it waits for the start byte and drops anything else.
/// A type byte without the type marker drops the frame (a start byte there
/// begins a new one); a type byte that announces more than eight data bytes is
/// an error. Once all the bytes that the type byte announces are in, the last
/// one must be the end marker, and the bytes become a frame.
pub open spec fn variable_step(pending: Seq<u8>, byte: u8) -> (Seq<u8>, Outcome) {
    if pending.len() == 0 {
        if byte == START {
            (seq![START], Outcome::Pending)
        } else {
            (Seq::empty(), Outcome::Pending)
        }
    } else if pending.len() >= 20 {
        (Seq::empty(), Outcome::Failed(DecoderError::Overflow))
    } else {
        let p = pending.push(byte);
        if p.len() == 2 && p[1] & variable::TYPE_MARKER != variable::TYPE_MARKER {
            (if p[1] == START { seq![START] } else { Seq::empty() }, Outcome::Pending)
        } else if p.len() == 2 && p[1] & variable::DLC_MASK > 8 {
            (Seq::empty(), Outcome::Failed(DecoderError::InvalidDlc))
        } else if p.len() < expected_len(p[1]) {
            (p, Outcome::Pending)
        } else if p[expected_len(p[1]) - 1] != variable::END {
            (Seq::empty(), Outcome::Failed(DecoderError::MissingEnd))
        } else {
            match frame_outcome(p) {
                Outcome::Decoded(v) => (Seq::empty(), Outcome::Decoded(v)),
                o => (p, o),
            }
        }
    }
}

impl Decoder<Variable> {
    /// Takes one byte and says whether a frame is complete.
    pub fn push(&mut self, byte: u8) -> (r: Result<Option<Frame>, DecoderError>)
        ensures
            variable_step(old(self).pending(), byte) == (final(self).pending(), outcome(r)),
            r matches Ok(Some(f)) ==> f.wf(),
    {
        proof {
            use_type_invariant(&*self);
        }
        let ghost old_pending = self.pending();
        // resync
        if self.len == 0 {
            if byte != START {
                return Ok(None);
            }
            self.buf[0] = START;
            self.len = 1;
            assert(self.pending() =~= seq![START]);
            return Ok(None);
        }
        // overflow protection
        if self.len >= self.buf.len() {
            self.reset();
            return Err(DecoderError::Overflow);
        }
        // push data
        self.buf[self.len] = byte;
        self.len += 1;
        assert(self.pending() =~= old_pending.push(byte));

        // type byte
        if self.len == 2 {
            let type_byte = self.buf[1];
            if type_byte & variable::TYPE_MARKER != variable::TYPE_MARKER {
                self.reset();
                proof {
                    use_type_invariant(&*self);
                }
                if type_byte == START {
                    self.buf[0] = START;
                    self.len = 1;
                    assert(self.pending() =~= seq![START]);
                }
                return Ok(None);
            }
            if (type_byte & variable::DLC_MASK) as usize > 8 {
                self.reset();
                return Err(DecoderError::InvalidDlc);
            }
        }
        let expected = match self.expected_len() {
            Some(e) => e,
            None => return Ok(None),
        };

        // not finished yet
        if self.len < expected {
            return Ok(None);
        }
        // check end marker
        if self.buf[expected - 1] != variable::END {
            self.reset();
            return Err(DecoderError::MissingEnd);
        }
        // construct frame
        let frame = match self.build_frame() {
            Ok(f) => f,
            Err(e) => return Err(e),
        };
        self.reset();
        Ok(Some(frame))
    }

    /// Drops the collected bytes.
    pub fn reset(&mut self)
        ensures
            final(self).pending() == Seq::<u8>::empty(),
    {
        self.len = 0;
        assert(self.pending() =~= Seq::<u8>::empty());
    }

    fn expected_len(&self) -> (r: Option<usize>)
        ensures
            r is Some <==> self.pending().len() >= 2,
            r matches Some(e) ==> e == expected_len(self.pending()[1]) && e <= 22,
    {
        proof {
            use_type_invariant(self);
        }
        if self.len < 2 {
            return None;
        } else {
            let type_byte = self.buf[1];
            assert(type_byte & variable::DLC_MASK <= 15) by (bit_vector);

            // id length
            let id_len: usize = if type_byte & variable::EXT_BIT != 0 {
                4
            } else {
                2
            };

            // dlc length
            let dlc: usize = if type_byte & variable::RTR_BIT == 0 {
                (type_byte & variable::DLC_MASK) as usize
            } else {
                0
            };

            Some(1 + 1 + id_len + dlc + 1)
        }
    }

    fn build_frame(&self) -> (r: Result<Frame, DecoderError>)
        requires
            self.pending().len() >= 2,
            self.pending().len() >= expected_len(self.pending()[1]),
        ensures
            r matches Ok(f) ==> frame_outcome(self.pending()) == Outcome::Decoded(f@) && f.wf(),
            r matches Err(e) ==> frame_outcome(self.pending()) == Outcome::Failed(e),
    {
        proof {
            use_type_invariant(self);
        }
        let ghost p = self.pending();
        let type_byte = self.buf[1];
        let extended = type_byte & variable::EXT_BIT != 0;
        let remote = type_byte & variable::RTR_BIT != 0;
        let dlc = (type_byte & variable::DLC_MASK) as usize;
        assert(type_byte & variable::DLC_MASK <= 15) by (bit_vector);

        // 4 bytes extended or 2 bytes standard id
        let id = if extended {
            let raw = u32_from_le(self.buf[2], self.buf[3], self.buf[4], self.buf[5]);
            match ExtendedId::new(raw) {
                Some(id) => CanId::Extended(id),
                None => return Err(DecoderError::InvalidId),
            }
        } else {
            let raw = u16_from_le(self.buf[2], self.buf[3]);
            match StandardId::new(raw) {
                Some(id) => CanId::Standard(id),
                None => return Err(DecoderError::InvalidId),
            }
        };
        assert(decoded_id(p) == Some(id@));

        if remote {
            // a remote frame carries no data
            return match Frame::new_remote(id, dlc as u8) {
                Some(f) => Ok(f),
                None => Err(DecoderError::InvalidFrame),
            };
        }
        let data_start: usize = 2 + if extended {
            4
        } else {
            2
        };
        let data = vstd::slice::slice_subrange(
            self.buf.as_slice(),
            data_start,
            data_start + dlc,
        );
        assert(data@ =~= p.subrange(data_start as int, data_start + dlc));
        match Frame::new(id, data) {
            Some(f) => Ok(f),
            None => Err(DecoderError::InvalidFrame),
        }
    }
}

} // verus!

verus! {

/// A decoder that takes one byte at a time.
pub trait PushDecode {
    /// The bytes that the decoder holds.
    spec fn held(&self) -> Seq<u8>;

    /// What the decoder keeps and yields when `byte` arrives while it holds `held`.
    spec fn step(held: Seq<u8>, byte: u8) -> (Seq<u8>, Outcome);

    fn push(&mut self, byte: u8) -> (r: Result<Option<Frame>, DecoderError>)
        ensures
            Self::step(old(self).held(), byte) == (final(self).held(), outcome(r)),
            r matches Ok(Some(f)) ==> f.wf(),
    ;
}

impl PushDecode for Decoder<Fixed> {
    open spec fn held(&self) -> Seq<u8> {
        self.pending()
    }

    open spec fn step(held: Seq<u8>, byte: u8) -> (Seq<u8>, Outcome) {
        fixed_step(held, byte)
    }

    fn push(&mut self, byte: u8) -> (r: Result<Option<Frame>, DecoderError>) {
        Decoder::<Fixed>::push(self, byte)
    }
}

impl PushDecode for Decoder<Variable> {
    open spec fn held(&self) -> Seq<u8> {
        self.pending()
    }

    open spec fn step(held: Seq<u8>, byte: u8) -> (Seq<u8>, Outcome) {
        variable_step(held, byte)
    }

    fn push(&mut self, byte: u8) -> (r: Result<Option<Frame>, DecoderError>) {
        Decoder::<Variable>::push(self, byte)
    }
}

/// Feeding `input` to a decoder that holds `held`, up to and including the
/// first byte whose outcome is not `Pending`: what the decoder then holds, how
/// many bytes it took, and that outcome (`Pending` if every byte was taken
/// without one).
pub open spec fn run_until<D: PushDecode>(held: Seq<u8>, input: Seq<u8>) -> (Seq<u8>, nat, Outcome)
    decreases input.len(),
{
    if input.len() == 0 {
        (held, 0, Outcome::Pending)
    } else {
        let first = D::step(held, input[0]);
        if first.1 is Pending {
            let rest = run_until::<D>(first.0, input.drop_first());
            (rest.0, rest.1 + 1, rest.2)
        } else {
            (first.0, 1, first.1)
        }
    }
}

impl<M: Mode> Decoder<M> where Decoder<M>: PushDecode {
    /// The frames and errors that the decoder yields on `input`, one at a time.
    pub fn decode_slice<'a>(&'a mut self, input: &'a [u8]) -> (r: Frames<'a, M>)
        ensures
            r.held() == old(self).held(),
            r.remaining() == input@,
            *final(self) == *final(r.decoder_ref()),
    {
        let r = Frames { decoder: self, input, pos: 0 };
        assert(r.remaining() =~= input@);
        r
    }
}

/// The frames and errors that a decoder yields on a slice of bytes, one at a time.
pub struct Frames<'a, M: Mode> where Decoder<M>: PushDecode {
    decoder: &'a mut Decoder<M>,
    input: &'a [u8],
    pos: usize,
}

impl<'a, M: Mode> Frames<'a, M> where Decoder<M>: PushDecode {
    /// The bytes not yet fed to the decoder.
    pub closed spec fn remaining(&self) -> Seq<u8> {
        if self.pos <= self.input@.len() {
            self.input@.skip(self.pos as int)
        } else {
            Seq::empty()
        }
    }

    /// The bytes that the decoder holds.
    pub closed spec fn held(&self) -> Seq<u8> {
        self.decoder.held()
    }

    /// The borrow of the decoder that these frames feed.
    pub closed spec fn decoder_ref(&self) -> &'a mut Decoder<M> {
        self.decoder
    }

    /// Once the frames are done with, the decoder is left holding what they
    /// last held.
    pub proof fn lemma_done(frames: Frames<'a, M>)
        requires
            has_resolved(frames),
        ensures
            (*final(frames.decoder_ref())).held() == frames.held(),
    {
    }

    /// Feeds bytes to the decoder until one completes a frame or fails, and
    /// returns that result; `None` once the input is used up.
    pub fn next(&mut self) -> (r: Option<Result<Frame, DecoderError>>)
        ensures
            ({
                let run = run_until::<Decoder<M>>(old(self).held(), old(self).remaining());
                &&& *final(final(self).decoder_ref()) == *final(old(self).decoder_ref())
                &&& final(self).held() == run.0
                &&& final(self).remaining() == old(self).remaining().skip(run.1 as int)
                &&& (r is None <==> run.2 is Pending)
                &&& (r matches Some(Ok(f)) ==> run.2 == Outcome::Decoded(f@) && f.wf())
                &&& (r matches Some(Err(e)) ==> run.2 == Outcome::Failed(e))
            }),
    {
        let ghost run = run_until::<Decoder<M>>(self.held(), self.remaining());
        let ghost start = self.remaining();
        let mut result: Option<Result<Frame, DecoderError>> = None;
        while result.is_none() && self.pos < self.input.len()
            invariant
                *final(self.decoder) == *final(old(self).decoder),
                start.len() >= self.remaining().len(),
                self.remaining() == start.skip(start.len() - self.remaining().len()),
                result is None ==> {
                    &&& run_until::<Decoder<M>>(self.held(), self.remaining()).0 == run.0
                    &&& run_until::<Decoder<M>>(self.held(), self.remaining()).2 == run.2
                    &&& run_until::<Decoder<M>>(self.held(), self.remaining()).1 + (start.len()
                        - self.remaining().len()) == run.1
                },
                result is Some ==> {
                    &&& self.held() == run.0
                    &&& self.remaining() == start.skip(run.1 as int)
                    &&& !(run.2 is Pending)
                    &&& (result matches Some(Ok(f)) ==> run.2 == Outcome::Decoded(f@) && f.wf())
                    &&& (result matches Some(Err(e)) ==> run.2 == Outcome::Failed(e))
                },
            decreases self.input@.len() - self.pos,
        {
            let byte = self.input[self.pos];
            let ghost rem = self.remaining();
            assert(rem[0] == byte);
            assert(rem.drop_first() =~= self.input@.skip(self.pos + 1));
            let ghost h = self.held();
            self.pos += 1;
            let res = self.decoder.push(byte);
            assert(self.remaining() =~= start.skip(start.len() - self.remaining().len()));
            assert(self.remaining() == rem.drop_first());
            match res {
                Ok(None) => {},
                Ok(Some(f)) => {
                    assert(run_until::<Decoder<M>>(h, rem) == (self.held(), 1nat, outcome(res)));
                    assert(self.remaining() =~= start.skip(run.1 as int));
                    result = Some(Ok(f));
                },
                Err(e) => {
                    assert(run_until::<Decoder<M>>(h, rem) == (self.held(), 1nat, outcome(res)));
                    assert(self.remaining() =~= start.skip(run.1 as int));
                    result = Some(Err(e));
                },
            }
        }
        if result.is_none() {
            assert(self.remaining() =~= Seq::<u8>::empty());
            assert(start.skip(start.len() as int) =~= Seq::<u8>::empty());
        }
        result
    }
}

} // verus!

verus! {

/// What a decoder that holds `held` keeps after it is fed all of `input`,
/// one byte at a time, and the outcome of each byte.
pub open spec fn run<D: PushDecode>(held: Seq<u8>, input: Seq<u8>) -> (Seq<u8>, Seq<Outcome>)
    decreases input.len(),
{
    if input.len() == 0 {
        (held, Seq::empty())
    } else {
        let first = D::step(held, input[0]);
        let rest = run::<D>(first.0, input.drop_first());
        (rest.0, seq![first.1] + rest.1)
    }
}

/// The first outcome that is not `Pending`, or `Pending` if there is none.
pub open spec fn first_event(os: Seq<Outcome>) -> Outcome
    decreases os.len(),
{
    if os.len() == 0 {
        Outcome::Pending
    } else if os[0] is Pending {
        first_event(os.drop_first())
    } else {
        os[0]
    }
}

/// Feeding two pieces of input one after the other is feeding their concatenation.
pub proof fn lemma_run_concat<D: PushDecode>(held: Seq<u8>, a: Seq<u8>, b: Seq<u8>)
    ensures
        run::<D>(held, a + b) == (
            run::<D>(run::<D>(held, a).0, b).0,
            run::<D>(held, a).1 + run::<D>(run::<D>(held, a).0, b).1,
        ),
    decreases a.len(),
{
    if a.len() == 0 {
        assert(a + b =~= b);
        assert(run::<D>(held, a).1 + run::<D>(held, b).1 =~= run::<D>(held, b).1);
    } else {
        let first = D::step(held, a[0]);
        assert((a + b)[0] == a[0]);
        assert((a + b).drop_first() =~= a.drop_first() + b);
        lemma_run_concat::<D>(first.0, a.drop_first(), b);
        let ra = run::<D>(first.0, a.drop_first());
        let rb = run::<D>(ra.0, b);
        assert(seq![first.1] + (ra.1 + rb.1) =~= (seq![first.1] + ra.1) + rb.1);
    }
}

/// The first event of two runs of outcomes is that of the first run, unless it
/// has none.
pub proof fn lemma_first_event_concat(a: Seq<Outcome>, b: Seq<Outcome>)
    ensures
        first_event(a + b) == if first_event(a) is Pending {
            first_event(b)
        } else {
            first_event(a)
        },
    decreases a.len(),
{
    if a.len() == 0 {
        assert(a + b =~= b);
    } else {
        assert((a + b)[0] == a[0]);
        assert((a + b).drop_first() =~= a.drop_first() + b);
        lemma_first_event_concat(a.drop_first(), b);
    }
}

impl<M: Mode> Decoder<M> where Decoder<M>: PushDecode {
    /// Feeds all of `input` to the decoder and returns the first frame or
    /// error that it yields; `None` when it yields neither.
    pub fn decode_first(&mut self, input: &[u8]) -> (r: Option<Result<Frame, DecoderError>>)
        ensures
            final(self).held() == run::<Decoder<M>>(old(self).held(), input@).0,
            r is None <==> first_event(run::<Decoder<M>>(old(self).held(), input@).1) is Pending,
            r matches Some(Ok(f)) ==> first_event(run::<Decoder<M>>(old(self).held(), input@).1)
                == Outcome::Decoded(f@) && f.wf(),
            r matches Some(Err(e)) ==> first_event(run::<Decoder<M>>(old(self).held(), input@).1)
                == Outcome::Failed(e),
    {
        let ghost h0 = self.held();
        let mut result: Option<Result<Frame, DecoderError>> = None;
        let n = input.len();
        let mut i: usize = 0;
        assert(input@.take(0) =~= Seq::<u8>::empty());
        while i < n
            invariant
                n == input@.len(),
                i <= n,
                self.held() == run::<Decoder<M>>(h0, input@.take(i as int)).0,
                result is None <==> first_event(run::<Decoder<M>>(h0, input@.take(i as int)).1) is Pending,
                result matches Some(Ok(f)) ==> first_event(run::<Decoder<M>>(h0, input@.take(i as int)).1)
                    == Outcome::Decoded(f@) && f.wf(),
                result matches Some(Err(e)) ==> first_event(run::<Decoder<M>>(h0, input@.take(i as int)).1)
                    == Outcome::Failed(e),
            decreases n - i,
        {
            let ghost before = run::<Decoder<M>>(h0, input@.take(i as int));
            let res = self.push(input[i]);
            proof {
                let one = seq![input@[i as int]];
                assert(input@.take(i + 1) =~= input@.take(i as int) + one);
                lemma_run_concat::<Decoder<M>>(h0, input@.take(i as int), one);
                assert(one.drop_first() =~= Seq::<u8>::empty());
                let step = <Decoder<M> as PushDecode>::step(before.0, input@[i as int]);
                assert(one[0] == input@[i as int]);
                assert(run::<Decoder<M>>(step.0, one.drop_first()) == (step.0, Seq::<Outcome>::empty()));
                assert(run::<Decoder<M>>(before.0, one).0 == step.0);
                assert(run::<Decoder<M>>(before.0, one).1 =~= seq![step.1]);
                lemma_first_event_concat(before.1, seq![step.1]);
                assert(seq![step.1].drop_first() =~= Seq::<Outcome>::empty());
                assert(first_event(seq![step.1].drop_first()) is Pending);
                assert(first_event(seq![step.1]) == step.1);
            }
            if result.is_none() {
                result = match res {
                    Ok(None) => None,
                    Ok(Some(f)) => Some(Ok(f)),
                    Err(e) => Some(Err(e)),
                };
            }
            i += 1;
        }
        assert(input@.take(n as int) =~= input@);
        result
    }
}

/// The outcomes that are not `Pending`, in order: the frames and errors that
/// a run of outcomes yields.
pub open spec fn events(os: Seq<Outcome>) -> Seq<Outcome>
    decreases os.len(),
{
    if os.len() == 0 {
        Seq::empty()
    } else if os[0] is Pending {
        events(os.drop_first())
    } else {
        seq![os[0]] + events(os.drop_first())
    }
}

/// The outcome that a frame or an error stands for.
pub open spec fn result_outcome(r: Result<Frame, DecoderError>) -> Outcome {
    match r {
        Ok(f) => Outcome::Decoded(f@),
        Err(e) => Outcome::Failed(e),
    }
}

/// The events of two runs of outcomes are the events of the first, then those
/// of the second.
pub proof fn lemma_events_concat(a: Seq<Outcome>, b: Seq<Outcome>)
    ensures
        events(a + b) == events(a) + events(b),
    decreases a.len(),
{
    if a.len() == 0 {
        assert(a + b =~= b);
        assert(events(a) + events(b) =~= events(b));
    } else {
        assert((a + b)[0] == a[0]);
        assert((a + b).drop_first() =~= a.drop_first() + b);
        lemma_events_concat(a.drop_first(), b);
        if !(a[0] is Pending) {
            assert(seq![a[0]] + (events(a.drop_first()) + events(b)) =~= (seq![a[0]]
                + events(a.drop_first())) + events(b));
        }
    }
}

/// Splitting the input does not change what comes out: feeding `a` and then
/// `b` leaves the decoder holding what feeding `a + b` leaves, and yields the
/// same frames and errors in the same order.
pub proof fn lemma_split_input<D: PushDecode>(held: Seq<u8>, a: Seq<u8>, b: Seq<u8>)
    ensures
        run::<D>(held, a + b).0 == run::<D>(run::<D>(held, a).0, b).0,
        events(run::<D>(held, a + b).1) == events(run::<D>(held, a).1) + events(
            run::<D>(run::<D>(held, a).0, b).1,
        ),
{
    lemma_run_concat::<D>(held, a, b);
    lemma_events_concat(run::<D>(held, a).1, run::<D>(run::<D>(held, a).0, b).1);
}

impl<M: Mode> Decoder<M> where Decoder<M>: PushDecode {
    /// Feeds all of `input` to the decoder and returns every frame and error
    /// that it yields, in order.
    pub fn decode_all(&mut self, input: &[u8]) -> (r: Vec<Result<Frame, DecoderError>>)
        ensures
            final(self).held() == run::<Decoder<M>>(old(self).held(), input@).0,
            r@.map_values(|x: Result<Frame, DecoderError>| result_outcome(x)) == events(
                run::<Decoder<M>>(old(self).held(), input@).1,
            ),
            forall|i: int| 0 <= i < r@.len() ==> (#[trigger] r@[i] matches Ok(f) ==> f.wf()),
    {
        let ghost h0 = self.held();
        let mut out: Vec<Result<Frame, DecoderError>> = Vec::new();
        let n = input.len();
        let mut i: usize = 0;
        assert(input@.take(0) =~= Seq::<u8>::empty());
        assert(out@.map_values(|x: Result<Frame, DecoderError>| result_outcome(x)) =~= events(
            run::<Decoder<M>>(h0, input@.take(0)).1,
        ));
        while i < n
            invariant
                n == input@.len(),
                i <= n,
                self.held() == run::<Decoder<M>>(h0, input@.take(i as int)).0,
                out@.map_values(|x: Result<Frame, DecoderError>| result_outcome(x)) == events(
                    run::<Decoder<M>>(h0, input@.take(i as int)).1,
                ),
                forall|j: int| 0 <= j < out@.len() ==> (#[trigger] out@[j] matches Ok(f) ==> f.wf()),
            decreases n - i,
        {
            let ghost before = run::<Decoder<M>>(h0, input@.take(i as int));
            let ghost old_out = out@;
            let res = self.push(input[i]);
            let ghost step = <Decoder<M> as PushDecode>::step(before.0, input@[i as int]);
            proof {
                let one = seq![input@[i as int]];
                assert(input@.take(i + 1) =~= input@.take(i as int) + one);
                lemma_run_concat::<Decoder<M>>(h0, input@.take(i as int), one);
                assert(one.drop_first() =~= Seq::<u8>::empty());
                assert(one[0] == input@[i as int]);
                assert(run::<Decoder<M>>(step.0, one.drop_first()) == (step.0, Seq::<Outcome>::empty()));
                assert(run::<Decoder<M>>(before.0, one).0 == step.0);
                assert(run::<Decoder<M>>(before.0, one).1 =~= seq![step.1]);
                lemma_events_concat(before.1, seq![step.1]);
                assert(seq![step.1].drop_first() =~= Seq::<Outcome>::empty());
                assert(events(seq![step.1].drop_first()) =~= Seq::<Outcome>::empty());
            }
            match res {
                Ok(None) => {
                    assert(events(seq![step.1]) =~= Seq::<Outcome>::empty());
                    assert(events(before.1) + events(seq![step.1]) =~= events(before.1));
                },
                Ok(Some(f)) => {
                    out.push(Ok(f));
                    assert(events(seq![step.1]) =~= seq![step.1]);
                    assert(out@.map_values(|x: Result<Frame, DecoderError>| result_outcome(x))
                        =~= old_out.map_values(|x: Result<Frame, DecoderError>| result_outcome(x))
                        + seq![step.1]);
                },
                Err(e) => {
                    out.push(Err(e));
                    assert(events(seq![step.1]) =~= seq![step.1]);
                    assert(out@.map_values(|x: Result<Frame, DecoderError>| result_outcome(x))
                        =~= old_out.map_values(|x: Result<Frame, DecoderError>| result_outcome(x))
                        + seq![step.1]);
                },
            }
            i += 1;
        }
        assert(input@.take(n as int) =~= input@);
        out
    }
}

/// A run up to the first event takes at least one byte of a non-empty input,
/// and never more bytes than there are.
pub proof fn lemma_run_until_len<D: PushDecode>(held: Seq<u8>, input: Seq<u8>)
    ensures
        run_until::<D>(held, input).1 <= input.len(),
        input.len() > 0 ==> run_until::<D>(held, input).1 >= 1,
        run_until::<D>(held, input).2 is Pending ==> run_until::<D>(held, input).1 == input.len(),
    decreases input.len(),
{
    if input.len() > 0 {
        let first = D::step(held, input[0]);
        lemma_run_until_len::<D>(first.0, input.drop_first());
    }
}

/// What the items of `Frames::next`, called until it gives `None`, are: each
/// call runs the decoder up to the next event. The bytes the decoder then
/// holds, and the events in order.
pub open spec fn iterate<D: PushDecode>(held: Seq<u8>, input: Seq<u8>) -> (Seq<u8>, Seq<Outcome>)
    decreases input.len(),
{
    if input.len() == 0 {
        (held, Seq::empty())
    } else {
        let r = run_until::<D>(held, input);
        if r.2 is Pending {
            (r.0, Seq::empty())
        } else {
            proof {
                lemma_run_until_len::<D>(held, input);
            }
            let rest = iterate::<D>(r.0, input.skip(r.1 as int));
            (rest.0, seq![r.2] + rest.1)
        }
    }
}

/// A run up to the first event, followed by a full run of the rest, is a
/// full run.
proof fn lemma_run_until_then_run<D: PushDecode>(held: Seq<u8>, input: Seq<u8>)
    ensures
        ({
            let r = run_until::<D>(held, input);
            let rest = run::<D>(r.0, input.skip(r.1 as int));
            &&& r.2 is Pending ==> run::<D>(held, input).0 == r.0 && events(
                run::<D>(held, input).1,
            ) == Seq::<Outcome>::empty()
            &&& !(r.2 is Pending) ==> run::<D>(held, input).0 == rest.0 && events(
                run::<D>(held, input).1,
            ) == seq![r.2] + events(rest.1)
        }),
    decreases input.len(),
{
    if input.len() > 0 {
        let first = D::step(held, input[0]);
        let tail = input.drop_first();
        lemma_run_until_then_run::<D>(first.0, tail);
        let rr = run::<D>(first.0, tail);
        assert((seq![first.1] + rr.1)[0] == first.1);
        assert((seq![first.1] + rr.1).drop_first() =~= rr.1);
        if first.1 is Pending {
            let sub = run_until::<D>(first.0, tail);
            lemma_run_until_len::<D>(first.0, tail);
            assert(input.skip(sub.1 as int + 1) =~= tail.skip(sub.1 as int));
        } else {
            assert(input.skip(1) =~= tail);
        }
    }
}

/// Calling `Frames::next` until it gives `None` yields the events of a full
/// run, and leaves the decoder where a full run leaves it.
pub proof fn lemma_iterate_is_run<D: PushDecode>(held: Seq<u8>, input: Seq<u8>)
    ensures
        iterate::<D>(held, input) == (run::<D>(held, input).0, events(run::<D>(held, input).1)),
    decreases input.len(),
{
    if input.len() > 0 {
        let r = run_until::<D>(held, input);
        lemma_run_until_then_run::<D>(held, input);
        lemma_run_until_len::<D>(held, input);
        if !(r.2 is Pending) {
            lemma_iterate_is_run::<D>(r.0, input.skip(r.1 as int));
        }
    } else {
        assert(events(Seq::<Outcome>::empty()) =~= Seq::<Outcome>::empty());
    }
}

/// Splitting the input does not change what iterating the frames of
/// `decode_slice` yields: the frames of `a` and then those of `b` are the
/// frames of `a + b`, and the decoder ends holding the same bytes.
pub proof fn lemma_iterate_split<D: PushDecode>(held: Seq<u8>, a: Seq<u8>, b: Seq<u8>)
    ensures
        iterate::<D>(held, a + b).0 == iterate::<D>(iterate::<D>(held, a).0, b).0,
        iterate::<D>(held, a + b).1 == iterate::<D>(held, a).1 + iterate::<D>(
            iterate::<D>(held, a).0,
            b,
        ).1,
{
    lemma_iterate_is_run::<D>(held, a + b);
    lemma_iterate_is_run::<D>(held, a);
    lemma_iterate_is_run::<D>(run::<D>(held, a).0, b);
    lemma_split_input::<D>(held, a, b);
}

} // verus!

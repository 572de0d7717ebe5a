use vstd::prelude::*;

use crate::frame::{Frame, FrameView};
use crate::id::IdView;
use crate::mode::Variable;
use crate::parse::decode::{
    decoded_id, events, expected_len, frame_outcome, lemma_events_concat, lemma_run_concat, run,
    variable_step, Decoder, DecoderError, Outcome,
};
use crate::parse::encode::{byte_sum, checksum, fixed_bytes, id_bytes, marker, variable_bytes};
use crate::parse::variable_size;
use crate::parse::proto::{
    fixed, le_u16, le_u32, lemma_le_u16_roundtrip, lemma_le_u32_roundtrip, u16_of_le, u32_of_le,
    variable, START,
};

verus! {

/// `n` outcomes that are all `Pending`.
pub open spec fn pendings(n: nat) -> Seq<Outcome> {
    Seq::new(n, |i: int| Outcome::Pending)
}

/// The frames whose variable-length bytes decode back to them: every valid
/// frame, except remote frames that request more than eight bytes (the type
/// byte keeps only four bits of the request, and the decoder refuses more
/// than eight).
pub open spec fn variable_roundtrips(v: FrameView) -> bool {
    &&& v.valid()
    &&& v is Remote ==> v.dlc() <= 8
}

proof fn lemma_marker_bits(remote: bool, ext: bool, d: u8)
    by (bit_vector)
    requires
        d <= 8,
    ensures
        ((((if remote { 0xC0u8 | 0x10u8 } else { 0xC0u8 }) | (if ext { 0x20u8 } else { 0u8 }))
            | (d & 0x0Fu8)) & 0xC0u8) == 0xC0u8,
        (((((if remote { 0xC0u8 | 0x10u8 } else { 0xC0u8 }) | (if ext { 0x20u8 } else { 0u8 }))
            | (d & 0x0Fu8)) & 0x10u8) != 0) == remote,
        (((((if remote { 0xC0u8 | 0x10u8 } else { 0xC0u8 }) | (if ext { 0x20u8 } else { 0u8 }))
            | (d & 0x0Fu8)) & 0x20u8) != 0) == ext,
        ((((if remote { 0xC0u8 | 0x10u8 } else { 0xC0u8 }) | (if ext { 0x20u8 } else { 0u8 }))
            | (d & 0x0Fu8)) & 0x0Fu8) == d,
{
}

/// What the type byte of a frame's variable-length bytes says of it.
proof fn lemma_marker(v: FrameView)
    requires
        variable_roundtrips(v),
    ensures
        marker(v) & variable::TYPE_MARKER == variable::TYPE_MARKER,
        (marker(v) & variable::RTR_BIT != 0) == (v is Remote),
        (marker(v) & variable::EXT_BIT != 0) == !v.id().is_standard(),
        marker(v) & variable::DLC_MASK == v.dlc(),
        expected_len(marker(v)) == variable_bytes(v).len(),
{
    lemma_marker_bits(v is Remote, !v.id().is_standard(), v.dlc() as u8);
}

/// The facts about a frame's variable-length bytes that decoding uses.
proof fn lemma_variable_bytes_shape(v: FrameView)
    requires
        variable_roundtrips(v),
    ensures
        variable_bytes(v).len() <= 15,
        variable_bytes(v).len() >= 5,
        variable_bytes(v)[0] == START,
        variable_bytes(v)[1] == marker(v),
        variable_bytes(v).last() == variable::END,
        frame_outcome(variable_bytes(v)) == Outcome::Decoded(v),
{
    let b = variable_bytes(v);
    lemma_marker(v);
    let m = marker(v);
    match v.id() {
        IdView::Standard(raw) => {
            lemma_le_u16_roundtrip(raw);
            assert(decoded_id(b) == Some(v.id()));
        },
        IdView::Extended(raw) => {
            lemma_le_u32_roundtrip(raw);
            assert(decoded_id(b) == Some(v.id()));
        },
    }
    if v is Data {
        let start: int = if m & variable::EXT_BIT != 0 { 6 } else { 4 };
        assert(b.subrange(start, start + v.dlc()) =~= v.data());
    }
}

/// Feeding the bytes after the first `k` (which the decoder holds) yields
/// nothing until the last byte, which yields the frame and empties the decoder.
proof fn lemma_run_from(v: FrameView, k: nat)
    requires
        variable_roundtrips(v),
        1 <= k < variable_bytes(v).len(),
    ensures
        run::<Decoder<Variable>>(variable_bytes(v).take(k as int), variable_bytes(v).skip(k as int)) == (
            Seq::<u8>::empty(),
            pendings((variable_bytes(v).len() - k - 1) as nat).push(Outcome::Decoded(v)),
        ),
    decreases variable_bytes(v).len() - k,
{
    let b = variable_bytes(v);
    let n = b.len();
    lemma_variable_bytes_shape(v);
    lemma_marker(v);
    let held = b.take(k as int);
    let p = held.push(b[k as int]);
    assert(p =~= b.take(k as int + 1));
    assert(b.skip(k as int)[0] == b[k as int]);
    assert(b.skip(k as int).drop_first() =~= b.skip(k as int + 1));
    if k + 1 == n {
        assert(p =~= b);
        assert(variable_step(held, b[k as int]) == (Seq::<u8>::empty(), Outcome::Decoded(v)));
        assert(b.skip(k as int + 1) =~= Seq::<u8>::empty());
        let rest = run::<Decoder<Variable>>(Seq::<u8>::empty(), b.skip(k as int + 1));
        assert(rest == (Seq::<u8>::empty(), Seq::<Outcome>::empty()));
        assert(seq![Outcome::Decoded(v)] + rest.1 =~= pendings(0).push(Outcome::Decoded(v)));
    } else {
        assert(p[1] == marker(v));
        assert(variable_step(held, b[k as int]) == (p, Outcome::Pending));
        lemma_run_from(v, k + 1);
        assert(run::<Decoder<Variable>>(held, b.skip(k as int)) == (run::<Decoder<Variable>>(p, b.skip(k as int + 1)).0,
            seq![Outcome::Pending] + run::<Decoder<Variable>>(p, b.skip(k as int + 1)).1));
        assert(seq![Outcome::Pending] + pendings((n - k - 2) as nat).push(Outcome::Decoded(v))
            =~= pendings((n - k - 1) as nat).push(Outcome::Decoded(v)));
    }
}

/// Decoding what the variable-length encoder writes gives the frame back: fed
/// into an empty decoder, every byte but the last yields nothing, the last
/// yields the frame, and the decoder is empty again.
pub proof fn lemma_variable_roundtrip(v: FrameView)
    requires
        variable_roundtrips(v),
    ensures
        run::<Decoder<Variable>>(Seq::empty(), variable_bytes(v)) == (
            Seq::<u8>::empty(),
            pendings((variable_bytes(v).len() - 1) as nat).push(Outcome::Decoded(v)),
        ),
{
    let b = variable_bytes(v);
    lemma_variable_bytes_shape(v);
    assert(variable_step(Seq::empty(), b[0]) == (b.take(1), Outcome::Pending)) by {
        assert(seq![START] =~= b.take(1));
    }
    lemma_run_from(v, 1);
    assert(b.drop_first() =~= b.skip(1));
    assert(seq![Outcome::Pending] + pendings((b.len() - 2) as nat).push(Outcome::Decoded(v))
        =~= pendings((b.len() - 1) as nat).push(Outcome::Decoded(v)));
}

/// The same law for a frame value: a well-formed frame (a remote frame
/// requesting at most eight bytes) comes back out of the decoder.
pub proof fn lemma_frame_roundtrip(f: Frame)
    requires
        f.wf(),
        f is Remote ==> f@.dlc() <= 8,
    ensures
        run::<Decoder<Variable>>(Seq::empty(), variable_bytes(f@)) == (
            Seq::<u8>::empty(),
            pendings((variable_bytes(f@).len() - 1) as nat).push(Outcome::Decoded(f@)),
        ),
{
    Frame::lemma_wf_valid(f);
    lemma_variable_roundtrip(f@);
}

/// Bytes that hold no start byte, fed into an empty decoder, are all dropped.
pub proof fn lemma_skip_noise(noise: Seq<u8>)
    requires
        forall|i: int| 0 <= i < noise.len() ==> noise[i] != START,
    ensures
        run::<Decoder<Variable>>(Seq::empty(), noise) == (Seq::<u8>::empty(), pendings(noise.len())),
    decreases noise.len(),
{
    if noise.len() > 0 {
        lemma_skip_noise(noise.drop_first());
        assert(seq![Outcome::Pending] + pendings((noise.len() - 1) as nat) =~= pendings(noise.len()));
    } else {
        assert(pendings(0) =~= Seq::<Outcome>::empty());
    }
}

/// A frame that follows noise without a start byte is still decoded.
pub proof fn lemma_noise_then_frame(noise: Seq<u8>, v: FrameView)
    requires
        forall|i: int| 0 <= i < noise.len() ==> noise[i] != START,
        variable_roundtrips(v),
    ensures
        run::<Decoder<Variable>>(Seq::empty(), noise + variable_bytes(v)) == (
            Seq::<u8>::empty(),
            pendings((noise.len() + variable_bytes(v).len() - 1) as nat).push(Outcome::Decoded(v)),
        ),
{
    lemma_skip_noise(noise);
    lemma_variable_roundtrip(v);
    lemma_run_concat::<Decoder<Variable>>(Seq::empty(), noise, variable_bytes(v));
    assert(pendings(noise.len()) + pendings((variable_bytes(v).len() - 1) as nat).push(
        Outcome::Decoded(v),
    ) =~= pendings((noise.len() + variable_bytes(v).len() - 1) as nat).push(Outcome::Decoded(v)));
}

/// Two frames sent back to back are both decoded, each at its last byte.
pub proof fn lemma_two_frames(v: FrameView, w: FrameView)
    requires
        variable_roundtrips(v),
        variable_roundtrips(w),
    ensures
        run::<Decoder<Variable>>(Seq::empty(), variable_bytes(v) + variable_bytes(w)) == (
            Seq::<u8>::empty(),
            pendings((variable_bytes(v).len() - 1) as nat).push(Outcome::Decoded(v)) + pendings(
                (variable_bytes(w).len() - 1) as nat,
            ).push(Outcome::Decoded(w)),
        ),
{
    lemma_variable_roundtrip(v);
    lemma_variable_roundtrip(w);
    lemma_run_concat::<Decoder<Variable>>(Seq::empty(), variable_bytes(v), variable_bytes(w));
}

/// The room that the variable-length encoder asks for is the length of what
/// it writes, plus, for a remote frame, the requested data length.
pub proof fn lemma_variable_size(v: FrameView)
    ensures
        variable_size(v) == variable_bytes(v).len() + if v is Remote { v.dlc() } else { 0 },
{
}

/// A frame in the fixed-length format is 20 bytes long, starts with the two
/// header bytes, and ends with the checksum of its bytes from the type byte to
/// the reserved byte, which is zero.
pub proof fn lemma_fixed_shape(v: FrameView)
    requires
        v.valid(),
    ensures
        fixed_bytes(v).len() == 20,
        fixed_bytes(v)[0] == START,
        fixed_bytes(v)[1] == fixed::HEADER2,
        fixed_bytes(v)[18] == 0,
        fixed_bytes(v)[19] == checksum(fixed_bytes(v).subrange(2, 19)),
{
    assert(fixed_bytes(v).subrange(2, 19) =~= crate::parse::encode::fixed_body(v).subrange(2, 19));
}

/// A run of `Pending` outcomes yields nothing.
pub proof fn lemma_events_pendings(n: nat)
    ensures
        events(pendings(n)) == Seq::<Outcome>::empty(),
    decreases n,
{
    if n > 0 {
        assert(pendings(n).drop_first() =~= pendings((n - 1) as nat));
        lemma_events_pendings((n - 1) as nat);
    } else {
        assert(pendings(0) =~= Seq::<Outcome>::empty());
    }
}

/// The pending outcomes of a frame's bytes followed by the frame yield the frame.
proof fn lemma_events_frame(n: nat, v: FrameView)
    ensures
        events(pendings(n).push(Outcome::Decoded(v))) == seq![Outcome::Decoded(v)],
{
    lemma_events_pendings(n);
    assert(pendings(n).push(Outcome::Decoded(v)) =~= pendings(n) + seq![Outcome::Decoded(v)]);
    lemma_events_concat(pendings(n), seq![Outcome::Decoded(v)]);
    assert(seq![Outcome::Decoded(v)].drop_first() =~= Seq::<Outcome>::empty());
    assert(events(seq![Outcome::Decoded(v)].drop_first()) =~= Seq::<Outcome>::empty());
    assert(events(seq![Outcome::Decoded(v)]) =~= seq![Outcome::Decoded(v)]);
}

/// Decoding a frame's variable-length bytes in one go, from an empty decoder,
/// yields that frame and nothing else, and leaves the decoder empty.
pub proof fn lemma_decode_encoded(v: FrameView)
    requires
        variable_roundtrips(v),
    ensures
        run::<Decoder<Variable>>(Seq::empty(), variable_bytes(v)).0 == Seq::<u8>::empty(),
        events(run::<Decoder<Variable>>(Seq::empty(), variable_bytes(v)).1) == seq![
            Outcome::Decoded(v),
        ],
{
    lemma_variable_roundtrip(v);
    lemma_events_frame((variable_bytes(v).len() - 1) as nat, v);
}

/// Decoding two frames' bytes sent back to back yields the two frames, in
/// order, and leaves the decoder empty.
pub proof fn lemma_decode_two_encoded(v: FrameView, w: FrameView)
    requires
        variable_roundtrips(v),
        variable_roundtrips(w),
    ensures
        run::<Decoder<Variable>>(Seq::empty(), variable_bytes(v) + variable_bytes(w)).0
            == Seq::<u8>::empty(),
        events(run::<Decoder<Variable>>(Seq::empty(), variable_bytes(v) + variable_bytes(w)).1)
            == seq![Outcome::Decoded(v), Outcome::Decoded(w)],
{
    lemma_two_frames(v, w);
    let a = pendings((variable_bytes(v).len() - 1) as nat).push(Outcome::Decoded(v));
    let b = pendings((variable_bytes(w).len() - 1) as nat).push(Outcome::Decoded(w));
    lemma_events_concat(a, b);
    lemma_events_frame((variable_bytes(v).len() - 1) as nat, v);
    lemma_events_frame((variable_bytes(w).len() - 1) as nat, w);
    assert(seq![Outcome::Decoded(v)] + seq![Outcome::Decoded(w)] =~= seq![
        Outcome::Decoded(v),
        Outcome::Decoded(w),
    ]);
}

/// What the bytes held by a variable-length decoder look like: at most 20,
/// starting with the start byte, and a type byte with the type marker that
/// announces at most eight data bytes.
pub open spec fn held_wf(h: Seq<u8>) -> bool {
    &&& h.len() <= 20
    &&& h.len() >= 1 ==> h[0] == START
    &&& h.len() >= 2 ==> h[1] & variable::TYPE_MARKER == variable::TYPE_MARKER && h[1]
        & variable::DLC_MASK <= 8
}

/// Every step keeps the held bytes in that shape; an empty decoder starts in it.
pub proof fn lemma_step_keeps_held_wf(h: Seq<u8>, byte: u8)
    requires
        held_wf(h),
    ensures
        held_wf(variable_step(h, byte).0),
{
}

proof fn lemma_type_byte_bits(t: u8)
    by (bit_vector)
    requires
        t & 0xC0u8 == 0xC0u8,
        t & 0x0Fu8 <= 8,
    ensures
        t == (((if t & 0x10u8 != 0 { 0xC0u8 | 0x10u8 } else { 0xC0u8 }) | (if t & 0x20u8 != 0 {
            0x20u8
        } else {
            0u8
        })) | ((t & 0x0Fu8) & 0x0Fu8)),
{
}

proof fn lemma_le_u16_bytes(b0: u8, b1: u8)
    ensures
        le_u16(u16_of_le(b0, b1)) == seq![b0, b1],
{
    assert(((b0 as u16) | ((b1 as u16) << 8u16)) as u8 == b0) by (bit_vector);
    assert(((((b0 as u16) | ((b1 as u16) << 8u16)) >> 8u16) as u8) == b1) by (bit_vector);
    assert(le_u16(u16_of_le(b0, b1)) =~= seq![b0, b1]);
}

proof fn lemma_le_u32_bytes(b0: u8, b1: u8, b2: u8, b3: u8)
    ensures
        le_u32(u32_of_le(b0, b1, b2, b3)) == seq![b0, b1, b2, b3],
{
    let x = u32_of_le(b0, b1, b2, b3);
    assert(((b0 as u32) | ((b1 as u32) << 8u32) | ((b2 as u32) << 16u32) | ((b3 as u32)
        << 24u32)) as u8 == b0) by (bit_vector);
    assert((((b0 as u32) | ((b1 as u32) << 8u32) | ((b2 as u32) << 16u32) | ((b3 as u32)
        << 24u32)) >> 8u32) as u8 == b1) by (bit_vector);
    assert((((b0 as u32) | ((b1 as u32) << 8u32) | ((b2 as u32) << 16u32) | ((b3 as u32)
        << 24u32)) >> 16u32) as u8 == b2) by (bit_vector);
    assert((((b0 as u32) | ((b1 as u32) << 8u32) | ((b2 as u32) << 16u32) | ((b3 as u32)
        << 24u32)) >> 24u32) as u8 == b3) by (bit_vector);
    assert(le_u32(x) =~= seq![b0, b1, b2, b3]);
}

/// A frame that the decoder yields re-encodes to exactly the packet it was
/// decoded from: the collected bytes up to the end byte.
pub proof fn lemma_decoded_reencodes(h: Seq<u8>, byte: u8, v: FrameView)
    requires
        held_wf(h),
        variable_step(h, byte).1 == Outcome::Decoded(v),
    ensures
        variable_bytes(v) == h.push(byte).take(expected_len(h.push(byte)[1]) as int),
{
    let p = h.push(byte);
    let t = p[1];
    let n = expected_len(t) as int;
    assert(p.len() >= 2 ==> t & variable::TYPE_MARKER == variable::TYPE_MARKER && t
        & variable::DLC_MASK <= 8);
    lemma_type_byte_bits(t);
    assert(marker(v) == t);
    let ext = t & variable::EXT_BIT != 0;
    if ext {
        lemma_le_u32_bytes(p[2], p[3], p[4], p[5]);
        assert(id_bytes(v.id()) =~= p.subrange(2, 6));
    } else {
        lemma_le_u16_bytes(p[2], p[3]);
        assert(id_bytes(v.id()) =~= p.subrange(2, 4));
    }
    assert(variable_bytes(v) =~= p.take(n));
}

/// The layout of a frame in the fixed-length format, byte by byte: `AA 55 01`,
/// then 01 for a standard and 02 for an extended identifier, 01 for a data and
/// 02 for a remote frame, the identifier's number in four bytes (least
/// significant first), the data length code, the payload padded with zeros,
/// a zero byte, and the sum modulo 256 of the bytes from the third to the
/// nineteenth.
pub proof fn lemma_fixed_layout(v: FrameView)
    requires
        v.valid(),
    ensures
        fixed_bytes(v).len() == 20,
        fixed_bytes(v)[0] == 0xAA && fixed_bytes(v)[1] == 0x55 && fixed_bytes(v)[2] == 0x01,
        fixed_bytes(v)[3] == (if v.id() is Standard { 0x01u8 } else { 0x02u8 }),
        fixed_bytes(v)[4] == (if v is Data { 0x01u8 } else { 0x02u8 }),
        u32_of_le(fixed_bytes(v)[5], fixed_bytes(v)[6], fixed_bytes(v)[7], fixed_bytes(v)[8])
            == match v.id() {
            IdView::Standard(raw) => raw as u32,
            IdView::Extended(raw) => raw,
        },
        fixed_bytes(v)[9] as nat == v.dlc() % 256,
        forall|i: int| 0 <= i < v.data().len() ==> fixed_bytes(v)[10 + i] == v.data()[i],
        forall|i: int| 10 + v.data().len() <= i < 19 ==> fixed_bytes(v)[i] == 0,
        fixed_bytes(v)[19] as nat == byte_sum(fixed_bytes(v).subrange(2, 19)) % 256,
{
    let b = fixed_bytes(v);
    let raw32: u32 = match v.id() {
        IdView::Standard(raw) => raw as u32,
        IdView::Extended(raw) => raw,
    };
    lemma_le_u32_roundtrip(raw32);
    assert(b.subrange(2, 19) =~= crate::parse::encode::fixed_body(v).subrange(2, 19));
    assert(v.dlc() as u8 == v.dlc() % 256) by {
        assert(v.dlc() <= 255);
    }
}

/// Which errors drop the collected bytes: after `Overflow`, `InvalidDlc` or
/// `MissingEnd` the decoder holds nothing and waits for a start byte; after
/// `InvalidId` or `InvalidFrame` it keeps them; after a frame it holds nothing.
pub proof fn lemma_step_errors(h: Seq<u8>, byte: u8)
    ensures
        variable_step(h, byte).1 matches Outcome::Failed(e) ==> (
        e == DecoderError::Overflow || e == DecoderError::InvalidDlc || e
            == DecoderError::MissingEnd) ==> variable_step(h, byte).0 == Seq::<u8>::empty(),
        variable_step(h, byte).1 matches Outcome::Failed(e) ==> (e == DecoderError::InvalidId || e
            == DecoderError::InvalidFrame) ==> variable_step(h, byte).0 == h.push(byte),
        variable_step(h, byte).1 is Decoded ==> variable_step(h, byte).0 == Seq::<u8>::empty(),
        (variable_step(h, byte).1 == Outcome::Failed(DecoderError::Overflow)) <==> h.len() >= 20,
{
}

/// The bytes of a frame whose end byte is replaced by `e`.
pub open spec fn corrupt_end(v: FrameView, e: u8) -> Seq<u8> {
    variable_bytes(v).drop_last().push(e)
}

proof fn lemma_run_from_corrupt(v: FrameView, e: u8, k: nat)
    requires
        variable_roundtrips(v),
        e != variable::END,
        1 <= k < variable_bytes(v).len(),
    ensures
        run::<Decoder<Variable>>(corrupt_end(v, e).take(k as int), corrupt_end(v, e).skip(k as int))
            == (
            Seq::<u8>::empty(),
            pendings((variable_bytes(v).len() - k - 1) as nat).push(
                Outcome::Failed(DecoderError::MissingEnd),
            ),
        ),
    decreases variable_bytes(v).len() - k,
{
    let b = variable_bytes(v);
    let c = corrupt_end(v, e);
    let n = b.len();
    lemma_variable_bytes_shape(v);
    lemma_marker(v);
    let held = c.take(k as int);
    let p = held.push(c[k as int]);
    assert(c.len() == n);
    assert(held =~= b.take(k as int));
    assert(p =~= c.take(k as int + 1));
    assert(c.skip(k as int)[0] == c[k as int]);
    assert(c.skip(k as int).drop_first() =~= c.skip(k as int + 1));
    assert(p[1] == marker(v));
    if k + 1 == n {
        assert(p =~= c);
        assert(p[n - 1] == e);
        assert(variable_step(held, c[k as int]) == (
            Seq::<u8>::empty(),
            Outcome::Failed(DecoderError::MissingEnd),
        ));
        assert(c.skip(k as int + 1) =~= Seq::<u8>::empty());
        let rest = run::<Decoder<Variable>>(Seq::<u8>::empty(), c.skip(k as int + 1));
        assert(rest == (Seq::<u8>::empty(), Seq::<Outcome>::empty()));
        assert(seq![Outcome::Failed(DecoderError::MissingEnd)] + rest.1 =~= pendings(0).push(
            Outcome::Failed(DecoderError::MissingEnd),
        ));
    } else {
        assert(p =~= b.take(k as int + 1));
        assert(variable_step(held, c[k as int]) == (p, Outcome::Pending));
        lemma_run_from_corrupt(v, e, k + 1);
        assert(run::<Decoder<Variable>>(held, c.skip(k as int)) == (run::<Decoder<Variable>>(
            p,
            c.skip(k as int + 1),
        ).0, seq![Outcome::Pending] + run::<Decoder<Variable>>(p, c.skip(k as int + 1)).1));
        assert(seq![Outcome::Pending] + pendings((n - k - 2) as nat).push(
            Outcome::Failed(DecoderError::MissingEnd),
        ) =~= pendings((n - k - 1) as nat).push(Outcome::Failed(DecoderError::MissingEnd)));
    }
}

/// A packet whose end byte is wrong gives `MissingEnd` and is dropped, so a
/// frame that follows it is still decoded: fed into an empty decoder, the
/// corrupted packet and then a frame's bytes yield exactly `MissingEnd` and
/// the frame, and leave the decoder empty.
pub proof fn lemma_corrupt_then_frame(v: FrameView, e: u8, w: FrameView)
    requires
        variable_roundtrips(v),
        variable_roundtrips(w),
        e != variable::END,
    ensures
        run::<Decoder<Variable>>(Seq::empty(), corrupt_end(v, e) + variable_bytes(w)).0
            == Seq::<u8>::empty(),
        events(run::<Decoder<Variable>>(Seq::empty(), corrupt_end(v, e) + variable_bytes(w)).1)
            == seq![Outcome::Failed(DecoderError::MissingEnd), Outcome::Decoded(w)],
{
    let c = corrupt_end(v, e);
    lemma_variable_bytes_shape(v);
    assert(c[0] == START);
    assert(variable_step(Seq::empty(), c[0]) == (c.take(1), Outcome::Pending)) by {
        assert(seq![START] =~= c.take(1));
    }
    lemma_run_from_corrupt(v, e, 1);
    assert(c.drop_first() =~= c.skip(1));
    let m = Outcome::Failed(DecoderError::MissingEnd);
    let n = variable_bytes(v).len();
    assert(seq![Outcome::Pending] + pendings((n - 2) as nat).push(m) =~= pendings(
        (n - 1) as nat,
    ).push(m));
    // the corrupted packet alone
    assert(run::<Decoder<Variable>>(Seq::empty(), c) == (Seq::<u8>::empty(), pendings(
        (n - 1) as nat,
    ).push(m)));
    lemma_decode_encoded(w);
    lemma_run_concat::<Decoder<Variable>>(Seq::empty(), c, variable_bytes(w));
    lemma_events_concat(pendings((n - 1) as nat).push(m), run::<Decoder<Variable>>(
        Seq::empty(),
        variable_bytes(w),
    ).1);
    lemma_events_pendings((n - 1) as nat);
    assert(pendings((n - 1) as nat).push(m) =~= pendings((n - 1) as nat) + seq![m]);
    lemma_events_concat(pendings((n - 1) as nat), seq![m]);
    assert(seq![m].drop_first() =~= Seq::<Outcome>::empty());
    assert(events(seq![m].drop_first()) =~= Seq::<Outcome>::empty());
    assert(events(seq![m]) =~= seq![m]);
    assert(seq![m] + seq![Outcome::Decoded(w)] =~= seq![m, Outcome::Decoded(w)]);
    assert(Seq::<Outcome>::empty() + seq![m] =~= seq![m]);
}

} // verus!

use usbcan::frame::Frame;
use usbcan::id::{CanId, ExtendedId, StandardId};
use usbcan::mode::{Fixed, Variable};
use usbcan::parse::decode::DecoderError;

#[test]
fn decode_frame_001() {
    let mut decoder = Variable::decoder();
    let buf = [0xAA, 0xE2, 0x21, 0x30, 0x03, 0x01, 0x11, 0x22, 0x55];

    let mut frames = decoder.decode_slice(&buf);
    while let Some(frame) = frames.next() {
        match frame {
            Ok(lhs) => {
                let rhs = Frame::new(CanId::Extended(ExtendedId::new(0x1033021).unwrap()), &[0x11, 0x22]).unwrap();
                assert_eq!(lhs, rhs)
            }
            Err(_) => panic!(),
        }
    }
}

fn push_all(bytes: &[u8]) -> Vec<Result<Option<Frame>, DecoderError>> {
    let mut decoder = Variable::decoder();
    bytes.iter().map(|&b| decoder.push(b)).collect()
}

#[test]
fn decode_standard_data_frame_byte_by_byte() {
    let out = push_all(&[0xAA, 0xC3, 0x23, 0x01, 0x01, 0x02, 0x03, 0x55]);
    for r in &out[..7] {
        assert_eq!(*r, Ok(None));
    }
    let expected = Frame::new(CanId::Standard(StandardId::new(0x123).unwrap()), &[1, 2, 3]).unwrap();
    assert_eq!(out[7], Ok(Some(expected)));
}

#[test]
fn decode_remote_frame() {
    let out = push_all(&[0xAA, 0xD5, 0x45, 0x03, 0x55]);
    let id = CanId::Standard(StandardId::new(0x345).unwrap());
    assert_eq!(out[4], Ok(Some(Frame::new_remote(id, 5).unwrap())));
}

#[test]
fn decode_skips_noise_before_start() {
    let out = push_all(&[0x00, 0x13, 0x55, 0xAA, 0xC0, 0x10, 0x00, 0x55]);
    for r in &out[..7] {
        assert_eq!(*r, Ok(None));
    }
    let expected = Frame::new(CanId::Standard(StandardId::new(0x10).unwrap()), &[]).unwrap();
    assert_eq!(out[7], Ok(Some(expected)));
}

#[test]
fn decode_restarts_on_start_in_type_position() {
    // the second 0xAA is not a type byte, so it begins a new frame
    let out = push_all(&[0xAA, 0xAA, 0xC0, 0x10, 0x00, 0x55]);
    let expected = Frame::new(CanId::Standard(StandardId::new(0x10).unwrap()), &[]).unwrap();
    assert_eq!(out[5], Ok(Some(expected)));
}

#[test]
fn decode_invalid_dlc() {
    let out = push_all(&[0xAA, 0xC9]);
    assert_eq!(out[1], Err(DecoderError::InvalidDlc));
}

#[test]
fn decode_missing_end() {
    let out = push_all(&[0xAA, 0xC0, 0x10, 0x00, 0x56]);
    assert_eq!(out[4], Err(DecoderError::MissingEnd));
}

#[test]
fn decode_invalid_id_then_overflow() {
    let mut decoder = Variable::decoder();
    let mut results = Vec::new();
    for &b in &[0xAA, 0xC0, 0xFF, 0xFF, 0x55] {
        results.push(decoder.push(b));
    }
    assert_eq!(results[4], Err(DecoderError::InvalidId));
    // the bytes stay: every further byte fails the same way until the buffer is full
    for _ in 5..20 {
        assert_eq!(decoder.push(0x00), Err(DecoderError::InvalidId));
    }
    assert_eq!(decoder.push(0x00), Err(DecoderError::Overflow));
    // and the decoder starts over
    assert_eq!(decoder.push(0xAA), Ok(None));
}

#[test]
fn decode_two_frames_in_one_slice() {
    let mut decoder = Variable::decoder();
    let buf = [0xAA, 0xC1, 0x01, 0x00, 0x07, 0x55, 0xAA, 0xD0, 0x02, 0x00, 0x55];
    let mut frames = decoder.decode_slice(&buf);
    let first = frames.next();
    let second = frames.next();
    let third = frames.next();
    let a = Frame::new(CanId::Standard(StandardId::new(1).unwrap()), &[7]).unwrap();
    let b = Frame::new_remote(CanId::Standard(StandardId::new(2).unwrap()), 0).unwrap();
    assert_eq!(first, Some(Ok(a)));
    assert_eq!(second, Some(Ok(b)));
    assert_eq!(third, None);
}

#[test]
fn decode_first_keeps_the_first_result() {
    let mut decoder = Variable::decoder();
    let buf = [0xAA, 0xC9, 0xAA, 0xC1, 0x01, 0x00, 0x07, 0x55];
    assert_eq!(decoder.decode_first(&buf), Some(Err(DecoderError::InvalidDlc)));
    let mut decoder = Variable::decoder();
    assert_eq!(decoder.decode_first(&[0xAA, 0xC1]), None);
    let a = Frame::new(CanId::Standard(StandardId::new(1).unwrap()), &[7]).unwrap();
    assert_eq!(decoder.decode_first(&[0x01, 0x00, 0x07, 0x55]), Some(Ok(a)));
}

#[test]
fn reset_drops_collected_bytes() {
    let mut decoder = Variable::decoder();
    assert_eq!(decoder.push(0xAA), Ok(None));
    assert_eq!(decoder.push(0xC0), Ok(None));
    decoder.reset();
    // without a start byte, the rest of the frame is ignored
    for &b in &[0x10, 0x00, 0x55] {
        assert_eq!(decoder.push(b), Ok(None));
    }
}

#[test]
fn fixed_decoder_yields_nothing() {
    let mut decoder = Fixed::decoder();
    for &b in &[0xAA, 0x55, 0x01, 0x01, 0x01] {
        assert_eq!(decoder.push(b), Ok(None));
    }
}

#[test]
fn decode_all_gives_every_result_and_empties_the_decoder() {
    let mut decoder = Variable::decoder();
    let buf = [0xAA, 0xC1, 0x01, 0x00, 0x07, 0x55, 0xAA, 0xC9, 0xAA, 0xD0, 0x02, 0x00, 0x55];
    let out = decoder.decode_all(&buf);
    let a = Frame::new(CanId::Standard(StandardId::new(1).unwrap()), &[7]).unwrap();
    let b = Frame::new_remote(CanId::Standard(StandardId::new(2).unwrap()), 0).unwrap();
    assert_eq!(out, vec![Ok(a.clone()), Err(DecoderError::InvalidDlc), Ok(b)]);
    // the decoder holds nothing: a frame fed afterwards decodes on its own
    assert_eq!(decoder.decode_all(&[0xAA, 0xC1, 0x01, 0x00, 0x07, 0x55]), vec![Ok(a)]);
}

#[test]
fn splitting_the_input_does_not_change_the_output() {
    let buf = [0x00, 0xAA, 0xC1, 0x01, 0x00, 0x07, 0x55, 0xAA, 0xE0, 0x21, 0x30, 0x03, 0x01, 0x55];
    let mut whole = Variable::decoder();
    let expected = whole.decode_all(&buf);
    for cut in 0..=buf.len() {
        let mut split = Variable::decoder();
        let mut got = split.decode_all(&buf[..cut]);
        got.extend(split.decode_all(&buf[cut..]));
        assert_eq!(got, expected);
    }
    assert_eq!(expected.len(), 2);
}

fn collect_slice(decoder: &mut usbcan::parse::decode::Decoder<usbcan::mode::Variable>, input: &[u8]) -> Vec<Result<Frame, DecoderError>> {
    let mut out = Vec::new();
    let mut frames = decoder.decode_slice(input);
    while let Some(item) = frames.next() {
        out.push(item);
    }
    out
}

#[test]
fn decode_slice_split_does_not_change_the_output() {
    // the last frame is a remote frame with an extended id
    let buf = [0x13, 0xAA, 0xC2, 0x05, 0x00, 0x01, 0x02, 0x55, 0xAA, 0xC9, 0xAA, 0xF0, 0x01, 0x00, 0x00, 0x00, 0x55];
    let mut whole = Variable::decoder();
    let expected = collect_slice(&mut whole, &buf);
    assert_eq!(expected.len(), 3);
    for cut in 0..=buf.len() {
        let mut split = Variable::decoder();
        let mut got = collect_slice(&mut split, &buf[..cut]);
        got.extend(collect_slice(&mut split, &buf[cut..]));
        assert_eq!(got, expected);
        // both decoders end empty: a further frame decodes alike
        let tail = [0xAA, 0xC0, 0x10, 0x00, 0x55];
        let mut fresh = Variable::decoder();
        assert_eq!(collect_slice(&mut split, &tail), collect_slice(&mut fresh, &tail));
    }
}

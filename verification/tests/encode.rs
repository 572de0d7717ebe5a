use usbcan::config::{Baudrate, Config, FrameType, OpMode};
use usbcan::frame::Frame;
use usbcan::id::{CanId, ExtendedId, StandardId};
use usbcan::mode::{Fixed, Variable};
use usbcan::parse::encode::{Encode, EncoderError};
use usbcan::parse::FrameSizeIndicator;

fn std_frame() -> Frame {
    Frame::new(CanId::Standard(StandardId::new(0x123).unwrap()), &[1, 2, 3]).unwrap()
}

fn ext_remote() -> Frame {
    Frame::new_remote(CanId::Extended(ExtendedId::new(0x1ABC_DEF0).unwrap()), 4).unwrap()
}

#[test]
fn fixed_encoding_of_a_data_frame() {
    let mut buf = [0xEEu8; 24];
    let n = Fixed::encoder().encode(&std_frame(), &mut buf).unwrap();
    assert_eq!(n, 20);
    assert_eq!(
        &buf[..20],
        &[
            0xAA, 0x55, 0x01, 0x01, 0x01, 0x23, 0x01, 0x00, 0x00, 0x03, 0x01, 0x02, 0x03, 0x00, 0x00, 0x00,
            0x00, 0x00, 0x00, 0x30
        ]
    );
    assert_eq!(&buf[20..], &[0xEE; 4]);
}

#[test]
fn fixed_encoding_of_a_remote_frame() {
    let mut buf = [0u8; 20];
    Fixed::encoder().encode(&ext_remote(), &mut buf).unwrap();
    let sum = buf[2..19].iter().fold(0u8, |a, &b| a.wrapping_add(b));
    assert_eq!(&buf[..10], &[0xAA, 0x55, 0x01, 0x02, 0x02, 0xF0, 0xDE, 0xBC, 0x1A, 0x04]);
    assert_eq!(buf[19], sum);
}

#[test]
fn fixed_encoding_needs_twenty_bytes() {
    let mut buf = [7u8; 19];
    let r = Fixed::encoder().encode(&std_frame(), &mut buf);
    assert_eq!(r, Err(EncoderError::BufferTooSmall { expected: 20, provided: 19 }));
    assert_eq!(buf, [7u8; 19]);
}

#[test]
fn variable_encoding_of_a_data_frame() {
    let mut buf = [0u8; 20];
    let n = Variable::encoder().encode(&std_frame(), &mut buf).unwrap();
    assert_eq!(&buf[..n], &[0xAA, 0xC3, 0x23, 0x01, 0x01, 0x02, 0x03, 0x55]);
    assert_eq!(n, FrameSizeIndicator::<Variable>::size(&std_frame()));
}

#[test]
fn variable_encoding_of_a_remote_frame() {
    let mut buf = [0u8; 20];
    let n = Variable::encoder().encode(&ext_remote(), &mut buf).unwrap();
    assert_eq!(&buf[..n], &[0xAA, 0xF4, 0xF0, 0xDE, 0xBC, 0x1A, 0x55]);
    assert_eq!(FrameSizeIndicator::<Variable>::size(&ext_remote()), 11);
}

#[test]
fn variable_encoding_buffer_too_small() {
    let mut buf = [0u8; 8];
    let r = Variable::encoder().encode(&ext_remote(), &mut buf);
    assert_eq!(r, Err(EncoderError::BufferTooSmall { expected: 11, provided: 8 }));
}

#[test]
fn variable_roundtrip() {
    let frames = [
        std_frame(),
        ext_remote(),
        Frame::new(CanId::Extended(ExtendedId::new(0x1FFF_FFFF).unwrap()), &[9, 8, 7, 6, 5, 4, 3, 2]).unwrap(),
        Frame::new_remote(CanId::Standard(StandardId::new(0x7FF).unwrap()), 8).unwrap(),
    ];
    for frame in &frames {
        let mut buf = [0u8; 20];
        let n = Variable::encoder().encode(frame, &mut buf).unwrap();
        let mut decoder = Variable::decoder();
        for &b in &buf[..n - 1] {
            assert_eq!(decoder.push(b), Ok(None));
        }
        assert_eq!(decoder.push(buf[n - 1]), Ok(Some(frame.clone())));
    }
}

#[test]
fn fixed_size_is_twenty() {
    assert_eq!(FrameSizeIndicator::<Fixed>::size(&std_frame()), 20);
    assert_eq!(FrameSizeIndicator::<Variable>::size(&std_frame()), 8);
}

#[test]
fn config_command() {
    let config = Config {
        baud: Baudrate::Baud500K,
        frame_type: FrameType::Standard,
        op_mode: OpMode::Normal,
        filter_id: 0,
        filter_mask: 0,
    };
    assert_eq!(
        config.to_command(),
        [
            0xAA, 0x55, 0x12, 0x03, 0x01, 0x00, 0x00, 0x00, 0x00, 0x00, 0x00, 0x00, 0x00, 0x00, 0x01, 0x00,
            0x00, 0x00, 0x00, 0x17
        ]
    );
}

#[test]
fn config_command_with_filter() {
    let config = Config {
        baud: Baudrate::Baud5K,
        frame_type: FrameType::Extended,
        op_mode: OpMode::LoopbackSilent,
        filter_id: 0x1234_5678,
        filter_mask: 0xFF00_00FF,
    };
    let cmd = config.to_command();
    assert_eq!(&cmd[3..15], &[0x0C, 0x02, 0x78, 0x56, 0x34, 0x12, 0xFF, 0x00, 0x00, 0xFF, 0x03, 0x01]);
    let sum = cmd[2..19].iter().fold(0u8, |a, &b| a.wrapping_add(b));
    assert_eq!(cmd[19], sum);
}

#[test]
fn decoded_frame_reencodes_to_its_packet() {
    let packet = [0xAA, 0xE2, 0x21, 0x30, 0x03, 0x01, 0x11, 0x22, 0x55];
    let mut decoder = Variable::decoder();
    let frame = decoder.decode_all(&packet).pop().unwrap().unwrap();
    let mut buf = [0u8; 20];
    let n = Variable::encoder().encode(&frame, &mut buf).unwrap();
    assert_eq!(&buf[..n], &packet);
}

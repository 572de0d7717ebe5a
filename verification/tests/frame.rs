use usbcan::frame::{DataFrame, Frame, NotADataFrame, NotARemoteFrame, RemoteFrame};
use usbcan::id::{CanId, ExtendedId, StandardId};

#[test]
fn standard_id_bounds() {
    assert_eq!(StandardId::new(0x7FF).map(|id| id.as_raw()), Some(0x7FF));
    assert!(StandardId::new(0x800).is_none());
}

#[test]
fn extended_id_bounds() {
    assert_eq!(ExtendedId::new(0x1FFF_FFFF).map(|id| id.as_raw()), Some(0x1FFF_FFFF));
    assert!(ExtendedId::new(0x2000_0000).is_none());
}

#[test]
fn can_id_kinds() {
    let s: CanId = StandardId::new(1).unwrap().into();
    let e: CanId = ExtendedId::new(1).unwrap().into();
    assert!(s.is_standard() && !s.is_extended());
    assert!(e.is_extended() && !e.is_standard());
}

#[test]
fn frame_accessors() {
    let id = CanId::Extended(ExtendedId::new(0x42).unwrap());
    let f = Frame::new(id, &[5, 6]).unwrap();
    assert!(f.is_data_frame() && !f.is_remote_frame());
    assert!(f.is_extended() && !f.is_standard());
    assert_eq!(f.id(), id);
    assert_eq!(f.dlc(), 2);
    assert_eq!(f.data(), &[5, 6]);
    assert!(f.as_data_frame().is_some());
    assert!(f.as_remote_frame().is_none());
    let df = f.as_data_frame().unwrap();
    assert_eq!(df[1], 6);

    let r = Frame::new_remote(id, 3).unwrap();
    assert!(r.is_remote_frame());
    assert_eq!(r.dlc(), 3);
    assert_eq!(r.data(), &[] as &[u8]);
    assert_eq!(r.as_remote_frame(), Some(&RemoteFrame { id, dlc: 3 }));
}

#[test]
fn frame_constructors_refuse_long_payloads() {
    let id = CanId::Standard(StandardId::new(1).unwrap());
    assert!(Frame::new(id, &[0; 9]).is_none());
    assert!(Frame::new(id, &[0; 8]).is_some());
    assert!(Frame::new_remote(id, 9).is_none());
}

#[test]
fn conversions_between_frames() {
    let id = CanId::Standard(StandardId::new(1).unwrap());
    let data = Frame::new(id, &[1]).unwrap();
    let remote = Frame::new_remote(id, 1).unwrap();
    let df = DataFrame::try_from(data.clone()).unwrap();
    assert_eq!(Frame::from(df), data);
    assert_eq!(DataFrame::try_from(remote.clone()), Err(NotADataFrame(remote.clone())));
    let rf = RemoteFrame::try_from(remote.clone()).unwrap();
    assert_eq!(Frame::from(rf), remote);
    assert_eq!(RemoteFrame::try_from(data.clone()), Err(NotARemoteFrame(data.clone())));
    assert_eq!(NotADataFrame(remote).message(), "expected a data frame, got a remote frame");
    assert_eq!(NotARemoteFrame(data).message(), "expected a remote frame, got a data frame");
}

#[test]
fn payload_bytes_can_be_overwritten() {
    let id = CanId::Standard(StandardId::new(1).unwrap());
    let f = Frame::new(id, &[1, 2]).unwrap();
    let mut df = DataFrame::try_from(f).unwrap();
    df.data.set(0, 9);
    assert_eq!(df[0], 9);
    assert_eq!(Frame::from(df), Frame::new(id, &[9, 2]).unwrap());
}

#[test]
fn identifiers_in_hex() {
    assert_eq!(StandardId::new(0x12).unwrap().to_hex(), "012");
    assert_eq!(StandardId::new(0x7FF).unwrap().to_hex(), "7FF");
    assert_eq!(ExtendedId::new(0x1033021).unwrap().to_hex(), "01033021");
    assert_eq!(CanId::Extended(ExtendedId::new(0x1ABC_DEF0).unwrap()).to_hex(), "1ABCDEF0");
    assert_eq!(CanId::Standard(StandardId::new(0xA).unwrap()).to_hex(), "00A");
}

#[test]
fn data_frame_bytes_can_be_overwritten() {
    let id = CanId::Standard(StandardId::new(1).unwrap());
    let mut df = DataFrame::try_from(Frame::new(id, &[1, 2, 3]).unwrap()).unwrap();
    df.set(2, 0x33);
    assert_eq!(df[2], 0x33);
    assert_eq!(Frame::from(df), Frame::new(id, &[1, 2, 0x33]).unwrap());
}

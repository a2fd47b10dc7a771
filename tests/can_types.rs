use isotp_tester::{
    receive_isotp_frame, CANFrame, CANSocket, Error, ExtendedId, FlowControlOptions, Id,
    IsoTpSocket, StandardId,
};

#[test]
fn standard_id_checks_width() {
    assert_eq!(StandardId::new(0x7FF).unwrap().as_raw(), 0x7FF);
    assert!(StandardId::new(0x800).is_none());
    assert_eq!(StandardId::new_unchecked(0x123).as_raw(), 0x123);
}

#[test]
fn extended_id_checks_width() {
    assert_eq!(ExtendedId::new(0x1FFF_FFFF).unwrap().as_raw(), 0x1FFF_FFFF);
    assert!(ExtendedId::new(0x2000_0000).is_none());
    assert_eq!(ExtendedId::new_unchecked(0x18DA_F110).as_raw(), 0x18DA_F110);
}

#[test]
fn id_from_either_form() {
    let s = StandardId::new(0x7E0).unwrap();
    let e = ExtendedId::new(0x18DA_F110).unwrap();
    assert_eq!(Id::from(s), Id::Standard(s));
    assert_eq!(Id::from(e), Id::Extended(e));
    assert_eq!(Id::from(e).as_raw(), 0x18DA_F110);
}

#[test]
fn frame_keeps_payload_and_pads_wire() {
    let f = CANFrame::new(0x123, &[1, 2, 3], false, false).unwrap();
    assert_eq!(f.id(), 0x123);
    assert_eq!(f.data(), vec![1, 2, 3]);
    assert_eq!(f.wire_data(), vec![1, 2, 3, 0, 0, 0, 0, 0]);
}

#[test]
fn frame_refuses_nine_bytes() {
    let r = CANFrame::new(0x123, &[0; 9], false, false);
    assert_eq!(r.unwrap_err(), Error::Framing);
}

#[test]
fn frame_refuses_wide_identifier() {
    let r = CANFrame::new(0x2000_0000, &[0; 2], false, false);
    assert_eq!(r.unwrap_err(), Error::Config);
}

#[test]
fn can_socket_keeps_interface_and_delivers_stand_in_frame() {
    let s = CANSocket::open("can0").unwrap();
    assert_eq!(s.ifname(), "can0");
    let f = s.receive_can_frame().unwrap();
    assert_eq!(f.id(), 0);
    assert_eq!(f.data(), vec![0]);
    assert_eq!(f.wire_data(), vec![0, 1, 2, 3, 4, 5, 6, 7]);
}

#[test]
fn isotp_socket_keeps_addresses() {
    let src = Id::Standard(StandardId::new(0x7E0).unwrap());
    let dest = Id::Standard(StandardId::new(0x7E8).unwrap());
    let s = IsoTpSocket::open("can0", src, dest).unwrap();
    assert_eq!(s.ifname(), "can0");
    assert_eq!(s.src(), src);
    assert_eq!(s.dest(), dest);
    let fc = FlowControlOptions::new(0, 0, 0);
    let mut t = IsoTpSocket::open_with_opts("vcan1", dest, src, None, Some(fc), None).unwrap();
    assert_eq!(t.ifname(), "vcan1");
    assert_eq!(t.src(), dest);
    assert_eq!(receive_isotp_frame(&mut t).unwrap(), vec![1, 2, 3]);
}

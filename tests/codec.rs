use isotp_tester::{reassemble, segment, CANFrame, Error, MAX_PAYLOAD};

fn payload(n: usize) -> Vec<u8> {
    (0..n).map(|i| (i % 251) as u8 + 1).collect()
}

fn wire(frames: &[CANFrame]) -> Vec<Vec<u8>> {
    frames.iter().map(|f| f.wire_data()).collect()
}

#[test]
fn single_frame_of_seven_bytes() {
    let frames = segment(0x7E0, &[1, 2, 3, 4, 5, 6, 7]).unwrap();
    assert_eq!(frames.len(), 1);
    assert_eq!(frames[0].wire_data(), vec![0x07, 1, 2, 3, 4, 5, 6, 7]);
    assert_eq!(frames[0].id(), 0x7E0);
}

#[test]
fn single_frame_is_zero_padded() {
    let frames = segment(0x10, &[0x3E, 0x00]).unwrap();
    assert_eq!(wire(&frames), vec![vec![0x02, 0x3E, 0x00, 0, 0, 0, 0, 0]]);
}

#[test]
fn empty_payload_is_one_single_frame() {
    let frames = segment(0x10, &[]).unwrap();
    assert_eq!(wire(&frames), vec![vec![0u8; 8]]);
}

#[test]
fn eight_bytes_take_first_and_consecutive_frame() {
    let frames = segment(0x7E0, &[1, 2, 3, 4, 5, 6, 7, 8]).unwrap();
    assert_eq!(
        wire(&frames),
        vec![vec![0x10, 0x08, 1, 2, 3, 4, 5, 6], vec![0x21, 7, 8, 0, 0, 0, 0, 0]]
    );
}

#[test]
fn first_frame_carries_twelve_bit_length() {
    let p = payload(0x123);
    let frames = segment(1, &p).unwrap();
    let w = wire(&frames);
    assert_eq!(w[0][0], 0x11);
    assert_eq!(w[0][1], 0x23);
    assert_eq!(frames.len(), 1 + (0x123 - 6 + 6) / 7);
}

#[test]
fn exact_multiple_of_seven_needs_no_extra_frame() {
    let frames = segment(1, &payload(13)).unwrap();
    assert_eq!(frames.len(), 2);
    assert_eq!(frames[1].wire_data()[0], 0x21);
}

#[test]
fn consecutive_index_wraps_after_fifteen() {
    let p = payload(6 + 7 * 20);
    let frames = segment(1, &p).unwrap();
    let indices: Vec<u8> = frames[1..].iter().map(|f| f.wire_data()[0]).collect();
    let expected: Vec<u8> = (1..=20u32).map(|k| 0x20 + (k % 16) as u8).collect();
    assert_eq!(indices, expected);
    assert!(indices.iter().all(|b| b >> 4 == 2 && (b & 0x0F) <= 15));
    assert_eq!(indices[14], 0x2F);
    assert_eq!(indices[15], 0x20);
    assert_eq!(indices[16], 0x21);
}

#[test]
fn every_frame_has_eight_bytes() {
    for n in [0usize, 1, 7, 8, 20, 100, 4095] {
        for f in segment(5, &payload(n)).unwrap() {
            assert_eq!(f.wire_data().len(), 8);
            assert_eq!(f.data(), f.wire_data());
        }
    }
}

#[test]
fn round_trip_all_lengths() {
    for n in 0..=MAX_PAYLOAD {
        let p = payload(n);
        let frames = segment(0x18DA_F110, &p).unwrap();
        assert_eq!(reassemble(&frames).unwrap(), p, "length {}", n);
    }
}

#[test]
fn longest_payload_is_refused() {
    assert_eq!(segment(1, &payload(4096)).unwrap_err(), Error::Framing);
}

#[test]
fn identifier_wider_than_29_bits_is_refused() {
    assert_eq!(segment(0x2000_0000, &[1]).unwrap_err(), Error::Config);
}

#[test]
fn reassemble_rejects_missing_frame() {
    let mut frames = segment(1, &payload(30)).unwrap();
    frames.pop();
    assert_eq!(reassemble(&frames).unwrap_err(), Error::Protocol);
}

#[test]
fn reassemble_rejects_wrong_index() {
    let a = segment(1, &payload(30)).unwrap();
    let b = segment(1, &payload(30)).unwrap();
    let mut frames: Vec<CANFrame> = a.into_iter().take(1).collect();
    let mut rest: Vec<CANFrame> = b.into_iter().skip(1).collect();
    rest.swap(0, 1);
    frames.extend(rest);
    assert_eq!(reassemble(&frames).unwrap_err(), Error::Protocol);
}

#[test]
fn reassemble_rejects_empty_input() {
    assert_eq!(reassemble(&[]).unwrap_err(), Error::Protocol);
}

#[test]
fn reassemble_single_frame() {
    let f = CANFrame::new(1, &[0x03, 0xAA, 0xBB, 0xCC, 0, 0, 0, 0], false, false).unwrap();
    assert_eq!(reassemble(&[f]).unwrap(), vec![0xAA, 0xBB, 0xCC]);
}

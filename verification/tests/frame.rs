use impulse_ring::frame::{Frame, FrameError, FRAME_HEADER};

#[test]
fn frame_roundtrip() {
    let f = Frame::new(0xDEAD_BEEF_CAFE_F00D, vec![1, 2, 3, 4, 5]);
    let bytes = f.encode();
    assert_eq!(bytes.len(), FRAME_HEADER + 5);
    let back = Frame::decode(&bytes).unwrap();
    assert_eq!(f, back);
}

#[test]
fn golden_header_bytes() {
    let f = Frame {
        flags: 0,
        schema_fp: 0x0102_0304_0506_0708,
        body: vec![0xAA],
    };
    let b = f.encode();
    assert_eq!(&b[0..2], &[0x49, 0x52]);
    assert_eq!(b[2], 1);
    assert_eq!(b[3], 0);
    assert_eq!(&b[4..12], &[0x08, 0x07, 0x06, 0x05, 0x04, 0x03, 0x02, 0x01]);
    assert_eq!(&b[12..16], &[1, 0, 0, 0]);
    assert_eq!(b[16], 0xAA);
}

#[test]
fn rejects_bad_magic() {
    let mut b = Frame::new(1, vec![]).encode();
    b[0] = 0xFF;
    assert!(Frame::decode(&b).is_err());
    assert_eq!(Frame::decode(&b).unwrap_err(), FrameError::BadMagic);
}

#[test]
fn every_frame_error_has_an_input() {
    let good = Frame::new(7, vec![1, 2, 3]).encode();
    assert_eq!(Frame::decode(&good[..15]).unwrap_err(), FrameError::TooShort);
    assert_eq!(Frame::decode(&good[..18]).unwrap_err(), FrameError::Truncated);
    let mut newer = good.clone();
    newer[2] = 9;
    assert_eq!(Frame::decode(&newer).unwrap_err(), FrameError::Version(9));
    assert_eq!(FrameError::TooShort.message(), "frame shorter than header");
    assert_eq!(FrameError::BadMagic.message(), "bad frame magic");
    assert_eq!(FrameError::Version(9).message(), "unsupported wire version 9");
    assert_eq!(FrameError::Truncated.message(), "frame body truncated");
}

#[test]
fn bytes_after_a_frame_are_ignored() {
    let f = Frame { flags: 5, schema_fp: 11, body: vec![4, 5] };
    let mut b = f.encode();
    b.push(77);
    assert_eq!(Frame::decode(&b).unwrap(), f);
}

#[test]
fn encoding_what_was_decoded_gives_the_bytes_back() {
    let mut b = Frame { flags: 3, schema_fp: 0xFF00, body: vec![6, 7, 8] }.encode();
    let n = b.len();
    b.extend_from_slice(&[1, 2, 3]);
    assert_eq!(Frame::decode(&b).unwrap().encode(), b[..n].to_vec());
}

use impulse_ring::client::live_broker_epoch;
use impulse_ring::control::{
    attach_control, broker_epoch, broker_pid, check_superblock, clamp_arena_cap,
    control_segment_bytes, format_control, ControlError, ARENA_CAP, CTL_MAGIC, MAX_ARENA_CAP,
    MIN_ARENA_CAP, SUBMISSION_BASE, SUBMISSION_CAP,
};
use impulse_ring::ring::RingError;
use impulse_ring::shm::Segment;

fn image(mem: Vec<u8>) -> Segment {
    Segment::from_image("/impulse-ring.ctl.v1".to_string(), mem)
}

#[test]
fn clamp_arena_cap_defaults_and_bounds() {
    assert_eq!(clamp_arena_cap(0), ARENA_CAP);
    assert_eq!(clamp_arena_cap(1), MIN_ARENA_CAP);
    assert_eq!(clamp_arena_cap(MIN_ARENA_CAP - 1), MIN_ARENA_CAP);
    assert_eq!(clamp_arena_cap(usize::MAX), MAX_ARENA_CAP);
    assert_eq!(clamp_arena_cap(MIN_ARENA_CAP + 1), MIN_ARENA_CAP * 2);
    assert!(clamp_arena_cap(MAX_ARENA_CAP - 1) <= MAX_ARENA_CAP);
    for req in [0, 1, 300 * 1024, 4 * 1024 * 1024, usize::MAX] {
        assert!(clamp_arena_cap(req).is_power_of_two());
    }
}

#[test]
fn a_formatted_control_segment_is_attached_to() {
    let ring = format_control(image(vec![0; control_segment_bytes()]), -7, 0x0102_0304_0506_0708)
        .unwrap_or_else(|_| panic!("too small"));
    let mem = ring.seg.mem.clone();
    assert_eq!(&mem[0..8], b"IMPRING\0");
    assert_eq!(&mem[8..12], &[1, 0, 0, 0]);
    assert_eq!(&mem[16..24], &[8, 7, 6, 5, 4, 3, 2, 1]);
    assert_eq!(broker_pid(&ring.seg), -7);
    assert_eq!(broker_epoch(&ring.seg), 0x0102_0304_0506_0708);
    let back = attach_control(image(mem.clone())).unwrap_or_else(|_| panic!("not attached"));
    assert_eq!((back.base, back.capacity), (SUBMISSION_BASE, SUBMISSION_CAP));
    assert_eq!(live_broker_epoch(image(mem)), Ok(0x0102_0304_0506_0708));
}

#[test]
fn control_segments_that_cannot_be_used() {
    let bytes = control_segment_bytes();
    assert_eq!(live_broker_epoch(image(vec![0; bytes])), Err(ControlError::BadMagic));
    assert_eq!(format_control(image(vec![0; bytes - 1]), 1, 1).err(), Some(RingError::TooSmall));
    let mut seg = image(vec![0; bytes]);
    seg.store_u64(0, CTL_MAGIC);
    seg.store_u32(8, 3);
    assert_eq!(live_broker_epoch(seg), Err(ControlError::Version(3)));
    let mut seg = image(vec![0; bytes]);
    seg.store_u64(0, CTL_MAGIC);
    seg.store_u32(8, 1);
    assert_eq!(live_broker_epoch(seg), Err(ControlError::Ring(RingError::BadMagic)));
    assert_eq!(check_superblock(CTL_MAGIC, 1), Ok(()));
    assert_eq!(
        ControlError::BadMagic.message(),
        "control magic mismatch (broker not running?)"
    );
    assert_eq!(ControlError::Version(3).message(), "control version 3 unsupported");
}

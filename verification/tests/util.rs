use impulse_ring::bench;
use impulse_ring::shm::{
    answered, check_name, list_segments, next_call, pid_alive, unlink, Call, Failure, Mode, Reply,
    ShmError, Stage, ENOENT, EPERM, SEGMENT_MODE,
};
use impulse_ring::text;
use impulse_ring::util::{
    channel_arena, client_segment, function_arena, key_hash, key_matches, number_drawn, random_u64,
    u64_of_bytes,
};

#[test]
fn segment_names() {
    assert_eq!(client_segment(u64::MAX), "/impulse-ring.cli.18446744073709551615.v1");
    assert_eq!(channel_arena(1), "/impulse-ring.arena.1.v1");
    assert_eq!(function_arena(0), "/impulse-ring.fn.0.v1");
}

#[test]
fn keys_are_hashed_with_a_salt() {
    // SHA-256 of "impulse-ring/key/v1:" followed by the key.
    let hash = key_hash("secret");
    assert_ne!(&hash[..], b"secret");
    assert!(key_matches("secret", &hash));
    assert!(!key_matches("Secret", &hash));
    let mut other = hash;
    other[31] ^= 1;
    assert!(!key_matches("secret", &other));
    let hex: String = hash.iter().map(|b| format!("{b:02x}")).collect();
    assert_eq!(hex, "d53350c1dde9fdc7478e5eb1ca3c835daea59180f1a1086921375266ad40373c");
}

#[test]
fn random_numbers_differ() {
    let a = random_u64().unwrap();
    let b = random_u64().unwrap();
    let c = random_u64().unwrap();
    assert!(a != b || b != c);
    assert_eq!(u64_of_bytes(&vec![1, 2, 0, 0, 0, 0, 0, 0x80]), 0x8000_0000_0000_0201);
}

#[test]
fn a_failed_draw_gives_no_number() {
    assert_eq!(number_drawn(Ok(vec![7, 1, 0, 0, 0, 0, 0, 0])), Some(0x107));
    assert_eq!(number_drawn(Err(getrandom::Error::UNSUPPORTED)), None);
}

#[test]
fn names_of_segments_are_checked() {
    assert_eq!(check_name("/impulse-ring.ctl.v1"), Ok(()));
    assert_eq!(check_name("a\0b"), Err(ShmError::NulInName));
    assert_eq!(ShmError::NulInName.message(), "nul in shm name");
    assert_eq!(ShmError::ZeroSize.message(), "segment has zero size");
}

/// Maps a segment with the system's answers, and gives what it was asked for.
fn mapped(mode: Mode, replies: &[Reply]) -> (Vec<Call>, Stage) {
    let mut calls = Vec::new();
    let mut stage = Stage::Opening;
    let mut answers = replies.iter();
    while let Some(call) = next_call(mode, stage) {
        calls.push(call);
        stage = answered(mode, stage, *answers.next().unwrap());
    }
    assert!(answers.next().is_none());
    (calls, stage)
}

#[test]
fn mapping_a_segment() {
    let ok = Reply::Done { value: 0 };
    let (calls, end) = mapped(Mode::Create { size: 300 }, &[ok, ok, ok, ok, ok]);
    assert_eq!(
        calls,
        vec![
            Call::ShmOpen { create: true },
            Call::Fchmod { mode: SEGMENT_MODE },
            Call::Ftruncate { size: 300 },
            Call::Mmap { size: 300 },
            Call::Close,
        ]
    );
    assert_eq!(end, Stage::Mapped { size: 300 });
    let (calls, end) = mapped(Mode::Open, &[ok, Reply::Done { value: 77 }, ok, ok]);
    assert_eq!(
        calls,
        vec![
            Call::ShmOpen { create: false },
            Call::Fstat,
            Call::Mmap { size: 77 },
            Call::Close,
        ]
    );
    assert_eq!(end, Stage::Mapped { size: 77 });
}

#[test]
fn segments_that_cannot_be_mapped() {
    let ok = Reply::Done { value: 0 };
    let bad = Reply::Error { errno: 13 };
    let denied = Stage::Failed { failure: Failure::Os { errno: 13 } };
    assert_eq!(mapped(Mode::Open, &[bad]), (vec![Call::ShmOpen { create: false }], denied));
    let (calls, end) = mapped(Mode::Create { size: 8 }, &[ok, ok, bad, ok]);
    assert_eq!(calls.last(), Some(&Call::Close));
    assert_eq!(end, denied);
    assert_eq!(mapped(Mode::Open, &[ok, Reply::Done { value: 9 }, bad, bad]).1, denied);
    assert_eq!(
        mapped(Mode::Open, &[ok, ok, ok]).1,
        Stage::Failed { failure: Failure::Shm(ShmError::ZeroSize) }
    );
}

#[test]
fn what_the_system_says() {
    assert_eq!(unlink(0, 0), Ok(()));
    assert_eq!(unlink(-1, ENOENT), Ok(()));
    assert_eq!(unlink(-1, 13), Err(13));
    assert!(pid_alive(5, 0, 0));
    assert!(pid_alive(5, -1, EPERM));
    assert!(!pid_alive(5, -1, 3));
    assert!(!pid_alive(0, 0, 0));
    assert!(!pid_alive(-4, 0, 0));
    let files: Vec<String> = ["impulse-ring.ctl.v1", "sem.x", "impulse-ring.", "ximpulse-ring.a"]
        .iter()
        .map(|s| s.to_string())
        .collect();
    assert_eq!(
        list_segments(&files),
        vec!["/impulse-ring.ctl.v1".to_string(), "/impulse-ring.".to_string()]
    );
}

#[test]
fn numbers_as_text() {
    assert_eq!(text::decimal_string(0), "0");
    assert_eq!(text::decimal_string(u64::MAX), "18446744073709551615");
    assert_eq!(text::hex_string(0xBEEF), "beef");
    assert_eq!(text::hex_fixed_string(0xAB, 16), "00000000000000ab");
    assert_eq!(text::signed_string(i32::MIN), "-2147483648");
    assert_eq!(text::signed_string(7), "7");
    assert!(text::contains("a submission ring full b", "submission ring full"));
    assert!(!text::contains("submission ring ful", "submission ring full"));
    assert!(text::starts_with("abc", "ab"));
}

#[test]
fn relay_in_a_circle() {
    assert_eq!(bench::predecessor(0, 3), 2);
    assert_eq!(bench::predecessor(2, 3), 1);
    assert_eq!(bench::predecessor(0, 1), 0);
    assert_eq!(bench::node_name(12), "bench-12");
    let up: Vec<String> = vec!["bench-1".to_string(), "x".to_string(), "bench-0".to_string()];
    assert!(bench::all_up(&up, 2));
    assert!(!bench::all_up(&up, 3));
    assert!(bench::has_name(&up, "x"));
    let mut lap = 0;
    let mut rounds = 0;
    loop {
        rounds += 1;
        match bench::on_token(lap, 5) {
            bench::Lap::Relay { lap: next } => lap = next,
            bench::Lap::Stop { lap: last } => {
                assert_eq!(last, 5);
                break;
            }
        }
    }
    assert_eq!(rounds, 5);
    assert_eq!(bench::per_lap(1000, 10, 3), (100, 33));
    assert!(impulse_ring::avro::parse(bench::SCHEMA).is_ok());
}

//! Parsing, decoding and building frames.

use env_args::frame::{parse_frame, Fatal};
use env_args::mem::StackImage;
use env_args::synth::build_frame;
use env_args::utf8::validate_utf8;

fn v(s: &str) -> Vec<u8> {
    s.as_bytes().to_vec()
}

fn words(ws: &[u64]) -> Vec<u8> {
    let mut b: Vec<u8> = Vec::new();
    for w in ws {
        b.extend_from_slice(&w.to_le_bytes());
    }
    b
}

#[test]
fn word_read_little_endian() {
    let img = StackImage { base: 0x100, bytes: words(&[0x0123_4567_89ab_cdef]) };
    assert_eq!(img.read_word(0x100), Some(0x0123_4567_89ab_cdef));
    assert_eq!(img.read_word(0x101), None);
    assert_eq!(img.read_word(0xff), None);
}

#[test]
fn cstr_scan_stops_at_terminator() {
    let img = StackImage { base: 0, bytes: b"hi\0rest\0".to_vec() };
    assert_eq!(img.read_cstr(0), Some(b"hi".to_vec()));
    assert_eq!(img.read_cstr(3), Some(b"rest".to_vec()));
}

#[test]
fn cstr_scan_without_terminator_fails() {
    let img = StackImage { base: 0, bytes: b"abc".to_vec() };
    assert_eq!(img.read_cstr(0), None);
    assert_eq!(img.read_cstr(9), None);
}

#[test]
fn utf8_accepts_ascii_and_multibyte() {
    assert!(validate_utf8(&v("plain ascii")));
    assert!(validate_utf8(&v("caf\u{e9} \u{4e16}\u{754c} \u{1f600}")));
    assert!(validate_utf8(&Vec::new()));
}

#[test]
fn utf8_rejects_lone_continuation() {
    assert!(!validate_utf8(&vec![0x80]));
    assert!(!validate_utf8(&vec![b'a', 0xbf, b'b']));
}

#[test]
fn utf8_rejects_overlong_and_surrogates() {
    // Overlong two-byte form of '/'.
    assert!(!validate_utf8(&vec![0xc0, 0xaf]));
    // Truncated three-byte sequence.
    assert!(!validate_utf8(&vec![0xe2, 0x82]));
    // Surrogate U+D800.
    assert!(!validate_utf8(&vec![0xed, 0xa0, 0x80]));
    // Above U+10FFFF.
    assert!(!validate_utf8(&vec![0xf4, 0x90, 0x80, 0x80]));
}

#[test]
fn round_trip_reproduces_strings() {
    let args = vec![v("alpha"), v("beta"), v("")];
    let envs = vec![v("X=1"), v("Y=two")];
    let img = build_frame(&args, &envs, 0x5000).expect("frame fits");
    let parsed = parse_frame(&img, 0x5000);
    assert!(parsed.fatal.is_none());
    let arg_texts: Vec<Vec<u8>> = parsed.args.iter().map(|a| a.text.clone()).collect();
    let env_texts: Vec<Vec<u8>> = parsed.envs.iter().map(|e| e.text.clone()).collect();
    assert_eq!(arg_texts, args);
    assert_eq!(env_texts, envs);
}

#[test]
fn zero_args_and_immediate_env_terminator() {
    let img = build_frame(&Vec::new(), &Vec::new(), 0x2000).expect("frame fits");
    let parsed = parse_frame(&img, 0x2000);
    assert!(parsed.fatal.is_none());
    assert_eq!(parsed.args.len(), 0);
    assert_eq!(parsed.envs.len(), 0);
}

#[test]
fn argument_count_and_order_follow_the_count_word() {
    let args = vec![v("one"), v("two"), v("three")];
    let envs = vec![v("A=a"), v("B=b")];
    let img = build_frame(&args, &envs, 0x9000).expect("frame fits");
    let parsed = parse_frame(&img, 0x9000);
    assert!(parsed.fatal.is_none());
    assert_eq!(parsed.args.len(), 3);
    assert_eq!(parsed.envs.len(), 2);
    assert_eq!(parsed.args[0].text, v("one"));
    assert_eq!(parsed.args[1].text, v("two"));
    assert_eq!(parsed.args[2].text, v("three"));
    assert_eq!(parsed.envs[0].text, v("A=a"));
    assert_eq!(parsed.envs[1].text, v("B=b"));
}

#[test]
fn environment_walk_stops_at_first_nul_slot() {
    // argc = 0; env slots: one entry, the terminator, then a stray extra
    // pointer past it that must never become an entry.
    let mut b = words(&[0, 0, 48, 0, 56]);
    assert_eq!(b.len(), 40);
    b.extend_from_slice(b"padding!"); // bytes 40..48, never reached
    b.extend_from_slice(b"E=1\0");   // byte 48
    b.extend_from_slice(b"ghost\0"); // byte 56, behind the terminator
    let img = StackImage { base: 0, bytes: b };
    let parsed = parse_frame(&img, 0);
    assert!(parsed.fatal.is_none());
    assert_eq!(parsed.args.len(), 0);
    assert_eq!(parsed.envs.len(), 1);
    assert_eq!(parsed.envs[0].text, v("E=1"));
}

#[test]
fn corrupt_count_word_is_a_layout_fatal() {
    // argc claims 1000 arguments and the first pointer leaves the region.
    let img = StackImage { base: 0, bytes: words(&[1000, 999_999, 999_999]) };
    let parsed = parse_frame(&img, 0);
    assert_eq!(parsed.fatal, Some(Fatal::FrameLayout));
    assert_eq!(parsed.envs.len(), 0);
}

#[test]
fn unterminated_argument_is_a_layout_fatal() {
    // One argument whose string runs to the end of the region with no NUL.
    let mut b = words(&[1, 32, 0, 0]);
    b.extend_from_slice(b"xx");
    let img = StackImage { base: 0, bytes: b };
    let parsed = parse_frame(&img, 0);
    assert_eq!(parsed.fatal, Some(Fatal::FrameLayout));
    assert_eq!(parsed.args.len(), 0);
}

#[test]
fn builder_refuses_a_frame_past_the_address_horizon() {
    assert!(build_frame(&Vec::new(), &Vec::new(), u64::MAX).is_none());
}

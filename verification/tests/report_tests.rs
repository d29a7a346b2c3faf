//! The rendered report and the emission state machine.

use env_args::frame::Fatal;
use env_args::mem::StackImage;
use env_args::report::{Outcome, Reporter};
use env_args::synth::build_frame;

fn v(s: &str) -> Vec<u8> {
    s.as_bytes().to_vec()
}

fn words(ws: &[u64]) -> Vec<u8> {
    let mut b: Vec<u8> = Vec::new();
    for w in ws {
        b.extend_from_slice(&w.to_le_bytes());
    }
    b
}

/// Drive the reporter as a loyal writer would, every write succeeding.
fn emit_all(r: &mut Reporter) -> Vec<String> {
    let mut out: Vec<String> = Vec::new();
    loop {
        let line = match r.next_line() {
            Some(l) => l.clone(),
            None => break,
        };
        out.push(String::from_utf8(line).expect("report lines are UTF-8"));
        r.record_write(true);
    }
    out
}

#[test]
fn scenario_two_args_one_env() {
    let base: u64 = 0x1000;
    let args = vec![v("prog"), v("--flag")];
    let envs = vec![v("PATH=/bin")];
    let img = build_frame(&args, &envs, base).expect("frame fits");
    let mut rep = Reporter::new(&img, base);
    let lines = emit_all(&mut rep);
    // Table: count word, two pointers, sentinel, one pointer, terminator:
    // 48 bytes; "prog" starts at 0x1030, "--flag" at 0x1035, the
    // environment string at 0x103c.
    assert_eq!(
        lines,
        vec![
            "sp: 0x1000\n".to_string(),
            "argv=0x1008/arg=0x1030: prog\n".to_string(),
            "argv=0x1010/arg=0x1035: --flag\n".to_string(),
            "0x1020: PATH=/bin\n".to_string(),
        ]
    );
    assert_eq!(rep.outcome(), Outcome::Finished);
}

#[test]
fn empty_frame_reports_only_the_sp_line() {
    let img = build_frame(&Vec::new(), &Vec::new(), 0).expect("frame fits");
    let mut rep = Reporter::new(&img, 0);
    let lines = emit_all(&mut rep);
    assert_eq!(lines, vec!["sp: 0x0\n".to_string()]);
    assert_eq!(rep.outcome(), Outcome::Finished);
}

#[test]
fn pointer_text_uses_lower_case_hex() {
    let base: u64 = 0xabcdef0;
    let img = build_frame(&Vec::new(), &Vec::new(), base).expect("frame fits");
    let mut rep = Reporter::new(&img, base);
    let lines = emit_all(&mut rep);
    assert_eq!(lines, vec![format!("sp: {:#x}\n", base)]);
}

#[test]
fn invalid_argument_halts_after_the_lines_before_it() {
    // Two arguments: "ok", then a lone continuation byte.
    let mut b = words(&[2, 40, 43, 0, 0]);
    b.extend_from_slice(b"ok\0");
    b.extend_from_slice(&[0x80, 0]);
    let img = StackImage { base: 0, bytes: b };
    let mut rep = Reporter::new(&img, 0);
    let lines = emit_all(&mut rep);
    assert_eq!(
        lines,
        vec!["sp: 0x0\n".to_string(), "argv=0x8/arg=0x28: ok\n".to_string()]
    );
    assert_eq!(rep.outcome(), Outcome::HaltedFatal(Fatal::Decode));
}

#[test]
fn write_failure_halts_at_once_with_no_retry() {
    let base: u64 = 0x4000;
    let args = vec![v("a"), v("b")];
    let img = build_frame(&args, &Vec::new(), base).expect("frame fits");
    let mut rep = Reporter::new(&img, base);
    // The very first write fails: nothing is offered again.
    assert!(rep.next_line().is_some());
    rep.record_write(false);
    assert!(rep.next_line().is_none());
    assert_eq!(rep.outcome(), Outcome::HaltedSyscall);
}

#[test]
fn write_failure_mid_stream_stops_the_report_there() {
    let base: u64 = 0x4000;
    let args = vec![v("a"), v("b")];
    let img = build_frame(&args, &Vec::new(), base).expect("frame fits");
    let mut rep = Reporter::new(&img, base);
    let first = rep.next_line().expect("sp line pending").clone();
    assert_eq!(first, v("sp: 0x4000\n"));
    rep.record_write(true);
    assert!(rep.next_line().is_some());
    rep.record_write(false);
    assert!(rep.next_line().is_none());
    assert_eq!(rep.outcome(), Outcome::HaltedSyscall);
}

#[test]
fn lines_come_strictly_in_order_one_per_write() {
    let base: u64 = 0x8000;
    let args = vec![v("x")];
    let envs = vec![v("K=v")];
    let img = build_frame(&args, &envs, base).expect("frame fits");
    let mut rep = Reporter::new(&img, base);
    let mut seen: Vec<Vec<u8>> = Vec::new();
    while let Some(l) = rep.next_line() {
        seen.push(l.clone());
        rep.record_write(true);
    }
    assert_eq!(seen.len(), 3);
    assert!(seen[0].starts_with(b"sp: "));
    assert!(seen[1].starts_with(b"argv="));
    assert!(seen[1].ends_with(b": x\n"));
    assert!(seen[2].ends_with(b": K=v\n"));
    assert_eq!(rep.outcome(), Outcome::Finished);
}

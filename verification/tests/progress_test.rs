//! Progress-stream interpretation, driven line by line.

use magic_converter::frac::Frac;
use magic_converter::progress::ProgressTracker;
use magic_converter::FileConversion;

fn b(s: &str) -> Vec<u8> {
    s.as_bytes().to_vec()
}

fn frac(num: u64, den: u64) -> Frac {
    Frac { num, den }
}

/// With the default total of 1000, a frame counter maps to frame/1000.
#[test]
fn frame_with_default_total() {
    let mut t = ProgressTracker::new();
    let r = t.feed_line(&b("frame=250"));
    let f = r.expect("a frame line delivers");
    assert!(f.eq_value(&frac(1, 4)));
}

/// A total_frames line updates the estimate used afterwards.
#[test]
fn total_frames_updates_estimate() {
    let mut t = ProgressTracker::new();
    assert!(t.feed_line(&b("total_frames=200")).is_none());
    let f = t.feed_line(&b("frame=50")).expect("a frame line delivers");
    assert!(f.eq_value(&frac(1, 4)));
}

/// A counter at or past the estimate is capped strictly below one: the
/// stream alone never reports completion.
#[test]
fn fraction_capped_below_one() {
    let mut t = ProgressTracker::new();
    assert!(t.feed_line(&b("total_frames=100")).is_none());
    let f = t.feed_line(&b("frame=500")).expect("a frame line delivers");
    assert!(f.eq_value(&frac(99, 100)));
    assert!(!f.eq_value(&frac(1, 1)));
}

/// Deliveries never fall below the last delivered value, even when the
/// total estimate is revised downward mid-run.
#[test]
fn monotone_despite_revised_total() {
    let mut t = ProgressTracker::new();
    let first = t.feed_line(&b("frame=800")).expect("delivers");
    assert!(first.eq_value(&frac(4, 5)));
    assert!(t.feed_line(&b("total_frames=100000")).is_none());
    let second = t.feed_line(&b("frame=900")).expect("delivers");
    // 900/100000 is far below 800/1000: the last value is delivered again.
    assert!(second.eq_value(&frac(4, 5)));
    assert!(first.le(&second));
}

/// Values after the key are trimmed; malformed values are ignored.
#[test]
fn malformed_values_ignored() {
    let mut t = ProgressTracker::new();
    assert!(t.feed_line(&b("frame=")).is_none());
    assert!(t.feed_line(&b("frame=abc")).is_none());
    assert!(t.feed_line(&b("frame=12x")).is_none());
    assert!(t.feed_line(&b("frame=99999999999999999999")).is_none());
    assert!(t.feed_line(&b("total_frames=nope")).is_none());
    let f = t.feed_line(&b("frame= 500 ")).expect("trimmed value parses");
    assert!(f.eq_value(&frac(1, 2)));
}

/// Other keys of the progress stream are ignored.
#[test]
fn other_lines_ignored() {
    let mut t = ProgressTracker::new();
    assert!(t.feed_line(&b("fps=25.0")).is_none());
    assert!(t.feed_line(&b("bitrate=1000k")).is_none());
    assert!(t.feed_line(&b("progress=continue")).is_none());
    assert!(t.feed_line(&b("")).is_none());
}

/// A stream that closes before any frame line: no intermediate delivery,
/// and on success exactly one final one.
#[test]
fn empty_stream_single_final_one() {
    let conv = FileConversion::new();
    let (outcome, last) = conv.on_exit(true, Some(0));
    assert!(outcome.is_ok());
    let f = last.expect("success owes the final delivery");
    assert!(f.eq_value(&frac(1, 1)));
}

/// One is reported exactly once: every mid-stream delivery stays below
/// it, and only the successful completion delivers it.
#[test]
fn final_one_reported_exactly_once() {
    let mut conv = FileConversion::new();
    assert!(conv.on_line(&b("total_frames=10")).is_none());
    let f = conv.on_line(&b("frame=10")).expect("delivers");
    assert!(f.eq_value(&frac(9, 10)), "a maxed counter stays below one");
    let (outcome, last) = conv.on_exit(true, Some(0));
    assert!(outcome.is_ok());
    let g = last.expect("completion delivers the one");
    assert!(g.eq_value(&frac(1, 1)), "one is reported exactly once, at completion");
}

/// A failing conversion never reports one, whatever the stream said.
#[test]
fn failing_run_never_reports_one() {
    let mut conv = FileConversion::new();
    let mut seen = Vec::new();
    for line in ["frame=2000", "total_frames=10", "frame=50"].iter() {
        if let Some(f) = conv.on_line(&b(line)) {
            seen.push(f);
        }
    }
    let (outcome, last) = conv.on_exit(false, Some(1));
    assert!(outcome.is_err());
    assert!(last.is_none(), "a failure delivers nothing at exit");
    assert!(!seen.is_empty());
    for f in &seen {
        assert!(!f.eq_value(&frac(1, 1)), "the sink never observes one on a failure");
    }
}

/// A successful run delivers a non-decreasing ramp ending in one.
#[test]
fn successful_run_is_monotone() {
    let mut conv = FileConversion::new();
    let lines = [
        "total_frames=400",
        "frame=100",
        "fps=30",
        "frame=200",
        "frame=300",
        "frame=400",
    ];
    let mut seen: Vec<Frac> = Vec::new();
    for line in lines.iter() {
        if let Some(f) = conv.on_line(&b(line)) {
            seen.push(f);
        }
    }
    let (outcome, last) = conv.on_exit(true, None);
    assert!(outcome.is_ok());
    if let Some(f) = last {
        seen.push(f);
    }
    assert_eq!(seen.len(), 5);
    for w in seen.windows(2) {
        assert!(w[0].le(&w[1]), "deliveries must not decrease");
    }
    assert!(seen[0].eq_value(&frac(1, 4)));
    assert!(seen[3].eq_value(&frac(399, 400)), "the last frame is capped below one");
    assert!(seen.last().unwrap().eq_value(&frac(1, 1)));
    for f in &seen[..seen.len() - 1] {
        assert!(!f.eq_value(&frac(1, 1)), "one comes only at completion");
    }
}

/// A conversion whose input holds no valid stream: the tool exits with a
/// failure, which the driver surfaces.
#[test]
fn test_actual_conversion() {
    // The dummy bytes handed to the external tool are not a valid MTS
    // stream; the tool writes no progress and exits non-zero.
    let conv = FileConversion::new();
    let (outcome, last) = conv.on_exit(false, Some(1));
    assert!(outcome.is_err(), "Should fail with invalid MTS content");
    assert!(last.is_none());
}

/// A spawn failure maps to the tool being unavailable.
#[test]
fn spawn_failure_maps_to_tool_unavailable() {
    let conv = FileConversion::new();
    assert_eq!(
        conv.on_spawn_failure(),
        magic_converter::ConvertError::ToolUnavailable
    );
}

/// After a stream error nothing more is forwarded, but the exit status
/// still decides the outcome.
#[test]
fn stream_error_stops_forwarding() {
    let mut conv = FileConversion::new();
    assert!(conv.on_line(&b("frame=100")).is_some());
    conv.on_stream_error();
    assert!(conv.on_line(&b("frame=900")).is_none());
    let (outcome, _) = conv.on_exit(true, Some(0));
    assert!(outcome.is_ok());
}

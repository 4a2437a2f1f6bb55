//! Directory sweeps: selection and overall progress.

use magic_converter::frac::Frac;
use magic_converter::sweep::{select_mts_names, SweepProgress};
use magic_converter::{ConvertError, ConverterService};

fn b(s: &str) -> Vec<u8> {
    s.as_bytes().to_vec()
}

fn frac(num: u64, den: u64) -> Frac {
    Frac { num, den }
}

/// An empty directory selects nothing, so the sweep succeeds at once and
/// the sink is never invoked.
#[test]
fn test_empty_directory() {
    let names: Vec<Vec<u8>> = Vec::new();
    let selected = select_mts_names(&names);
    assert!(selected.is_empty(), "Should handle empty directory gracefully");
    assert!(selected.len() == 0);
}

/// A directory of only other file kinds selects nothing.
#[test]
fn test_no_mts_files() {
    let names = vec![b("test1.txt"), b("test2.mp4"), b("test3.avi")];
    let selected = select_mts_names(&names);
    assert!(selected.is_empty(), "Should handle directory with no MTS files");
    assert!(selected.len() == 0);
}

/// Selection is case-insensitive on the extension and keeps the
/// listing's order.
#[test]
fn selection_keeps_matching_names_in_order() {
    let names = vec![
        b("a.MTS"),
        b("skip.txt"),
        b("b.mts"),
        b("also.mp4"),
        b("c.Mts"),
    ];
    let selected = select_mts_names(&names);
    assert_eq!(selected, vec![b("a.MTS"), b("b.mts"), b("c.Mts")]);
}

/// Three files converting in turn drive the sink monotonically through
/// one third, two thirds, and exactly one.
#[test]
fn three_files_reach_thirds_and_one() {
    let mut sweep = SweepProgress::new(3);
    let mut seen: Vec<Frac> = Vec::new();
    let boundaries = [frac(1, 3), frac(2, 3), frac(1, 1)];
    for boundary in boundaries.iter() {
        if let Some(f) = sweep.on_line(&b("frame=500")) {
            seen.push(f);
        }
        let (outcome, last) = sweep.on_file_exit(true, Some(0));
        assert!(outcome.is_ok());
        let f = last.expect("each file's completion is delivered");
        assert!(f.eq_value(boundary));
        seen.push(f);
    }
    for w in seen.windows(2) {
        assert!(w[0].le(&w[1]), "overall progress must not decrease");
    }
    assert!(seen.last().unwrap().eq_value(&frac(1, 1)));
}

/// During the first of two files every delivery stays within the first
/// half; a failure then aborts the sweep below one half.
#[test]
fn failure_keeps_progress_in_band() {
    let mut sweep = SweepProgress::new(2);
    let half = frac(1, 2);
    assert!(sweep.on_line(&b("total_frames=100")).is_none());
    for line in ["frame=25", "frame=50", "frame=75"].iter() {
        let f = sweep.on_line(&b(line)).expect("frame lines deliver");
        assert!(f.le(&half), "first file's progress stays within [0, 1/2]");
    }
    let (outcome, last) = sweep.on_file_exit(false, Some(1));
    assert!(last.is_none(), "a failed file delivers nothing more");
    match outcome {
        Err(ConvertError::ToolFailed { exit_code }) => assert_eq!(exit_code, Some(1)),
        _ => panic!("a non-zero exit maps to the tool's failure"),
    }
}

/// Two files where the first succeeds and the second fails: the sink
/// reaches one half and is never driven to one.
#[test]
fn second_file_failure_stops_below_one() {
    let mut sweep = SweepProgress::new(2);
    let (outcome, last) = sweep.on_file_exit(true, Some(0));
    assert!(outcome.is_ok());
    let f = last.expect("the first completion is delivered");
    assert!(f.eq_value(&frac(1, 2)));
    let g = sweep.on_line(&b("frame=400")).expect("the second file delivers");
    assert!(f.le(&g));
    assert!(g.le(&frac(1, 1)));
    assert!(!g.eq_value(&frac(1, 1)), "the sink is not driven to one");
    let (outcome2, last2) = sweep.on_file_exit(false, None);
    assert!(outcome2.is_err());
    assert!(last2.is_none());
}

/// The facade selects files exactly as the sweeper does.
#[test]
fn service_selects_files() {
    let service = ConverterService::new();
    let names = vec![b("x.Mts"), b("y.txt")];
    let selected = service.select_files(&names);
    assert_eq!(selected, vec![b("x.Mts")]);
}

//! The command-line surface.

use magic_converter::{Cli, Commands, ConvertError, FileConversion};

fn b(s: &str) -> Vec<u8> {
    s.as_bytes().to_vec()
}

fn args(words: &[&str]) -> Vec<Vec<u8>> {
    words.iter().map(|w| b(w)).collect()
}

/// `convert --input <path>` parses to the single-file command.
#[test]
fn parse_convert_with_input() {
    let cli = Cli::parse_args(&args(&["convert", "--input", "clip.mts"]))
        .expect("a well-formed command line parses");
    match cli.command {
        Commands::Convert { input, output } => {
            assert_eq!(input, b("clip.mts"));
            assert!(output.is_none());
        },
        _ => panic!("expected the single-file command"),
    }
}

/// `convert-dir` with both flags, in either order, long or short.
#[test]
fn parse_convert_dir_with_flags() {
    for words in [
        ["convert-dir", "--input", "in", "--output", "out"],
        ["convert-dir", "--output", "out", "--input", "in"],
        ["convert-dir", "-i", "in", "-o", "out"],
    ]
    .iter()
    {
        let cli = Cli::parse_args(&args(words)).expect("parses");
        match cli.command {
            Commands::ConvertDir { input, output } => {
                assert_eq!(input, b("in"));
                assert_eq!(output, Some(b("out")));
            },
            _ => panic!("expected the directory command"),
        }
    }
}

/// Without the input flag, or with stray words, the line does not parse.
#[test]
fn reject_malformed_command_lines() {
    assert!(Cli::parse_args(&args(&[])).is_none());
    assert!(Cli::parse_args(&args(&["convert"])).is_none());
    assert!(Cli::parse_args(&args(&["convert", "--output", "out"])).is_none());
    assert!(Cli::parse_args(&args(&["convert", "--input"])).is_none());
    assert!(Cli::parse_args(&args(&["burn", "--input", "x"])).is_none());
    assert!(Cli::parse_args(&args(&["convert", "--input", "a", "--input", "b"])).is_none());
    assert!(Cli::parse_args(&args(&["convert", "x.mts"])).is_none());
}

/// A conversion whose input does not exist: the tool exits non-zero and
/// the failure is surfaced.
#[test]
fn test_invalid_input_path() {
    // The driver hands "/tmp/nope.mts" to the external tool; the tool
    // cannot open it and exits with a failure, which the driver maps.
    let conv = FileConversion::new();
    let (outcome, _) = conv.on_exit(false, Some(1));
    assert!(outcome.is_err(), "Should error on invalid input file");
    match outcome {
        Err(ConvertError::ToolFailed { exit_code }) => assert_eq!(exit_code, Some(1)),
        _ => panic!("expected the tool's failure"),
    }
}

/// A progress sink sees at least one call, each within bounds.
#[test]
fn test_progress_callback() {
    let mut conv = FileConversion::new();
    let mut calls: usize = 0;
    let lines = ["total_frames=100", "frame=50", "frame=100"];
    let zero = magic_converter::Frac { num: 0, den: 1 };
    let one = magic_converter::Frac { num: 1, den: 1 };
    for line in lines.iter() {
        if let Some(f) = conv.on_line(&b(line)) {
            assert!(zero.le(&f) && f.le(&one), "Progress should be between 0 and 1");
            calls += 1;
        }
    }
    let (outcome, last) = conv.on_exit(true, Some(0));
    assert!(outcome.is_ok());
    if let Some(f) = last {
        assert!(zero.le(&f) && f.le(&one), "Progress should be between 0 and 1");
        calls += 1;
    }
    assert!(calls > 0, "Progress callback should have been called at least once");
}

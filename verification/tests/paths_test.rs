//! Output-path derivation and conversion planning.

use magic_converter::driver::plan_conversion;
use magic_converter::paths::{derive_output_path, is_mts_file_name, output_file_name};
use magic_converter::ConvertError;

fn b(s: &str) -> Vec<u8> {
    s.as_bytes().to_vec()
}

/// The output file name keeps the stem and swaps the extension.
#[test]
fn output_name_swaps_extension() {
    assert_eq!(output_file_name(&b("clip.mts")), b("clip.mp4"));
    assert_eq!(output_file_name(&b("clip.MTS")), b("clip.mp4"));
    assert_eq!(output_file_name(&b("a.b.mts")), b("a.b.mp4"));
    assert_eq!(output_file_name(&b("noext")), b("noext.mp4"));
}

/// An input with no derivable stem falls back to the literal `converted`.
#[test]
fn no_stem_falls_back_to_converted() {
    assert_eq!(output_file_name(&b(".mts")), b("converted.mp4"));
    assert_eq!(output_file_name(&b("")), b("converted.mp4"));
}

/// The output lands beside the input when no directory is given.
#[test]
fn output_beside_input_by_default() {
    assert_eq!(
        derive_output_path(&b("/videos/clip.mts"), None),
        Some(b("/videos/clip.mp4"))
    );
    assert_eq!(derive_output_path(&b("clip.mts"), None), Some(b("clip.mp4")));
    assert_eq!(derive_output_path(&b("/clip.mts"), None), Some(b("/clip.mp4")));
}

/// A given output directory wins over the input's parent.
#[test]
fn output_directory_wins() {
    let out = b("/out");
    assert_eq!(
        derive_output_path(&b("/videos/clip.mts"), Some(&out)),
        Some(b("/out/clip.mp4"))
    );
    let slashed = b("/out/");
    assert_eq!(
        derive_output_path(&b("clip.mts"), Some(&slashed)),
        Some(b("/out/clip.mp4"))
    );
}

/// No output directory and no derivable parent: the conversion cannot
/// place its output.
#[test]
fn missing_parent_is_output_not_accessible() {
    assert_eq!(derive_output_path(&b(""), None), None);
    assert_eq!(derive_output_path(&b("/"), None), None);
    match plan_conversion(&b("/"), None) {
        Err(e) => assert_eq!(e, ConvertError::OutputNotAccessible),
        Ok(_) => panic!("planning must fail without a derivable output directory"),
    }
}

/// The planned invocation is exactly the specified argument vector.
#[test]
fn planned_arguments_bit_exact() {
    let plan = plan_conversion(&b("/videos/clip.mts"), Some(&b("/out"))).unwrap();
    assert_eq!(plan.program, b("ffmpeg"));
    let expected: Vec<Vec<u8>> = vec![
        b("-i"),
        b("/videos/clip.mts"),
        b("-c"),
        b("copy"),
        b("-bsf:v"),
        b("h264_mp4toannexb"),
        b("-progress"),
        b("-"),
        b("/out/clip.mp4"),
    ];
    assert_eq!(plan.args, expected);
    assert_eq!(plan.output_path, b("/out/clip.mp4"));
}

/// Selection matches the `mts` extension in any case, and nothing else.
#[test]
fn selection_is_case_insensitive() {
    assert!(is_mts_file_name(&b("x.mts")));
    assert!(is_mts_file_name(&b("x.MTS")));
    assert!(is_mts_file_name(&b("x.Mts")));
    assert!(is_mts_file_name(&b("x.mTs")));
    assert!(!is_mts_file_name(&b("x.mp4")));
    assert!(!is_mts_file_name(&b("x.mtsx")));
    assert!(!is_mts_file_name(&b("x.amts")));
    assert!(!is_mts_file_name(&b("mts")));
    assert!(!is_mts_file_name(&b(".mts")), "a bare dot-file hides no extension");
}

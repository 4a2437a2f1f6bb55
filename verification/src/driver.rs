//! The transcoder driver: planning one conversion and folding its events
//! into an outcome.
//!
//! The front end spawns the external tool from a [`ConversionPlan`], reads
//! its progress stream, and reports what happened back to a
//! [`FileConversion`], which decides every step: what each line delivers
//! to the sink, what a spawn failure or an exit status means, and when the
//! final `1/1` is owed.

use vstd::prelude::*;
use crate::frac::Frac;
use crate::paths::{derive_output_path, spec_output_path};
use crate::progress::{initial_tracker, step_emit, step_state, ProgressTracker};

verus! {

/// Why a conversion failed.
#[derive(Clone, Copy, Debug, PartialEq, Eq)]
pub enum ConvertError {
    /// The input path does not name a readable regular file.
    InputNotAccessible,
    /// No output directory was given and none can be derived, or the
    /// directory cannot be written.
    OutputNotAccessible,
    /// The external tool could not be spawned.
    ToolUnavailable,
    /// The external tool exited with a non-zero status; the code is kept
    /// when the platform reports one.
    ToolFailed { exit_code: Option<i32> },
    /// Listing the input directory failed.
    EnumerationFailed,
}

/// The bytes of `"ffmpeg"`, the external tool's executable name.
pub open spec fn tool_name() -> Seq<u8> {
    seq!['f' as u8, 'f' as u8, 'm' as u8, 'p' as u8, 'e' as u8, 'g' as u8]
}

/// The fixed argument vector of one invocation, in order: `-i <input>`,
/// stream copy, the H.264 Annex-B bitstream filter, progress on standard
/// output, and the output path.
pub open spec fn spec_tool_args(input: Seq<u8>, output_path: Seq<u8>) -> Seq<Seq<u8>> {
    seq![
        seq!['-' as u8, 'i' as u8],
        input,
        seq!['-' as u8, 'c' as u8],
        seq!['c' as u8, 'o' as u8, 'p' as u8, 'y' as u8],
        seq!['-' as u8, 'b' as u8, 's' as u8, 'f' as u8, ':' as u8, 'v' as u8],
        seq![
            'h' as u8, '2' as u8, '6' as u8, '4' as u8, '_' as u8, 'm' as u8, 'p' as u8,
            '4' as u8, 't' as u8, 'o' as u8, 'a' as u8, 'n' as u8, 'n' as u8, 'e' as u8,
            'x' as u8, 'b' as u8,
        ],
        seq!['-' as u8, 'p' as u8, 'r' as u8, 'o' as u8, 'g' as u8, 'r' as u8, 'e' as u8,
            's' as u8, 's' as u8],
        seq!['-' as u8],
        output_path,
    ]
}

/// Everything the front end needs to start the external tool once.
pub struct ConversionPlan {
    /// The executable name to resolve on the search path.
    pub program: Vec<u8>,
    /// The arguments, in order.
    pub args: Vec<Vec<u8>>,
    /// Where the converted file will stand.
    pub output_path: Vec<u8>,
}

/// Plans one conversion: derives the output path and builds the argument
/// vector.  Fails with `OutputNotAccessible` exactly when no output
/// directory is given and the input has no parent.
pub fn plan_conversion(input: &Vec<u8>, output_dir: Option<&Vec<u8>>) -> (r: Result<
    ConversionPlan,
    ConvertError,
>)
    ensures
        match r {
            Ok(p) => {
                &&& spec_output_path(input@, output_dir.deep_view()) == Some(p.output_path@)
                &&& p.program@ == tool_name()
                &&& p.args.deep_view() == spec_tool_args(input@, p.output_path@)
            },
            Err(e) => {
                &&& e is OutputNotAccessible
                &&& spec_output_path(input@, output_dir.deep_view()) is None
            },
        },
{
    let output_path = match derive_output_path(input, output_dir) {
        Some(p) => p,
        None => {
            return Err(ConvertError::OutputNotAccessible);
        },
    };
    let program: Vec<u8> = vec!['f' as u8, 'f' as u8, 'm' as u8, 'p' as u8, 'e' as u8, 'g' as u8];
    let mut args: Vec<Vec<u8>> = Vec::new();
    args.push(vec!['-' as u8, 'i' as u8]);
    args.push(copy_bytes(input));
    args.push(vec!['-' as u8, 'c' as u8]);
    args.push(vec!['c' as u8, 'o' as u8, 'p' as u8, 'y' as u8]);
    args.push(vec!['-' as u8, 'b' as u8, 's' as u8, 'f' as u8, ':' as u8, 'v' as u8]);
    args.push(vec![
        'h' as u8, '2' as u8, '6' as u8, '4' as u8, '_' as u8, 'm' as u8, 'p' as u8,
        '4' as u8, 't' as u8, 'o' as u8, 'a' as u8, 'n' as u8, 'n' as u8, 'e' as u8,
        'x' as u8, 'b' as u8,
    ]);
    args.push(vec!['-' as u8, 'p' as u8, 'r' as u8, 'o' as u8, 'g' as u8, 'r' as u8,
        'e' as u8, 's' as u8, 's' as u8]);
    args.push(vec!['-' as u8]);
    let out_arg = copy_bytes(&output_path);
    args.push(out_arg);
    proof {
        assert(program@ =~= tool_name());
        assert(args.deep_view() =~~= spec_tool_args(input@, output_path@));
    }
    Ok(ConversionPlan { program, args, output_path })
}

/// Copies a byte string.
pub fn copy_bytes(v: &Vec<u8>) -> (r: Vec<u8>)
    ensures
        r@ == v@,
{
    let mut out: Vec<u8> = Vec::new();
    let mut i: usize = 0;
    while i < v.len()
        invariant
            i <= v@.len(),
            out@ == v@.subrange(0, i as int),
        decreases v@.len() - i,
    {
        out.push(v[i]);
        proof {
            assert(v@.subrange(0, i as int + 1) =~= v@.subrange(0, i as int).push(v@[i as int]));
        }
        i = i + 1;
    }
    proof {
        assert(v@.subrange(0, v@.len() as int) =~= v@);
    }
    out
}

/// The driver state every file's conversion starts from.
pub open spec fn initial_conversion() -> FileConversion {
    FileConversion { tracker: initial_tracker(), stream_failed: false }
}

/// Drives one file's conversion: a progress tracker together with the
/// state of the progress stream.
pub struct FileConversion {
    /// Folds `frame=` and `total_frames=` lines into sink deliveries.
    pub tracker: ProgressTracker,
    /// Reading the progress stream failed; forwarding has stopped and the
    /// failure is kept as a secondary note, while the outcome still
    /// follows the child's exit status.
    pub stream_failed: bool,
}

impl FileConversion {
    /// Well-formed: the tracker is.
    pub open spec fn wf(self) -> bool {
        self.tracker.wf()
    }

    /// A fresh driver for one file.
    pub fn new() -> (r: FileConversion)
        ensures
            r == initial_conversion(),
            r.wf(),
    {
        FileConversion { tracker: ProgressTracker::new(), stream_failed: false }
    }

    /// Reads one line of the child's progress stream and returns the
    /// fraction owed to the sink, if any.  After a stream error nothing
    /// more is forwarded.
    pub fn on_line(&mut self, line: &[u8]) -> (r: Option<Frac>)
        requires
            old(self).wf(),
        ensures
            final(self).wf(),
            final(self).stream_failed == old(self).stream_failed,
            old(self).stream_failed ==> r is None && *final(self) == *old(self),
            !old(self).stream_failed ==> {
                &&& final(self).tracker == step_state(old(self).tracker, line@)
                &&& r == step_emit(old(self).tracker, line@)
            },
            old(self).tracker.last.spec_le(final(self).tracker.last),
            r matches Some(f) ==> f == final(self).tracker.last && f.wf() && f.num < f.den
                && old(self).tracker.last.spec_le(f),
    {
        if self.stream_failed {
            None
        } else {
            self.tracker.feed_line(line)
        }
    }

    /// Notes that reading the progress stream failed: forwarding stops,
    /// the child is still waited on.
    pub fn on_stream_error(&mut self)
        ensures
            *final(self) == (FileConversion { stream_failed: true, ..*old(self) }),
    {
        self.stream_failed = true;
    }

    /// Maps a spawn failure: the tool could not be started at all.
    pub fn on_spawn_failure(self) -> (r: ConvertError)
        ensures
            r is ToolUnavailable,
    {
        ConvertError::ToolUnavailable
    }

    /// Maps the child's exit into the conversion's outcome and the final
    /// delivery owed to the sink: success yields `Ok` and the one final
    /// `1/1` — every mid-stream delivery stays strictly below one, so one
    /// is reported exactly once, and only here; a non-zero exit yields
    /// the tool's failure, with its exit code, and no delivery, so a
    /// failing conversion never reports one.
    pub fn on_exit(self, success: bool, exit_code: Option<i32>) -> (r: (
        Result<(), ConvertError>,
        Option<Frac>,
    ))
        ensures
            success ==> r.0 is Ok && r.1 == Some(Frac { num: 1, den: 1 }),
            !success ==> {
                &&& r.0 matches Err(e) && e == (ConvertError::ToolFailed { exit_code })
                &&& r.1 is None
            },
            r.0 is Ok <==> success,
    {
        if success {
            (Ok(()), Some(Frac { num: 1, den: 1 }))
        } else {
            (Err(ConvertError::ToolFailed { exit_code }), None)
        }
    }
}

} // verus!

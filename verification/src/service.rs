//! The service facade: the two operations — convert one file, convert
//! one directory — as both front ends see them.
//!
//! The facade is a cheap-to-clone handle.  Each operation splits into the
//! verified decisions offered here and by the driver and sweeper types,
//! and the blocking work (spawning the tool, reading its pipe, listing
//! the directory) that the front end performs between those decisions.

use vstd::prelude::*;
use crate::driver::{initial_conversion, plan_conversion, ConversionPlan, ConvertError, FileConversion};
use crate::paths::spec_output_path;
use crate::sweep::{select_mts_names, selected_names, SweepProgress};
use crate::driver::{spec_tool_args, tool_name};

verus! {

/// The conversion service both front ends drive.
#[derive(Clone, Copy, Debug, PartialEq, Eq, Structural)]
pub struct ConverterService;

impl ConverterService {
    /// A fresh service handle.
    pub fn new() -> (r: ConverterService)
        ensures
            r == (ConverterService {  }),
    {
        ConverterService
    }

    /// Plans one file's conversion: the derived output path and the
    /// external tool's argument vector; `OutputNotAccessible` exactly
    /// when no output directory is given and the input has no parent.
    pub fn plan_file(&self, input: &Vec<u8>, output_dir: Option<&Vec<u8>>) -> (r: Result<
        ConversionPlan,
        ConvertError,
    >)
        ensures
            match r {
                Ok(p) => {
                    &&& spec_output_path(input@, output_dir.deep_view()) == Some(p.output_path@)
                    &&& p.program@ == tool_name()
                    &&& p.args.deep_view() == spec_tool_args(input@, p.output_path@)
                },
                Err(e) => {
                    &&& e is OutputNotAccessible
                    &&& spec_output_path(input@, output_dir.deep_view()) is None
                },
            },
    {
        plan_conversion(input, output_dir)
    }

    /// Selects, from one directory's listing, the file names a sweep
    /// converts: those with the `mts` extension, in the listing's order.
    pub fn select_files(&self, names: &Vec<Vec<u8>>) -> (r: Vec<Vec<u8>>)
        ensures
            r.deep_view() == selected_names(names.deep_view()),
    {
        select_mts_names(names)
    }

    /// A fresh per-file progress driver: nothing delivered, the default
    /// total-frames estimate in force.
    pub fn start_file(&self) -> (r: FileConversion)
        ensures
            r == initial_conversion(),
            r.wf(),
    {
        FileConversion::new()
    }

    /// A fresh sweep over `files_total` selected files: no file done, a
    /// fresh driver for the first, nothing delivered yet.
    pub fn start_sweep(&self, files_total: u32) -> (r: SweepProgress)
        requires
            1 <= files_total,
        ensures
            r.wf(),
            r.files_total == files_total,
            r.files_done == 0,
            r.conv == initial_conversion(),
            r.last_overall == (crate::frac::Frac { num: 0, den: 1 }),
    {
        SweepProgress::new(files_total)
    }
}

} // verus!

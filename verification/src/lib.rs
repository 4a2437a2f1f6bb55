//! Core of an MTS-to-MP4 conversion utility.
//!
//! Conversion itself is delegated to an external video tool run as a child
//! process by an unverified front end.  This crate holds the verified logic
//! that drives it: deriving the output path and the child's argument vector,
//! parsing the tool's progress stream into a monotone fraction in `[0, 1]`,
//! aggregating per-file progress over a directory sweep, and mapping the
//! child's exit into a conversion outcome.

pub mod command;
pub mod driver;
pub mod frac;
pub mod paths;
pub mod progress;
pub mod service;
pub mod sweep;
pub mod text;

pub use command::{Cli, Commands};
pub use driver::{ConversionPlan, ConvertError, FileConversion};
pub use frac::Frac;
pub use progress::ProgressTracker;
pub use service::ConverterService;
pub use sweep::SweepProgress;

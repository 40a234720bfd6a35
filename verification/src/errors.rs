//! The error taxonomy of the splitting pipeline.
//!
//! Configuration errors are raised while a plan is built, before any file
//! is touched; input errors before streaming begins; write errors by the
//! caller's I/O layer mid-stream; coverage errors only after a full
//! successful pass, aggregated over every offending range.

use vstd::prelude::*;
use vstd::string::*;
use crate::digits::dec_digits;
use crate::digits::usize_to_string;

verus! {

/// A range that began past end-of-file, as reported by the coverage check.
#[derive(Clone, Copy, Debug, PartialEq, Eq, Structural)]
pub struct RangeFailure {
    pub start: usize,
    pub end: usize,
}

/// The four categories of failure.
#[derive(Clone, Copy, Debug, PartialEq, Eq, Structural)]
pub enum ErrorKind {
    Config,
    Input,
    Write,
    Coverage,
}

/// Everything that can go wrong in one split invocation.
#[derive(Debug)]
pub enum SplitError {
    /// A range whose start line is zero; lines are numbered from one.
    ZeroStart { output_path: String },
    /// A range whose start line lies after its end line.
    StartAfterEnd { start: usize, end: usize, output_path: String },
    /// A range string that is not two `-`-separated fields.
    InvalidRangeFormat { raw: String },
    /// A range string whose start field is not a `usize` in decimal.
    InvalidStartNumber { raw: String },
    /// A range string whose end field is not a `usize` in decimal.
    InvalidEndNumber { raw: String },
    /// An automatic chunk size of zero lines.
    ZeroChunkSize,
    /// A chunk-size field that is not a decimal number.
    InvalidChunkSize,
    /// A manual split with no range strings at all.
    NoRanges,
    /// The input path does not exist.
    InputNotFound { path: String },
    /// The input path exists but is not a regular file.
    InputNotAFile { path: String },
    /// The input file holds zero bytes.
    InputEmpty { path: String },
    /// A destination could not be created, or a write or flush failed;
    /// raised by the caller's I/O layer, never by the library itself.
    WriteFailure { detail: String },
    /// One or more ranges began past end-of-file.
    CoverageFailed { failures: Vec<RangeFailure>, total_lines: usize },
}

/// One line of the aggregated coverage report.
pub open spec fn spec_coverage_line(f: RangeFailure, total: nat) -> Seq<char> {
    "Range "@ + dec_digits(f.start as nat) + "-"@ + dec_digits(f.end as nat)
        + " failed: Input file only has "@ + dec_digits(total) + " lines."@
}

/// The coverage report: one line per failed range, joined by newlines.
pub open spec fn spec_coverage_report(failures: Seq<RangeFailure>, total: nat) -> Seq<char>
    decreases failures.len(),
{
    if failures.len() == 0 {
        Seq::empty()
    } else if failures.len() == 1 {
        spec_coverage_line(failures[0], total)
    } else {
        spec_coverage_report(failures.drop_last(), total) + seq!['\n'] + spec_coverage_line(
            failures.last(),
            total,
        )
    }
}

impl SplitError {
    /// The category a given error falls under.
    pub open spec fn spec_kind(self) -> ErrorKind {
        match self {
            SplitError::ZeroStart { .. } => ErrorKind::Config,
            SplitError::StartAfterEnd { .. } => ErrorKind::Config,
            SplitError::InvalidRangeFormat { .. } => ErrorKind::Config,
            SplitError::InvalidStartNumber { .. } => ErrorKind::Config,
            SplitError::InvalidEndNumber { .. } => ErrorKind::Config,
            SplitError::ZeroChunkSize => ErrorKind::Config,
            SplitError::InvalidChunkSize => ErrorKind::Config,
            SplitError::NoRanges => ErrorKind::Config,
            SplitError::InputNotFound { .. } => ErrorKind::Input,
            SplitError::InputNotAFile { .. } => ErrorKind::Input,
            SplitError::InputEmpty { .. } => ErrorKind::Input,
            SplitError::WriteFailure { .. } => ErrorKind::Write,
            SplitError::CoverageFailed { .. } => ErrorKind::Coverage,
        }
    }

    /// The human-readable message of a given error.
    pub open spec fn spec_message(self) -> Seq<char> {
        match self {
            SplitError::ZeroStart { output_path } => "Line 0 is invalid for "@ + output_path@
                + ". Start at 1."@,
            SplitError::StartAfterEnd { start, end, output_path } => "Logic Error: Start ("@
                + dec_digits(start as nat) + ") > End ("@ + dec_digits(end as nat) + ") for "@
                + output_path@,
            SplitError::InvalidRangeFormat { raw } => "Invalid range format '"@ + raw@
                + "'. Use 'start-end'."@,
            SplitError::InvalidStartNumber { raw } => "Invalid start number in '"@ + raw@ + "'"@,
            SplitError::InvalidEndNumber { raw } => "Invalid end number in '"@ + raw@ + "'"@,
            SplitError::ZeroChunkSize => "Chunk size must be at least 1"@,
            SplitError::InvalidChunkSize => "Invalid chunk size: must be a positive number"@,
            SplitError::NoRanges => "No ranges provided"@,
            SplitError::InputNotFound { path } => "Input file not found: "@ + path@,
            SplitError::InputNotAFile { path } => "Input path is not a file: "@ + path@,
            SplitError::InputEmpty { path } => "Input file is empty (0 bytes): "@ + path@,
            SplitError::WriteFailure { detail } => detail@,
            SplitError::CoverageFailed { failures, total_lines } => spec_coverage_report(
                failures@,
                total_lines as nat,
            ),
        }
    }

    pub fn kind(&self) -> (k: ErrorKind)
        ensures
            k == self.spec_kind(),
    {
        match self {
            SplitError::ZeroStart { .. } => ErrorKind::Config,
            SplitError::StartAfterEnd { .. } => ErrorKind::Config,
            SplitError::InvalidRangeFormat { .. } => ErrorKind::Config,
            SplitError::InvalidStartNumber { .. } => ErrorKind::Config,
            SplitError::InvalidEndNumber { .. } => ErrorKind::Config,
            SplitError::ZeroChunkSize => ErrorKind::Config,
            SplitError::InvalidChunkSize => ErrorKind::Config,
            SplitError::NoRanges => ErrorKind::Config,
            SplitError::InputNotFound { .. } => ErrorKind::Input,
            SplitError::InputNotAFile { .. } => ErrorKind::Input,
            SplitError::InputEmpty { .. } => ErrorKind::Input,
            SplitError::WriteFailure { .. } => ErrorKind::Write,
            SplitError::CoverageFailed { .. } => ErrorKind::Coverage,
        }
    }

    /// Renders the message that the pipeline reports for this error.
    pub fn message(&self) -> (m: String)
        ensures
            m@ == self.spec_message(),
    {
        match self {
            SplitError::ZeroStart { output_path } => {
                let mut m = String::from_str("Line 0 is invalid for ");
                m.append(output_path.as_str());
                m.append(". Start at 1.");
                m
            },
            SplitError::StartAfterEnd { start, end, output_path } => {
                let mut m = String::from_str("Logic Error: Start (");
                m.append(usize_to_string(*start).as_str());
                m.append(") > End (");
                m.append(usize_to_string(*end).as_str());
                m.append(") for ");
                m.append(output_path.as_str());
                m
            },
            SplitError::InvalidRangeFormat { raw } => {
                let mut m = String::from_str("Invalid range format '");
                m.append(raw.as_str());
                m.append("'. Use 'start-end'.");
                m
            },
            SplitError::InvalidStartNumber { raw } => {
                let mut m = String::from_str("Invalid start number in '");
                m.append(raw.as_str());
                m.append("'");
                m
            },
            SplitError::InvalidEndNumber { raw } => {
                let mut m = String::from_str("Invalid end number in '");
                m.append(raw.as_str());
                m.append("'");
                m
            },
            SplitError::ZeroChunkSize => String::from_str("Chunk size must be at least 1"),
            SplitError::InvalidChunkSize => String::from_str(
                "Invalid chunk size: must be a positive number",
            ),
            SplitError::NoRanges => String::from_str("No ranges provided"),
            SplitError::InputNotFound { path } => {
                let mut m = String::from_str("Input file not found: ");
                m.append(path.as_str());
                m
            },
            SplitError::InputNotAFile { path } => {
                let mut m = String::from_str("Input path is not a file: ");
                m.append(path.as_str());
                m
            },
            SplitError::InputEmpty { path } => {
                let mut m = String::from_str("Input file is empty (0 bytes): ");
                m.append(path.as_str());
                m
            },
            SplitError::WriteFailure { detail } => detail.clone(),
            SplitError::CoverageFailed { failures, total_lines } => {
                coverage_report(failures, *total_lines)
            },
        }
    }
}

fn coverage_line(f: RangeFailure, total: usize) -> (r: String)
    ensures
        r@ == spec_coverage_line(f, total as nat),
{
    let mut r = String::from_str("Range ");
    r.append(usize_to_string(f.start).as_str());
    r.append("-");
    r.append(usize_to_string(f.end).as_str());
    r.append(" failed: Input file only has ");
    r.append(usize_to_string(total).as_str());
    r.append(" lines.");
    r
}

fn coverage_report(failures: &Vec<RangeFailure>, total: usize) -> (r: String)
    ensures
        r@ == spec_coverage_report(failures@, total as nat),
{
    let mut r = String::new();
    let mut i: usize = 0;
    while i < failures.len()
        invariant
            0 <= i <= failures@.len(),
            r@ == spec_coverage_report(failures@.subrange(0, i as int), total as nat),
        decreases failures@.len() - i,
    {
        if i > 0 {
            r.append("\n");
            proof {
                reveal_strlit("\n");
                assert("\n"@ =~= seq!['\n']);
            }
        }
        let line = coverage_line(failures[i], total);
        r.append(line.as_str());
        i = i + 1;
        proof {
            let pref = failures@.subrange(0, i as int);
            assert(pref.drop_last() =~= failures@.subrange(0, i - 1));
            assert(pref.last() == failures@[i - 1]);
        }
    }
    proof {
        assert(failures@.subrange(0, failures@.len() as int) =~= failures@);
    }
    r
}

} // verus!

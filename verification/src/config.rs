//! A validated range/destination pair, the unit the engine operates on.

use vstd::prelude::*;
use crate::errors::SplitError;

verus! {

/// One inclusive range of 1-based line numbers together with the path of
/// the destination that receives those lines.  Ranges of distinct configs
/// may overlap; a single source line may be written to several
/// destinations.
#[derive(Debug)]
pub struct SplitConfig {
    pub start: usize,
    pub end: usize,
    pub output_path: String,
}

impl SplitConfig {
    /// The invariant every constructed config satisfies.
    pub open spec fn wf(self) -> bool {
        1 <= self.start <= self.end
    }

    /// Builds a config, rejecting a zero start line and an inverted range
    /// before any I/O can occur.
    pub fn new(start: usize, end: usize, output_path: String) -> (r: Result<SplitConfig, SplitError>)
        ensures
            r is Ok <==> 1 <= start <= end,
            r matches Ok(c) ==> c == (SplitConfig { start, end, output_path }) && c.wf(),
            start == 0 ==> r == Err::<SplitConfig, SplitError>(SplitError::ZeroStart { output_path }),
            start >= 1 && start > end ==> r == Err::<SplitConfig, SplitError>(
                SplitError::StartAfterEnd { start, end, output_path },
            ),
    {
        if start == 0 {
            return Err(SplitError::ZeroStart { output_path });
        }
        if start > end {
            return Err(SplitError::StartAfterEnd { start, end, output_path });
        }
        Ok(SplitConfig { start, end, output_path })
    }
}

} // verus!

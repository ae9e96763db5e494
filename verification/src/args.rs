//! Run-time options of a queue run.

use vstd::prelude::*;

verus! {

/// How many queue entries a run fetches when no limit is given.
pub const DEFAULT_NUM: usize = 42;

/// Options of one run over the queue.
#[derive(Debug, Clone, Copy, PartialEq, Eq)]
pub struct Opt {
    /// Show a progress bar while fetching.
    pub progress: bool,
    /// Limit on the number of items to download.
    pub num: usize,
}

impl Default for Opt {
    /// No progress bar, and at most `DEFAULT_NUM` items.
    fn default() -> (opt: Opt)
        ensures
            !opt.progress,
            opt.num == DEFAULT_NUM,
    {
        Opt { progress: false, num: DEFAULT_NUM }
    }
}

} // verus!

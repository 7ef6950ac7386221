//! How the lanes of one slice are dispatched. The computed memory, and so
//! the tag, never depends on this choice: lanes of one slice write disjoint
//! segments and read only slices that are already complete.
use vstd::prelude::*;

verus! {

#[derive(Clone, Copy, Debug, PartialEq, Eq, Structural)]
pub enum ThreadMode {
    /// Run in one thread.
    Sequential,
    /// Run in the same number of threads as the number of lanes.
    Parallel,
}

impl ThreadMode {
    /// Create a thread mode from the threads count.
    pub fn from_threads(threads: u32) -> (r: ThreadMode)
        ensures
            r == (if threads > 1 {
                ThreadMode::Parallel
            } else {
                ThreadMode::Sequential
            }),
    {
        if threads > 1 {
            ThreadMode::Parallel
        } else {
            ThreadMode::Sequential
        }
    }
}

impl Default for ThreadMode {
    /// The default is sequential execution.
    fn default() -> (r: ThreadMode)
        ensures
            r == ThreadMode::Sequential,
    {
        ThreadMode::Sequential
    }
}

} // verus!

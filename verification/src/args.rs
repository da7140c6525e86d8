//! The arguments of a run.

use vstd::prelude::*;

verus! {

/// The budget of worker threads where none is given.
pub const DEFAULT_THREADS_LIMIT: usize = 4;

/// What a run is told: where the project is, and how many threads it may use.
#[derive(Debug)]
pub struct Args {
    /// The path to the manifest of the project.
    pub manifest_path: String,
    /// The largest number of threads in the worker pool. The pool starts as
    /// many as this and the host allow, and never none.
    pub threads_limit: usize,
}

impl Args {
    /// A budget of no threads is no budget.
    pub open spec fn wf(&self) -> bool {
        self.threads_limit >= 1
    }

    /// The arguments, unless the budget is zero.
    pub fn new(manifest_path: String, threads_limit: usize) -> (args: Option<Args>)
        ensures
            args is Some <==> threads_limit >= 1,
            args matches Some(args) ==> args.wf() && args.manifest_path == manifest_path
                && args.threads_limit == threads_limit,
    {
        if threads_limit >= 1 {
            Some(Args { manifest_path, threads_limit })
        } else {
            None
        }
    }

    /// The arguments with the default budget.
    pub fn with_default_limit(manifest_path: String) -> (args: Args)
        ensures
            args.wf(),
            args.manifest_path == manifest_path,
            args.threads_limit == DEFAULT_THREADS_LIMIT,
    {
        Args { manifest_path, threads_limit: DEFAULT_THREADS_LIMIT }
    }
}

} // verus!

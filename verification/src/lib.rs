//! Diagnostics for every file of a compiled project.
//!
//! A pass finds the on-disk root files of all loaded crates, splits them into
//! one batch for each worker, and for each root computes the closure of files
//! and modules that hang on it and collects the syntax, semantic and lowering
//! diagnostics of that closure. The library decides and computes; threads and
//! output belong to the program that drives it.

use vstd::prelude::*;
use crate::database::Database;
use crate::diagnostics::controller::{is_pass_over, DiagnosticController};
use crate::diagnostics::pool::spec_worker_count;
use crate::diagnostics::report::Outcome;

pub mod args;
pub mod database;
pub mod diagnostics;
pub mod handles;
pub mod live;
pub mod project;
pub mod table;

verus! {

/// Calculates the diagnostics of all root files of all crates loaded into
/// `db`, for a pool of at most `threads_limit` workers on a host that reports
/// the parallelism `hardware`.
///
/// The root files are split into as many batches as the pool has workers.
/// Entry `i` of the result holds what worker `i` has to emit, root by root in
/// the order of its batch. Workers do not depend on one another, so their
/// outputs may be emitted in any interleaving.
pub fn calculate_diagnostics_for_all_files<D: Database>(
    db: &D,
    threads_limit: usize,
    hardware: Option<usize>,
) -> (outcomes: Vec<Vec<Outcome>>)
    requires
        threads_limit >= 1,
        hardware matches Some(available) ==> available >= 1,
    ensures
        is_pass_over(db, spec_worker_count(threads_limit, hardware) as nat, outcomes@),
{
    let diag_controller = DiagnosticController::new(threads_limit, hardware);
    diag_controller.calculate_diagnostics_for_all_files(db)
}

} // verus!

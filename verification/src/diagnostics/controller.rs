//! The plan of a diagnostics pass: which worker gets which roots and which view.
//!
//! Every worker is bound to one view of the database and one batch of roots
//! for its whole life. The views are taken at one revision, so that what a
//! worker reports of a root is what the database itself would report of it.

use vstd::prelude::*;
use crate::database::{same_answers, Database, FindingView, Revision};
use crate::diagnostics::discovery::{find_all_files_from_all_crates, is_discovery, is_root_file};
use crate::diagnostics::graph::{
    closure_fails, edge, is_closure, is_walk, reaches, unresolved, Node,
};
use crate::diagnostics::partition::{batch_of, batches, lemma_items_land_once};
use crate::diagnostics::pool::{spec_worker_count, Pool};
use crate::diagnostics::report::{
    answers_admitted, are_outcomes_of, calculate_diags_for_batch, is_batch_step, is_outcome_of,
    lines_view, optional_emission_view, report_from, Emission, Outcome, Progress, ProgressView,
};
use crate::handles::{CrateHandle, FileHandle, Handle, ModuleHandle};

verus! {

/// The work of one worker: a view of its own, and the roots to process in it.
pub struct Job<D: Database> {
    pub snapshot: D,
    pub batch: Vec<FileHandle>,
}

impl<D: Database> Job<D> {
    /// Processes the batch, root by root, in the job's own view.
    pub fn run(&self) -> (outcomes: Vec<Outcome>)
        ensures
            are_outcomes_of(&self.snapshot, self.batch@, outcomes@),
    {
        calculate_diags_for_batch(&self.snapshot, self.batch.as_slice())
    }

    /// The progress of a worker that has not begun.
    pub fn begin(&self) -> (progress: Progress)
        ensures
            progress.wf(&self.snapshot, self.batch@),
            progress@ == (ProgressView { next_root: 0, current: None }),
    {
        Progress::new()
    }

    /// Goes one step through the batch in the job's own view, and returns what
    /// the worker is to emit for it before the next step: the texts of one
    /// query, or the report of a skipped root. `None` where the batch is done.
    pub fn step(&self, progress: &mut Progress) -> (emission: Option<Emission>)
        requires
            old(progress).wf(&self.snapshot, self.batch@),
        ensures
            final(progress).wf(&self.snapshot, self.batch@),
            is_batch_step(
                &self.snapshot,
                self.batch@,
                old(progress)@,
                final(progress)@,
                optional_emission_view(emission),
            ),
    {
        progress.step(&self.snapshot, self.batch.as_slice())
    }
}

/// Whether `jobs` are the jobs of a pass over `db` with this many workers: one
/// job for each worker, job `i` with batch `i` of the root files, and each with
/// a view that answers as `db` does.
pub open spec fn is_plan<D: Database>(db: &D, workers: nat, jobs: Seq<Job<D>>) -> bool {
    &&& jobs.len() == workers
    &&& forall|i: int| 0 <= i < jobs.len() ==> same_answers(db, &(#[trigger] jobs[i]).snapshot)
    &&& exists|roots: Seq<FileHandle>| #[trigger]
        is_discovery(db, roots) && are_batches_of(roots, jobs)
}

/// Whether job `i` holds batch `i` of `roots`, for every job.
pub open spec fn are_batches_of<D: Database>(roots: Seq<FileHandle>, jobs: Seq<Job<D>>) -> bool {
    forall|i: int|
        0 <= i < jobs.len() ==> (#[trigger] jobs[i]).batch@ == batch_of(roots, jobs.len(), i as nat)
}

/// Every root file has one worker: in a plan, each root file of the database
/// is in the batch of exactly one job, once, and the batches hold nothing but
/// root files.
pub proof fn lemma_each_root_has_one_worker<D: Database>(db: &D, workers: nat, jobs: Seq<Job<D>>)
    requires
        workers > 0,
        is_plan(db, workers, jobs),
    ensures
        forall|f: FileHandle|
            is_root_file(db, f) <==> exists|i: int|
                0 <= i < workers && (#[trigger] jobs[i]).batch@.contains(f),
        forall|f: FileHandle, a: int, b: int|
            0 <= a < workers && 0 <= b < workers && #[trigger] jobs[a].batch@.contains(f)
                && #[trigger] jobs[b].batch@.contains(f) ==> a == b,
        forall|i: int| 0 <= i < workers ==> (#[trigger] jobs[i]).batch@.no_duplicates(),
{
    let roots = choose|roots: Seq<FileHandle>| #[trigger]
        is_discovery(db, roots) && are_batches_of(roots, jobs);
    lemma_items_land_once(roots, workers);
    assert forall|f: FileHandle| is_root_file(db, f) implies exists|i: int|
        0 <= i < workers && (#[trigger] jobs[i]).batch@.contains(f) by {
        assert(roots.contains(f));
        let i = choose|i: nat| i < workers && #[trigger] batch_of(roots, workers, i).contains(f);
        assert(jobs[i as int].batch@.contains(f));
    }
    assert forall|f: FileHandle|
        (exists|i: int| 0 <= i < workers && (#[trigger] jobs[i]).batch@.contains(f))
        implies is_root_file(db, f) by {
        let i = choose|i: int| 0 <= i < workers && (#[trigger] jobs[i]).batch@.contains(f);
        assert(batch_of(roots, workers, i as nat).contains(f));
        assert(roots.contains(f));
    }
    assert forall|f: FileHandle, a: int, b: int|
        0 <= a < workers && 0 <= b < workers && #[trigger] jobs[a].batch@.contains(f)
            && #[trigger] jobs[b].batch@.contains(f) implies a == b by {
        assert(batch_of(roots, workers, a as nat).contains(f));
        assert(batch_of(roots, workers, b as nat).contains(f));
    }
    assert forall|i: int| 0 <= i < workers implies (#[trigger] jobs[i]).batch@.no_duplicates() by {
        assert(batch_of(roots, workers, i as nat).no_duplicates());
    }
}

/// Whether `outcomes` holds, for each worker in turn, the outcomes of its
/// batch of the root files of `db`.
pub open spec fn is_pass_over<D: Revision>(
    db: &D,
    workers: nat,
    outcomes: Seq<Vec<Outcome>>,
) -> bool {
    &&& outcomes.len() == workers
    &&& exists|roots: Seq<FileHandle>| #[trigger]
        is_discovery(db, roots) && are_outcomes_of_batches(db, roots, outcomes)
}

/// Whether entry `i` holds the outcomes of batch `i` of `roots`, for every entry.
pub open spec fn are_outcomes_of_batches<D: Revision>(
    db: &D,
    roots: Seq<FileHandle>,
    outcomes: Seq<Vec<Outcome>>,
) -> bool {
    forall|i: int|
        0 <= i < outcomes.len() ==> are_outcomes_of(
            db,
            batch_of(roots, outcomes.len(), i as nat),
            (#[trigger] outcomes[i])@,
        )
}

/// Two views that answer alike are joined by the same edges.
pub proof fn lemma_same_answers_same_walks<D: Revision>(
    a: &D,
    b: &D,
    root: FileHandle,
    walk: Seq<Node>,
)
    requires
        same_answers(a, b),
        is_walk(a, root, walk),
    ensures
        is_walk(b, root, walk),
{
    assert forall|i: int| 0 <= i < walk.len() - 1 implies edge(b, #[trigger] walk[i], walk[i + 1]) by {
        assert(edge(a, walk[i], walk[i + 1]));
        match walk[i] {
            Node::File(f) => {
                assert(a.declared_modules(f) == b.declared_modules(f));
            },
            Node::Module(m) => {
                assert(a.backing_files(m) == b.backing_files(m));
            },
        }
    }
}

/// Answering alike goes both ways.
pub proof fn lemma_same_answers_is_symmetric<D: Revision>(a: &D, b: &D)
    requires
        same_answers(a, b),
    ensures
        same_answers(b, a),
{
    assert forall|h: Handle| #[trigger] b.knows(h) == a.knows(h) by {
        assert(a.knows(h) == b.knows(h));
    }
    assert forall|c: CrateHandle| #[trigger]
        b.crate_modules_view(c) == a.crate_modules_view(c) by {
        assert(a.crate_modules_view(c) == b.crate_modules_view(c));
    }
    assert forall|m: ModuleHandle| #[trigger] b.main_file_view(m) == a.main_file_view(m) by {
        assert(a.main_file_view(m) == b.main_file_view(m));
    }
    assert forall|f: FileHandle| #[trigger] b.on_disk_view(f) == a.on_disk_view(f) by {
        assert(a.on_disk_view(f) == b.on_disk_view(f));
    }
    assert forall|f: FileHandle| #[trigger] b.declared_modules(f) == a.declared_modules(f) by {
        assert(a.declared_modules(f) == b.declared_modules(f));
    }
    assert forall|m: ModuleHandle| #[trigger] b.backing_files(m) == a.backing_files(m) by {
        assert(a.backing_files(m) == b.backing_files(m));
    }
    assert forall|m: ModuleHandle, r: Option<Seq<FindingView>>| #[trigger]
        b.admits_semantic(m, r) == a.admits_semantic(m, r) by {
        assert(a.admits_semantic(m, r) == b.admits_semantic(m, r));
    }
    assert forall|m: ModuleHandle, r: Option<Seq<FindingView>>| #[trigger]
        b.admits_lowering(m, r) == a.admits_lowering(m, r) by {
        assert(a.admits_lowering(m, r) == b.admits_lowering(m, r));
    }
    assert forall|f: FileHandle, r: Seq<FindingView>| #[trigger]
        b.admits_syntax(f, r) == a.admits_syntax(f, r) by {
        assert(a.admits_syntax(f, r) == b.admits_syntax(f, r));
    }
}

/// Two views that answer alike reach the same nodes from a root.
pub proof fn lemma_same_answers_same_reach<D: Revision>(
    a: &D,
    b: &D,
    root: FileHandle,
    node: Node,
)
    requires
        same_answers(a, b),
    ensures
        reaches(a, root, node) == reaches(b, root, node),
        unresolved(a, node) == unresolved(b, node),
{
    lemma_same_answers_is_symmetric(a, b);
    if reaches(a, root, node) {
        let walk = choose|walk: Seq<Node>| is_walk(a, root, walk) && #[trigger] walk.last() == node;
        lemma_same_answers_same_walks(a, b, root, walk);
    }
    if reaches(b, root, node) {
        let walk = choose|walk: Seq<Node>| is_walk(b, root, walk) && #[trigger] walk.last() == node;
        lemma_same_answers_same_walks(b, a, root, walk);
    }
    match node {
        Node::File(f) => {
            assert(a.declared_modules(f) == b.declared_modules(f));
        },
        Node::Module(m) => {
            assert(a.backing_files(m) == b.backing_files(m));
        },
    }
}

/// What one view owes for a root, a view that answers alike owes too: a
/// worker's outcome is an outcome of the database that its view was taken from.
pub proof fn lemma_same_answers_same_outcomes<D: Revision>(
    a: &D,
    b: &D,
    root: FileHandle,
    outcome: Outcome,
)
    requires
        same_answers(a, b),
        is_outcome_of(a, root, outcome),
    ensures
        is_outcome_of(b, root, outcome),
{
    assert forall|node: Node|
        reaches(a, root, node) == reaches(b, root, node) && unresolved(a, node) == unresolved(
            b,
            node,
        ) by {
        lemma_same_answers_same_reach(a, b, root, node);
    }
    if closure_fails(a, root) {
        let node = choose|node: Node| #[trigger] reaches(a, root, node) && unresolved(a, node);
        assert(reaches(b, root, node) && unresolved(b, node));
    }
    if closure_fails(b, root) {
        let node = choose|node: Node| #[trigger] reaches(b, root, node) && unresolved(b, node);
        assert(reaches(a, root, node) && unresolved(a, node));
    }
    match outcome {
        Outcome::Skipped => {},
        Outcome::Diagnosed(lines) => {
            let text = lines_view(lines@);
            let (files, modules, semantic, lowering, syntax) = choose|
                files: Seq<FileHandle>,
                modules: Seq<ModuleHandle>,
                semantic: Seq<Option<Seq<FindingView>>>,
                lowering: Seq<Option<Seq<FindingView>>>,
                syntax: Seq<Seq<FindingView>>,
            | #[trigger]
                report_from(a, root, files, modules, semantic, lowering, syntax, text);
            assert(is_closure(b, root, files, modules));
            assert(answers_admitted(b, files, modules, semantic, lowering, syntax)) by {
                assert forall|k: int| 0 <= k < modules.len() implies b.admits_semantic(
                    modules[k],
                    #[trigger] semantic[k],
                ) by {
                    assert(a.admits_semantic(modules[k], semantic[k]));
                }
                assert forall|k: int| 0 <= k < modules.len() implies b.admits_lowering(
                    modules[k],
                    #[trigger] lowering[k],
                ) by {
                    assert(a.admits_lowering(modules[k], lowering[k]));
                }
                assert forall|k: int| 0 <= k < files.len() implies b.admits_syntax(
                    files[k],
                    #[trigger] syntax[k],
                ) by {
                    assert(a.admits_syntax(files[k], syntax[k]));
                }
            }
            assert(report_from(b, root, files, modules, semantic, lowering, syntax, text));
        },
    }
}

/// Runs the diagnostics pass: finds the root files, splits them among the
/// workers of its pool, and gives each worker a view of the database.
#[derive(Debug)]
pub struct DiagnosticController {
    pool: Pool,
}

impl DiagnosticController {
    /// The number of workers of the controller's pool.
    pub closed spec fn workers(&self) -> usize {
        self.pool.workers()
    }

    /// A controller with a running pool of at most `threads_limit` workers.
    /// `hardware` is the parallelism that the host reports, if it reports one.
    pub fn new(threads_limit: usize, hardware: Option<usize>) -> (controller: Self)
        requires
            threads_limit >= 1,
            hardware matches Some(available) ==> available >= 1,
        ensures
            controller.workers() == spec_worker_count(threads_limit, hardware),
            controller.workers() >= 1,
    {
        DiagnosticController { pool: Pool::new(threads_limit, hardware) }
    }

    /// The number of workers, and of jobs in a plan.
    pub fn parallelism(&self) -> (workers: usize)
        ensures
            workers == self.workers(),
            workers >= 1,
    {
        self.pool.parallelism()
    }

    /// The jobs of a pass over `db`, one for each worker.
    pub fn plan<D: Database>(&self, db: &D) -> (jobs: Vec<Job<D>>)
        ensures
            is_plan(db, self.workers() as nat, jobs@),
    {
        let files = find_all_files_from_all_crates(db);
        let workers = self.pool.parallelism();
        let files_batches = batches(files.as_slice(), workers);
        let mut jobs: Vec<Job<D>> = Vec::new();
        let mut i: usize = 0;
        while i < workers
            invariant
                i <= workers,
                files_batches.len() == workers,
                jobs.len() == i,
                forall|k: int|
                    0 <= k < workers ==> (#[trigger] files_batches[k])@ == batch_of(
                        files@,
                        workers as nat,
                        k as nat,
                    ),
                forall|k: int| 0 <= k < i ==> same_answers(db, &(#[trigger] jobs[k]).snapshot),
                forall|k: int|
                    0 <= k < i ==> (#[trigger] jobs[k]).batch@ == batch_of(
                        files@,
                        workers as nat,
                        k as nat,
                    ),
            decreases workers - i,
        {
            let batch = copy_of_batch(&files_batches[i]);
            jobs.push(Job { snapshot: db.fork(), batch });
            i += 1;
        }
        proof {
            assert(are_batches_of(files@, jobs@));
        }
        jobs
    }

    /// Calculates the diagnostics of every root file of `db`: plans the pass
    /// and runs the job of each worker in turn. Entry `i` of the result holds
    /// the outcomes of worker `i`, in the order of its batch.
    pub fn calculate_diagnostics_for_all_files<D: Database>(&self, db: &D) -> (outcomes: Vec<
        Vec<Outcome>,
    >)
        ensures
            is_pass_over(db, self.workers() as nat, outcomes@),
    {
        let jobs = self.plan(db);
        let ghost roots = choose|roots: Seq<FileHandle>| #[trigger]
            is_discovery(db, roots) && are_batches_of(roots, jobs@);
        let mut outcomes: Vec<Vec<Outcome>> = Vec::new();
        let mut i: usize = 0;
        while i < jobs.len()
            invariant
                i <= jobs.len(),
                outcomes.len() == i,
                is_discovery(db, roots),
                are_batches_of(roots, jobs@),
                forall|k: int| 0 <= k < jobs.len() ==> same_answers(db, &(#[trigger] jobs[k]).snapshot),
                forall|k: int|
                    0 <= k < i ==> are_outcomes_of(
                        db,
                        batch_of(roots, jobs.len() as nat, k as nat),
                        (#[trigger] outcomes[k])@,
                    ),
            decreases jobs.len() - i,
        {
            let job = &jobs[i];
            let done = job.run();
            proof {
                lemma_same_answers_is_symmetric(db, &job.snapshot);
                assert forall|k: int| 0 <= k < job.batch@.len() implies is_outcome_of(
                    db,
                    job.batch@[k],
                    #[trigger] done@[k],
                ) by {
                    lemma_same_answers_same_outcomes(&job.snapshot, db, job.batch@[k], done@[k]);
                }
            }
            outcomes.push(done);
            i += 1;
        }
        proof {
            assert(are_outcomes_of_batches(db, roots, outcomes@));
        }
        outcomes
    }
}

/// A copy of a batch.
fn copy_of_batch(batch: &Vec<FileHandle>) -> (copy: Vec<FileHandle>)
    ensures
        copy@ == batch@,
{
    let mut copy: Vec<FileHandle> = Vec::new();
    let mut i: usize = 0;
    while i < batch.len()
        invariant
            i <= batch.len(),
            copy@ == batch@.take(i as int),
        decreases batch.len() - i,
    {
        copy.push(batch[i]);
        proof {
            assert(copy@ =~= batch@.take(i + 1));
        }
        i += 1;
    }
    proof {
        assert(batch@.take(batch.len() as int) =~= batch@);
    }
    copy
}

} // verus!

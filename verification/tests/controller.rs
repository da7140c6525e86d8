use demo_ls::calculate_diagnostics_for_all_files;
use demo_ls::database::{Database, Finding};
use demo_ls::diagnostics::controller::DiagnosticController;
use demo_ls::diagnostics::discovery::find_all_files_from_all_crates;
use demo_ls::diagnostics::report::Outcome;
use demo_ls::handles::{CrateHandle, FileHandle, ModuleHandle};
use demo_ls::table::{CrateRow, FileRow, ModuleRow, Table};

/// A project of `crates` crates, each with one on-disk root file that
/// declares no module and has the given syntax findings.
fn project(crates: u32, syntax_of: fn(u32) -> Vec<Finding>) -> Table {
    let mut table = Table::new();
    for raw in 0..crates {
        let krate = CrateHandle { raw };
        let module = ModuleHandle::CrateRoot(krate);
        let file = FileHandle { raw: 100 + raw };
        table.add_crate(CrateRow { krate, modules: vec![module] });
        table.add_module(ModuleRow {
            module,
            main_file: Some(file),
            files: Some(vec![file]),
            semantic: Some(vec![]),
            lowering: Some(vec![]),
        });
        table.add_file(FileRow { file, on_disk: true, modules: Some(vec![]), syntax: syntax_of(raw) });
    }
    table
}

fn no_findings(_: u32) -> Vec<Finding> {
    vec![]
}

fn one_finding(raw: u32) -> Vec<Finding> {
    vec![Finding { text: format!("error in {raw}\n"), blank: false }]
}

#[test]
fn two_clean_crates_on_two_hardware_threads_with_budget_four() {
    let table = project(2, no_findings);
    let controller = DiagnosticController::new(4, Some(2));
    assert_eq!(controller.parallelism(), 2);
    let jobs = controller.plan(&table);
    assert_eq!(jobs.len(), 2);
    assert_eq!(jobs[0].batch, vec![FileHandle { raw: 100 }]);
    assert_eq!(jobs[1].batch, vec![FileHandle { raw: 101 }]);
    let outcomes = calculate_diagnostics_for_all_files(&table, 4, Some(2));
    assert_eq!(
        outcomes,
        vec![vec![Outcome::Diagnosed(vec![])], vec![Outcome::Diagnosed(vec![])]]
    );
    let printed: usize = outcomes
        .iter()
        .flatten()
        .map(|outcome| match outcome {
            Outcome::Diagnosed(lines) => lines.len(),
            Outcome::Skipped => 1,
        })
        .sum();
    assert_eq!(printed, 0);
}

#[test]
fn plan_has_one_job_per_worker_even_without_files() {
    let controller = DiagnosticController::new(3, Some(8));
    let jobs = controller.plan(&Table::new());
    assert_eq!(jobs.len(), 3);
    assert!(jobs.iter().all(|job| job.batch.is_empty()));
    assert_eq!(
        controller.calculate_diagnostics_for_all_files(&Table::new()),
        vec![vec![], vec![], vec![]]
    );
}

#[test]
fn plan_splits_the_roots_round_robin() {
    let table = project(5, no_findings);
    let roots = find_all_files_from_all_crates(&table);
    let controller = DiagnosticController::new(2, None);
    let jobs = controller.plan(&table);
    assert_eq!(jobs.len(), 2);
    assert_eq!(jobs[0].batch, vec![roots[0], roots[2], roots[4]]);
    assert_eq!(jobs[1].batch, vec![roots[1], roots[3]]);
}

#[test]
fn each_job_has_a_view_that_answers_as_the_database() {
    let table = project(3, one_finding);
    let controller = DiagnosticController::new(2, Some(2));
    for job in controller.plan(&table) {
        assert_eq!(job.snapshot.loaded_crates(), table.loaded_crates());
        assert_eq!(
            find_all_files_from_all_crates(&job.snapshot),
            find_all_files_from_all_crates(&table)
        );
        for root in &job.batch {
            assert_eq!(
                job.snapshot.syntax_diagnostics_of(*root).len(),
                table.syntax_diagnostics_of(*root).len()
            );
        }
    }
}

#[test]
fn job_run_gives_the_outcomes_of_its_batch() {
    let table = project(3, one_finding);
    let controller = DiagnosticController::new(2, Some(2));
    let jobs = controller.plan(&table);
    assert_eq!(
        jobs[0].run(),
        vec![
            Outcome::Diagnosed(vec!["error in 0\n".to_string()]),
            Outcome::Diagnosed(vec!["error in 2\n".to_string()]),
        ]
    );
    assert_eq!(jobs[1].run(), vec![Outcome::Diagnosed(vec!["error in 1\n".to_string()])]);
}

#[test]
fn pass_gives_the_outcomes_worker_by_worker() {
    let table = project(3, one_finding);
    assert_eq!(
        calculate_diagnostics_for_all_files(&table, 2, Some(16)),
        vec![
            vec![
                Outcome::Diagnosed(vec!["error in 0\n".to_string()]),
                Outcome::Diagnosed(vec!["error in 2\n".to_string()]),
            ],
            vec![Outcome::Diagnosed(vec!["error in 1\n".to_string()])],
        ]
    );
}

#[test]
fn pass_with_one_worker_processes_all_roots_in_order() {
    let table = project(3, one_finding);
    assert_eq!(
        calculate_diagnostics_for_all_files(&table, 1, None),
        vec![vec![
            Outcome::Diagnosed(vec!["error in 0\n".to_string()]),
            Outcome::Diagnosed(vec!["error in 1\n".to_string()]),
            Outcome::Diagnosed(vec!["error in 2\n".to_string()]),
        ]]
    );
}

#[test]
fn pass_skips_a_failing_root_and_goes_on() {
    let mut table = project(3, one_finding);
    // The root of crate 1 gets an earlier row in which its modules do not resolve.
    let mut broken = Table::new();
    broken.add_file(FileRow {
        file: FileHandle { raw: 101 },
        on_disk: true,
        modules: None,
        syntax: vec![],
    });
    broken.crates.append(&mut table.crates);
    broken.modules.append(&mut table.modules);
    broken.files.append(&mut table.files);
    assert_eq!(
        calculate_diagnostics_for_all_files(&broken, 1, None),
        vec![vec![
            Outcome::Diagnosed(vec!["error in 0\n".to_string()]),
            Outcome::Skipped,
            Outcome::Diagnosed(vec!["error in 2\n".to_string()]),
        ]]
    );
}

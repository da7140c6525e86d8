use demo_ls::database::Finding;
use demo_ls::diagnostics::controller::Job;
use demo_ls::diagnostics::report::{
    calculate_diags_for_file, Emission, Emitter, Outcome, Progress,
};
use demo_ls::handles::{FileHandle, ModuleHandle};
use demo_ls::table::{FileRow, ModuleRow, Table};

fn emitted_file(raw: u32) -> FileHandle {
    FileHandle { raw }
}

fn said(text: &str) -> Finding {
    Finding { text: text.to_string(), blank: false }
}

fn unsaid(text: &str) -> Finding {
    Finding { text: text.to_string(), blank: true }
}

fn texts(lines: &[&str]) -> Vec<String> {
    lines.iter().map(|t| t.to_string()).collect()
}

/// Root 1 declares modules 1 and 2; module 1 is backed by the root, module 2
/// by the generated file 2. Root 5 declares no module. Root 9 declares a
/// module that does not resolve.
fn emission_table() -> Table {
    let mut table = Table::new();
    table.add_file(FileRow {
        file: emitted_file(1),
        on_disk: true,
        modules: Some(vec![ModuleHandle::Submodule(1), ModuleHandle::Submodule(2)]),
        syntax: vec![said("syntax of 1\n")],
    });
    table.add_file(FileRow {
        file: emitted_file(2),
        on_disk: false,
        modules: Some(vec![ModuleHandle::Submodule(2)]),
        syntax: vec![said("syntax of 2, first\n"), unsaid("error: "), said("syntax of 2, second\n")],
    });
    table.add_module(ModuleRow {
        module: ModuleHandle::Submodule(1),
        main_file: Some(emitted_file(1)),
        files: Some(vec![emitted_file(1)]),
        semantic: Some(vec![said("semantic of 1\n")]),
        lowering: None,
    });
    table.add_module(ModuleRow {
        module: ModuleHandle::Submodule(2),
        main_file: Some(emitted_file(2)),
        files: Some(vec![emitted_file(2)]),
        semantic: Some(vec![unsaid("warning: ")]),
        lowering: Some(vec![said("lowering of 2\n")]),
    });
    table.add_file(FileRow {
        file: emitted_file(5),
        on_disk: true,
        modules: Some(vec![]),
        syntax: vec![said("syntax of 5\n")],
    });
    table.add_file(FileRow {
        file: emitted_file(9),
        on_disk: true,
        modules: Some(vec![ModuleHandle::Submodule(90)]),
        syntax: vec![said("never shown\n")],
    });
    table
}

fn all_steps(table: &Table, root: FileHandle) -> Option<Vec<Vec<String>>> {
    let mut emitter = Emitter::start(table, root)?;
    let mut steps = Vec::new();
    while let Some(lines) = emitter.step(table) {
        steps.push(lines);
    }
    assert!(emitter.is_done());
    assert_eq!(emitter.step(table), None);
    Some(steps)
}

#[test]
fn each_step_emits_the_findings_of_one_query() {
    let table = emission_table();
    assert_eq!(
        all_steps(&table, emitted_file(1)),
        Some(vec![
            texts(&["semantic of 1\n"]),
            texts(&[]),
            texts(&[]),
            texts(&["lowering of 2\n"]),
            texts(&["syntax of 1\n"]),
            texts(&["syntax of 2, first\n", "syntax of 2, second\n"]),
        ])
    );
}

#[test]
fn root_without_modules_starts_with_its_syntax() {
    let table = emission_table();
    assert_eq!(all_steps(&table, emitted_file(5)), Some(vec![texts(&["syntax of 5\n"])]));
}

#[test]
fn emitter_is_not_done_before_its_last_query() {
    let table = emission_table();
    let mut emitter = Emitter::start(&table, emitted_file(5)).unwrap();
    assert!(!emitter.is_done());
    assert_eq!(emitter.step(&table), Some(texts(&["syntax of 5\n"])));
    assert!(emitter.is_done());
}

#[test]
fn root_with_failing_closure_has_no_emitter() {
    let table = emission_table();
    assert!(Emitter::start(&table, emitted_file(9)).is_none());
    assert!(Emitter::start(&table, emitted_file(77)).is_none());
}

#[test]
fn steps_in_a_row_are_the_diagnostics_of_the_root() {
    let table = emission_table();
    for root in [1u32, 2u32, 5u32] {
        let in_a_row: Vec<String> =
            all_steps(&table, emitted_file(root)).unwrap().into_iter().flatten().collect();
        assert_eq!(calculate_diags_for_file(&table, emitted_file(root)), Outcome::Diagnosed(in_a_row));
    }
}

#[test]
fn job_steps_through_its_batch_root_by_root() {
    let job = Job {
        snapshot: emission_table(),
        batch: vec![emitted_file(5), emitted_file(9), emitted_file(1)],
    };
    let mut progress = job.begin();
    let mut emissions = Vec::new();
    while let Some(emission) = job.step(&mut progress) {
        emissions.push(emission);
    }
    assert_eq!(
        emissions,
        vec![
            Emission::Lines(texts(&["syntax of 5\n"])),
            Emission::Skipped,
            Emission::Lines(texts(&["semantic of 1\n"])),
            Emission::Lines(texts(&[])),
            Emission::Lines(texts(&[])),
            Emission::Lines(texts(&["lowering of 2\n"])),
            Emission::Lines(texts(&["syntax of 1\n"])),
            Emission::Lines(texts(&["syntax of 2, first\n", "syntax of 2, second\n"])),
        ]
    );
    assert_eq!(job.step(&mut progress), None);
    assert_eq!(job.step(&mut progress), None);
}

#[test]
fn job_with_an_empty_batch_emits_nothing() {
    let job = Job { snapshot: emission_table(), batch: vec![] };
    let mut progress = job.begin();
    assert_eq!(job.step(&mut progress), None);
}

#[test]
fn job_of_failing_roots_skips_each() {
    let job = Job { snapshot: Table::new(), batch: vec![emitted_file(1), emitted_file(2)] };
    let mut progress = job.begin();
    assert_eq!(job.step(&mut progress), Some(Emission::Skipped));
    assert_eq!(job.step(&mut progress), Some(Emission::Skipped));
    assert_eq!(job.step(&mut progress), None);
}

#[test]
fn job_steps_emit_what_job_run_reports() {
    let job = Job {
        snapshot: emission_table(),
        batch: vec![emitted_file(1), emitted_file(9), emitted_file(5), emitted_file(2)],
    };
    let mut progress = Progress::new();
    let mut printed: Vec<String> = Vec::new();
    while let Some(emission) = job.step(&mut progress) {
        match emission {
            Emission::Skipped => printed.push("skipped".to_string()),
            Emission::Lines(lines) => printed.extend(lines),
        }
    }
    let mut reported: Vec<String> = Vec::new();
    for outcome in job.run() {
        match outcome {
            Outcome::Skipped => reported.push("skipped".to_string()),
            Outcome::Diagnosed(lines) => reported.extend(lines),
        }
    }
    assert_eq!(printed, reported);
}

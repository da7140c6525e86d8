use demo_ls::database::Finding;
use demo_ls::diagnostics::report::{
    append_printable, calculate_diags_for_batch, calculate_diags_for_file, Outcome,
    SKIPPED_ROOT_MESSAGE,
};
use demo_ls::handles::{FileHandle, ModuleHandle};
use demo_ls::table::{FileRow, ModuleRow, Table};

fn report_file(raw: u32) -> FileHandle {
    FileHandle { raw }
}

fn finding(text: &str) -> Finding {
    Finding { text: text.to_string(), blank: false }
}

fn blank_finding(text: &str) -> Finding {
    Finding { text: text.to_string(), blank: true }
}

fn lines(texts: &[&str]) -> Vec<String> {
    texts.iter().map(|t| t.to_string()).collect()
}

/// Root 1 declares modules 1 and 2; module 1 is backed by the root, module 2
/// by the generated file 2. Every query has something to say.
fn table_with_findings() -> Table {
    let mut table = Table::new();
    table.add_file(FileRow {
        file: report_file(1),
        on_disk: true,
        modules: Some(vec![ModuleHandle::Submodule(1), ModuleHandle::Submodule(2)]),
        syntax: vec![finding("syntax of 1\n")],
    });
    table.add_file(FileRow {
        file: report_file(2),
        on_disk: false,
        modules: Some(vec![ModuleHandle::Submodule(2)]),
        syntax: vec![finding("syntax of 2, first\n"), finding("syntax of 2, second\n")],
    });
    table.add_module(ModuleRow {
        module: ModuleHandle::Submodule(1),
        main_file: Some(report_file(1)),
        files: Some(vec![report_file(1)]),
        semantic: Some(vec![finding("semantic of 1\n")]),
        lowering: Some(vec![finding("lowering of 1\n")]),
    });
    table.add_module(ModuleRow {
        module: ModuleHandle::Submodule(2),
        main_file: Some(report_file(2)),
        files: Some(vec![report_file(2)]),
        semantic: Some(vec![finding("semantic of 2\n")]),
        lowering: Some(vec![finding("lowering of 2\n")]),
    });
    table
}

#[test]
fn append_printable_keeps_the_order_and_drops_blank_entries() {
    let mut out = lines(&["before"]);
    let findings = vec![finding("a"), blank_finding("severity: "), finding("b"), blank_finding("")];
    append_printable(&mut out, &findings);
    assert_eq!(out, lines(&["before", "a", "b"]));
}

#[test]
fn append_printable_of_nothing_changes_nothing() {
    let mut out = lines(&["before"]);
    append_printable(&mut out, &vec![]);
    assert_eq!(out, lines(&["before"]));
}

#[test]
fn append_printable_keeps_an_entry_with_empty_text_that_is_not_blank() {
    let mut out = Vec::new();
    append_printable(&mut out, &vec![finding("")]);
    assert_eq!(out, lines(&[""]));
}

#[test]
fn modules_come_before_files_and_semantic_before_lowering() {
    let table = table_with_findings();
    assert_eq!(
        calculate_diags_for_file(&table, report_file(1)),
        Outcome::Diagnosed(lines(&[
            "semantic of 1\n",
            "lowering of 1\n",
            "semantic of 2\n",
            "lowering of 2\n",
            "syntax of 1\n",
            "syntax of 2, first\n",
            "syntax of 2, second\n",
        ]))
    );
}

#[test]
fn unavailable_diagnostics_count_as_none() {
    let mut table = Table::new();
    table.add_file(FileRow {
        file: report_file(1),
        on_disk: true,
        modules: Some(vec![ModuleHandle::Submodule(1)]),
        syntax: vec![],
    });
    table.add_module(ModuleRow {
        module: ModuleHandle::Submodule(1),
        main_file: Some(report_file(1)),
        files: Some(vec![report_file(1)]),
        semantic: None,
        lowering: Some(vec![finding("lowering\n")]),
    });
    assert_eq!(
        calculate_diags_for_file(&table, report_file(1)),
        Outcome::Diagnosed(lines(&["lowering\n"]))
    );
}

#[test]
fn blank_entries_are_suppressed_in_a_report() {
    let mut table = Table::new();
    table.add_file(FileRow {
        file: report_file(1),
        on_disk: true,
        modules: Some(vec![ModuleHandle::Submodule(1)]),
        syntax: vec![blank_finding("error: "), finding("kept syntax\n")],
    });
    table.add_module(ModuleRow {
        module: ModuleHandle::Submodule(1),
        main_file: Some(report_file(1)),
        files: Some(vec![report_file(1)]),
        semantic: Some(vec![blank_finding("warning: ")]),
        lowering: Some(vec![finding("kept lowering\n"), blank_finding("error: ")]),
    });
    assert_eq!(
        calculate_diags_for_file(&table, report_file(1)),
        Outcome::Diagnosed(lines(&["kept lowering\n", "kept syntax\n"]))
    );
}

#[test]
fn clean_root_is_diagnosed_with_nothing() {
    let mut table = Table::new();
    table.add_file(FileRow { file: report_file(1), on_disk: true, modules: Some(vec![]), syntax: vec![] });
    assert_eq!(calculate_diags_for_file(&table, report_file(1)), Outcome::Diagnosed(vec![]));
}

#[test]
fn root_with_failing_closure_is_skipped() {
    let mut table = table_with_findings();
    table.add_file(FileRow {
        file: report_file(3),
        on_disk: true,
        modules: Some(vec![ModuleHandle::Submodule(9)]),
        syntax: vec![finding("never shown\n")],
    });
    assert_eq!(calculate_diags_for_file(&table, report_file(3)), Outcome::Skipped);
}

#[test]
fn skipped_root_differs_from_a_clean_root() {
    assert_ne!(Outcome::Skipped, Outcome::Diagnosed(vec![]));
    assert_eq!(SKIPPED_ROOT_MESSAGE, "error during diagnostics calculation");
}

#[test]
fn failing_root_does_not_stop_the_batch() {
    let mut table = Table::new();
    for raw in [1u32, 3u32] {
        table.add_file(FileRow {
            file: report_file(raw),
            on_disk: true,
            modules: Some(vec![]),
            syntax: vec![finding(&format!("syntax of {raw}\n"))],
        });
    }
    // Root 2 declares a module that does not resolve.
    table.add_file(FileRow {
        file: report_file(2),
        on_disk: true,
        modules: Some(vec![ModuleHandle::Submodule(7)]),
        syntax: vec![finding("syntax of 2\n")],
    });
    let batch = vec![report_file(1), report_file(2), report_file(3)];
    let outcomes = calculate_diags_for_batch(&table, &batch);
    assert_eq!(
        outcomes,
        vec![
            Outcome::Diagnosed(lines(&["syntax of 1\n"])),
            Outcome::Skipped,
            Outcome::Diagnosed(lines(&["syntax of 3\n"])),
        ]
    );
    assert_eq!(outcomes.iter().filter(|o| **o == Outcome::Skipped).count(), 1);
}

#[test]
fn empty_batch_has_no_outcomes() {
    assert!(calculate_diags_for_batch(&Table::new(), &[]).is_empty());
}

#[test]
fn batch_of_failing_roots_is_skipped_root_by_root() {
    let batch = vec![report_file(1), report_file(2)];
    assert_eq!(
        calculate_diags_for_batch(&Table::new(), &batch),
        vec![Outcome::Skipped, Outcome::Skipped]
    );
}

#[test]
fn same_root_twice_in_a_batch_is_diagnosed_twice() {
    let table = table_with_findings();
    let batch = vec![report_file(2), report_file(2)];
    let expected = Outcome::Diagnosed(lines(&[
        "semantic of 2\n",
        "lowering of 2\n",
        "syntax of 2, first\n",
        "syntax of 2, second\n",
    ]));
    let outcomes = calculate_diags_for_batch(&table, &batch);
    assert_eq!(outcomes.len(), 2);
    assert_eq!(outcomes[0], expected);
    assert_eq!(outcomes[1], expected);
}

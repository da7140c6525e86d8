use demo_ls::diagnostics::closure::file_and_subfiles_with_corresponding_modules;
use demo_ls::handles::{CrateHandle, FileHandle, ModuleHandle};
use demo_ls::table::{FileRow, ModuleRow, Table};

fn closure_file(raw: u32) -> FileHandle {
    FileHandle { raw }
}

fn closure_module(raw: u32) -> ModuleHandle {
    ModuleHandle::Submodule(raw)
}

fn closure_file_row(raw: u32, on_disk: bool, modules: Option<Vec<ModuleHandle>>) -> FileRow {
    FileRow { file: closure_file(raw), on_disk, modules, syntax: vec![] }
}

fn closure_module_row(module: ModuleHandle, files: Option<Vec<FileHandle>>) -> ModuleRow {
    ModuleRow { module, main_file: None, files, semantic: None, lowering: None }
}

fn sorted_files(mut files: Vec<FileHandle>) -> Vec<u32> {
    files.sort_by_key(|f| f.raw);
    files.iter().map(|f| f.raw).collect()
}

/// File F declares M1 and M2; M1 is backed by F alone, M2 by the generated
/// file G, which declares M2 again.
fn table_with_generated_file() -> Table {
    let mut table = Table::new();
    let m1 = ModuleHandle::CrateRoot(CrateHandle { raw: 0 });
    let m2 = closure_module(0);
    table.add_file(closure_file_row(1, true, Some(vec![m1, m2])));
    table.add_file(closure_file_row(2, false, Some(vec![m2])));
    table.add_module(closure_module_row(m1, Some(vec![closure_file(1)])));
    table.add_module(closure_module_row(m2, Some(vec![closure_file(2)])));
    table
}

#[test]
fn generated_file_and_its_module_are_in_the_closure() {
    let table = table_with_generated_file();
    let (files, modules) =
        file_and_subfiles_with_corresponding_modules(&table, closure_file(1)).unwrap();
    assert_eq!(sorted_files(files), vec![1, 2]);
    assert_eq!(modules.len(), 2);
    assert!(modules.contains(&ModuleHandle::CrateRoot(CrateHandle { raw: 0 })));
    assert!(modules.contains(&closure_module(0)));
}

#[test]
fn root_comes_first_in_the_closure() {
    let table = table_with_generated_file();
    let (files, _) = file_and_subfiles_with_corresponding_modules(&table, closure_file(1)).unwrap();
    assert_eq!(files[0], closure_file(1));
}

#[test]
fn root_without_modules_is_its_whole_closure() {
    let mut table = Table::new();
    table.add_file(closure_file_row(9, true, Some(vec![])));
    let (files, modules) =
        file_and_subfiles_with_corresponding_modules(&table, closure_file(9)).unwrap();
    assert_eq!(files, vec![closure_file(9)]);
    assert!(modules.is_empty());
}

#[test]
fn unknown_root_has_no_closure() {
    let table = Table::new();
    assert_eq!(file_and_subfiles_with_corresponding_modules(&table, closure_file(3)), None);
}

#[test]
fn root_whose_modules_do_not_resolve_has_no_closure() {
    let mut table = Table::new();
    table.add_file(closure_file_row(1, true, None));
    assert_eq!(file_and_subfiles_with_corresponding_modules(&table, closure_file(1)), None);
}

#[test]
fn module_without_files_query_fails_the_closure() {
    let mut table = Table::new();
    table.add_file(closure_file_row(1, true, Some(vec![closure_module(5)])));
    table.add_module(closure_module_row(closure_module(5), None));
    assert_eq!(file_and_subfiles_with_corresponding_modules(&table, closure_file(1)), None);
}

#[test]
fn module_without_row_fails_the_closure() {
    let mut table = Table::new();
    table.add_file(closure_file_row(1, true, Some(vec![closure_module(5)])));
    assert_eq!(file_and_subfiles_with_corresponding_modules(&table, closure_file(1)), None);
}

#[test]
fn failure_deep_in_the_closure_fails_the_whole_closure() {
    let mut table = Table::new();
    table.add_file(closure_file_row(1, true, Some(vec![closure_module(1)])));
    table.add_module(closure_module_row(
        closure_module(1),
        Some(vec![closure_file(1), closure_file(2)]),
    ));
    table.add_file(closure_file_row(2, false, Some(vec![closure_module(2)])));
    table.add_module(closure_module_row(closure_module(2), Some(vec![closure_file(3)])));
    // File 3 is listed by module 2 but has no row: its query fails.
    assert_eq!(file_and_subfiles_with_corresponding_modules(&table, closure_file(1)), None);
}

#[test]
fn failure_outside_the_closure_does_not_matter() {
    let mut table = table_with_generated_file();
    table.add_file(closure_file_row(7, true, None));
    table.add_module(closure_module_row(closure_module(70), None));
    assert!(file_and_subfiles_with_corresponding_modules(&table, closure_file(1)).is_some());
}

/// A chain of `length` generated files below the root 0: file `i` declares
/// module `i`, which is backed by file `i` and by file `i + 1`.
fn chain_table(length: u32) -> Table {
    let mut table = Table::new();
    for i in 0..length {
        table.add_file(closure_file_row(i, i == 0, Some(vec![closure_module(i)])));
        table.add_module(closure_module_row(
            closure_module(i),
            Some(vec![closure_file(i), closure_file(i + 1)]),
        ));
    }
    table.add_file(closure_file_row(length, false, Some(vec![])));
    table
}

#[test]
fn deep_chain_is_visited_once_per_file() {
    let length = 500;
    let table = chain_table(length);
    let (files, modules) =
        file_and_subfiles_with_corresponding_modules(&table, closure_file(0)).unwrap();
    assert_eq!(sorted_files(files.clone()), (0..=length).collect::<Vec<u32>>());
    assert_eq!(files.len(), length as usize + 1);
    assert_eq!(modules.len(), length as usize);
    // Breadth first along a chain: the files come in the order of their depth.
    assert_eq!(files.iter().map(|f| f.raw).collect::<Vec<u32>>(), (0..=length).collect::<Vec<u32>>());
}

#[test]
fn chain_of_length_zero_is_the_root_alone() {
    let table = chain_table(0);
    let (files, modules) =
        file_and_subfiles_with_corresponding_modules(&table, closure_file(0)).unwrap();
    assert_eq!(files, vec![closure_file(0)]);
    assert!(modules.is_empty());
}

#[test]
fn cycle_between_files_and_modules_terminates() {
    let mut table = Table::new();
    table.add_file(closure_file_row(1, true, Some(vec![closure_module(1), closure_module(2)])));
    table.add_file(closure_file_row(2, false, Some(vec![closure_module(2), closure_module(1)])));
    table.add_module(closure_module_row(
        closure_module(1),
        Some(vec![closure_file(1), closure_file(2)]),
    ));
    table.add_module(closure_module_row(
        closure_module(2),
        Some(vec![closure_file(2), closure_file(1)]),
    ));
    let (files, modules) =
        file_and_subfiles_with_corresponding_modules(&table, closure_file(1)).unwrap();
    assert_eq!(sorted_files(files), vec![1, 2]);
    assert_eq!(modules, vec![closure_module(1), closure_module(2)]);
}

#[test]
fn repeated_entries_in_an_answer_are_listed_once() {
    let mut table = Table::new();
    table.add_file(closure_file_row(
        1,
        true,
        Some(vec![closure_module(1), closure_module(1), closure_module(1)]),
    ));
    table.add_module(closure_module_row(
        closure_module(1),
        Some(vec![closure_file(1), closure_file(1)]),
    ));
    let (files, modules) =
        file_and_subfiles_with_corresponding_modules(&table, closure_file(1)).unwrap();
    assert_eq!(files, vec![closure_file(1)]);
    assert_eq!(modules, vec![closure_module(1)]);
}

#[test]
fn crate_root_and_submodule_of_one_number_are_two_modules() {
    let root_module = ModuleHandle::CrateRoot(CrateHandle { raw: 4 });
    let submodule = ModuleHandle::Submodule(4);
    let mut table = Table::new();
    table.add_file(closure_file_row(1, true, Some(vec![root_module, submodule])));
    table.add_module(closure_module_row(root_module, Some(vec![closure_file(1)])));
    table.add_module(closure_module_row(submodule, Some(vec![closure_file(2)])));
    table.add_file(closure_file_row(2, false, Some(vec![submodule])));
    let (files, modules) =
        file_and_subfiles_with_corresponding_modules(&table, closure_file(1)).unwrap();
    assert_eq!(sorted_files(files), vec![1, 2]);
    assert_eq!(modules, vec![root_module, submodule]);
}

#[test]
fn closure_does_not_depend_on_the_root_being_on_disk() {
    let table = table_with_generated_file();
    let (files, modules) =
        file_and_subfiles_with_corresponding_modules(&table, closure_file(2)).unwrap();
    assert_eq!(files, vec![closure_file(2)]);
    assert_eq!(modules, vec![closure_module(0)]);
}

#[test]
fn first_row_of_a_file_wins() {
    let mut table = Table::new();
    table.add_file(closure_file_row(1, true, Some(vec![])));
    table.add_file(closure_file_row(1, true, None));
    assert!(file_and_subfiles_with_corresponding_modules(&table, closure_file(1)).is_some());
}

#[test]
fn largest_raw_numbers_are_handled() {
    let mut table = Table::new();
    let module = ModuleHandle::Submodule(u32::MAX);
    let other = ModuleHandle::CrateRoot(CrateHandle { raw: u32::MAX });
    table.add_file(closure_file_row(u32::MAX, true, Some(vec![module, other])));
    table.add_module(closure_module_row(module, Some(vec![closure_file(u32::MAX)])));
    table.add_module(closure_module_row(other, Some(vec![])));
    let (files, modules) =
        file_and_subfiles_with_corresponding_modules(&table, closure_file(u32::MAX)).unwrap();
    assert_eq!(files, vec![closure_file(u32::MAX)]);
    assert_eq!(modules, vec![module, other]);
}

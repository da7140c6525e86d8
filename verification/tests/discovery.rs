use demo_ls::diagnostics::discovery::find_all_files_from_all_crates;
use demo_ls::handles::{CrateHandle, FileHandle, ModuleHandle};
use demo_ls::table::{CrateRow, FileRow, ModuleRow, Table};

fn discovery_crate(raw: u32) -> CrateHandle {
    CrateHandle { raw }
}

fn discovery_file(raw: u32) -> FileHandle {
    FileHandle { raw }
}

fn discovery_module_row(module: ModuleHandle, main_file: Option<u32>) -> ModuleRow {
    ModuleRow {
        module,
        main_file: main_file.map(discovery_file),
        files: main_file.map(|raw| vec![discovery_file(raw)]),
        semantic: None,
        lowering: None,
    }
}

fn discovery_file_row(raw: u32, on_disk: bool) -> FileRow {
    FileRow { file: discovery_file(raw), on_disk, modules: Some(vec![]), syntax: vec![] }
}

fn discovery_raws(mut files: Vec<FileHandle>) -> Vec<u32> {
    files.sort_by_key(|f| f.raw);
    files.iter().map(|f| f.raw).collect()
}

#[test]
fn empty_table_has_no_roots() {
    assert!(find_all_files_from_all_crates(&Table::new()).is_empty());
}

#[test]
fn on_disk_main_files_of_all_crates_are_found() {
    let mut table = Table::new();
    let first = ModuleHandle::CrateRoot(discovery_crate(0));
    let second = ModuleHandle::CrateRoot(discovery_crate(1));
    table.add_crate(CrateRow { krate: discovery_crate(0), modules: vec![first] });
    table.add_crate(CrateRow { krate: discovery_crate(1), modules: vec![second] });
    table.add_module(discovery_module_row(first, Some(10)));
    table.add_module(discovery_module_row(second, Some(20)));
    table.add_file(discovery_file_row(10, true));
    table.add_file(discovery_file_row(20, true));
    assert_eq!(discovery_raws(find_all_files_from_all_crates(&table)), vec![10, 20]);
}

#[test]
fn generated_main_files_are_not_roots() {
    let mut table = Table::new();
    let root = ModuleHandle::CrateRoot(discovery_crate(0));
    let generated = ModuleHandle::Submodule(1);
    table.add_crate(CrateRow { krate: discovery_crate(0), modules: vec![root, generated] });
    table.add_module(discovery_module_row(root, Some(10)));
    table.add_module(discovery_module_row(generated, Some(11)));
    table.add_file(discovery_file_row(10, true));
    table.add_file(discovery_file_row(11, false));
    assert_eq!(discovery_raws(find_all_files_from_all_crates(&table)), vec![10]);
}

#[test]
fn module_without_main_file_is_passed_over() {
    let mut table = Table::new();
    let root = ModuleHandle::CrateRoot(discovery_crate(0));
    let synthetic = ModuleHandle::Submodule(1);
    let unlisted = ModuleHandle::Submodule(2);
    table.add_crate(CrateRow {
        krate: discovery_crate(0),
        modules: vec![synthetic, unlisted, root],
    });
    table.add_module(discovery_module_row(synthetic, None));
    table.add_module(discovery_module_row(root, Some(10)));
    table.add_file(discovery_file_row(10, true));
    assert_eq!(discovery_raws(find_all_files_from_all_crates(&table)), vec![10]);
}

#[test]
fn file_shared_by_inline_modules_is_listed_once() {
    let mut table = Table::new();
    let root = ModuleHandle::CrateRoot(discovery_crate(0));
    let inline = ModuleHandle::Submodule(1);
    let deeper = ModuleHandle::Submodule(2);
    table.add_crate(CrateRow { krate: discovery_crate(0), modules: vec![root, inline, deeper] });
    table.add_module(discovery_module_row(root, Some(10)));
    table.add_module(discovery_module_row(inline, Some(10)));
    table.add_module(discovery_module_row(deeper, Some(10)));
    table.add_file(discovery_file_row(10, true));
    assert_eq!(find_all_files_from_all_crates(&table), vec![discovery_file(10)]);
}

#[test]
fn file_shared_by_two_crates_is_listed_once() {
    let mut table = Table::new();
    let first = ModuleHandle::CrateRoot(discovery_crate(0));
    let second = ModuleHandle::CrateRoot(discovery_crate(1));
    table.add_crate(CrateRow { krate: discovery_crate(0), modules: vec![first] });
    table.add_crate(CrateRow { krate: discovery_crate(1), modules: vec![second] });
    table.add_module(discovery_module_row(first, Some(10)));
    table.add_module(discovery_module_row(second, Some(10)));
    table.add_file(discovery_file_row(10, true));
    assert_eq!(find_all_files_from_all_crates(&table), vec![discovery_file(10)]);
}

#[test]
fn modules_of_no_loaded_crate_are_not_searched() {
    let mut table = Table::new();
    table.add_module(discovery_module_row(ModuleHandle::Submodule(1), Some(10)));
    table.add_file(discovery_file_row(10, true));
    assert!(find_all_files_from_all_crates(&table).is_empty());
}

#[test]
fn main_file_without_row_is_not_on_disk() {
    let mut table = Table::new();
    let root = ModuleHandle::CrateRoot(discovery_crate(0));
    table.add_crate(CrateRow { krate: discovery_crate(0), modules: vec![root] });
    table.add_module(discovery_module_row(root, Some(10)));
    assert!(find_all_files_from_all_crates(&table).is_empty());
}

#[test]
fn discovery_is_idempotent() {
    let mut table = Table::new();
    for krate in 0..5u32 {
        let root = ModuleHandle::CrateRoot(discovery_crate(krate));
        let inner = ModuleHandle::Submodule(krate);
        table.add_crate(CrateRow { krate: discovery_crate(krate), modules: vec![root, inner] });
        table.add_module(discovery_module_row(root, Some(krate * 2)));
        table.add_module(discovery_module_row(inner, Some(krate * 2 + 1)));
        table.add_file(discovery_file_row(krate * 2, true));
        table.add_file(discovery_file_row(krate * 2 + 1, krate % 2 == 0));
    }
    let first = find_all_files_from_all_crates(&table);
    let second = find_all_files_from_all_crates(&table);
    assert_eq!(discovery_raws(first.clone()), discovery_raws(second));
    assert_eq!(discovery_raws(first), vec![0, 1, 2, 4, 5, 6, 8, 9]);
}

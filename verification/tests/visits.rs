use std::cell::RefCell;
use std::collections::HashMap;

use demo_ls::database::{Database, Finding, FindingView, Revision};
use demo_ls::diagnostics::closure::file_and_subfiles_with_corresponding_modules;
use demo_ls::handles::{CrateHandle, FileHandle, Handle, ModuleHandle};
use demo_ls::table::{FileRow, ModuleRow, Table};
use vstd::seq::Seq;

/// A table that counts how often each file and each module is expanded.
struct Counting {
    table: Table,
    file_queries: RefCell<HashMap<FileHandle, usize>>,
    module_queries: RefCell<HashMap<ModuleHandle, usize>>,
}

impl Revision for Counting {
    fn knows(&self, _: Handle) -> bool {
        unreachable!()
    }
    fn crates_view(&self) -> Seq<CrateHandle> {
        unreachable!()
    }
    fn crate_modules_view(&self, _: CrateHandle) -> Seq<ModuleHandle> {
        unreachable!()
    }
    fn main_file_view(&self, _: ModuleHandle) -> Option<FileHandle> {
        unreachable!()
    }
    fn on_disk_view(&self, _: FileHandle) -> bool {
        unreachable!()
    }
    fn declared_modules(&self, _: FileHandle) -> Option<Seq<ModuleHandle>> {
        unreachable!()
    }
    fn backing_files(&self, _: ModuleHandle) -> Option<Seq<FileHandle>> {
        unreachable!()
    }
    fn admits_semantic(&self, _: ModuleHandle, _: Option<Seq<FindingView>>) -> bool {
        unreachable!()
    }
    fn admits_lowering(&self, _: ModuleHandle, _: Option<Seq<FindingView>>) -> bool {
        unreachable!()
    }
    fn admits_syntax(&self, _: FileHandle, _: Seq<FindingView>) -> bool {
        unreachable!()
    }
}

impl Database for Counting {
    fn loaded_crates(&self) -> Vec<CrateHandle> {
        self.table.loaded_crates()
    }
    fn modules_of_crate(&self, krate: CrateHandle) -> Vec<ModuleHandle> {
        self.table.modules_of_crate(krate)
    }
    fn main_file_of(&self, module: ModuleHandle) -> Option<FileHandle> {
        self.table.main_file_of(module)
    }
    fn is_on_disk(&self, file: FileHandle) -> bool {
        self.table.is_on_disk(file)
    }
    fn modules_declared_in(&self, file: FileHandle) -> Option<Vec<ModuleHandle>> {
        *self.file_queries.borrow_mut().entry(file).or_insert(0) += 1;
        self.table.modules_declared_in(file)
    }
    fn files_backing(&self, module: ModuleHandle) -> Option<Vec<FileHandle>> {
        *self.module_queries.borrow_mut().entry(module).or_insert(0) += 1;
        self.table.files_backing(module)
    }
    fn semantic_diagnostics_of(&self, module: ModuleHandle) -> Option<Vec<Finding>> {
        self.table.semantic_diagnostics_of(module)
    }
    fn lowering_diagnostics_of(&self, module: ModuleHandle) -> Option<Vec<Finding>> {
        self.table.lowering_diagnostics_of(module)
    }
    fn syntax_diagnostics_of(&self, file: FileHandle) -> Vec<Finding> {
        self.table.syntax_diagnostics_of(file)
    }
    fn fork(&self) -> Self {
        Counting {
            table: self.table.fork(),
            file_queries: RefCell::new(HashMap::new()),
            module_queries: RefCell::new(HashMap::new()),
        }
    }
}

fn counting(table: Table) -> Counting {
    Counting {
        table,
        file_queries: RefCell::new(HashMap::new()),
        module_queries: RefCell::new(HashMap::new()),
    }
}

#[test]
fn every_file_and_module_of_a_deep_chain_is_expanded_once() {
    let length = 300u32;
    let mut table = Table::new();
    for i in 0..length {
        table.add_file(FileRow {
            file: FileHandle { raw: i },
            on_disk: i == 0,
            modules: Some(vec![ModuleHandle::Submodule(i)]),
            syntax: vec![],
        });
        table.add_module(ModuleRow {
            module: ModuleHandle::Submodule(i),
            main_file: Some(FileHandle { raw: i }),
            files: Some(vec![FileHandle { raw: i }, FileHandle { raw: i + 1 }]),
            semantic: None,
            lowering: None,
        });
    }
    table.add_file(FileRow {
        file: FileHandle { raw: length },
        on_disk: false,
        modules: Some(vec![]),
        syntax: vec![],
    });
    let db = counting(table);
    let (files, modules) =
        file_and_subfiles_with_corresponding_modules(&db, FileHandle { raw: 0 }).unwrap();
    assert_eq!(files.len(), length as usize + 1);
    assert_eq!(modules.len(), length as usize);
    let file_queries = db.file_queries.borrow();
    let module_queries = db.module_queries.borrow();
    assert_eq!(file_queries.len(), files.len());
    assert_eq!(module_queries.len(), modules.len());
    assert!(file_queries.values().all(|count| *count == 1));
    assert!(module_queries.values().all(|count| *count == 1));
}

#[test]
fn files_and_modules_of_a_tangle_are_expanded_once() {
    let mut table = Table::new();
    let everything: Vec<ModuleHandle> = (0..6).map(ModuleHandle::Submodule).collect();
    let every_file: Vec<FileHandle> = (0..6).map(|raw| FileHandle { raw }).collect();
    for raw in 0..6 {
        table.add_file(FileRow {
            file: FileHandle { raw },
            on_disk: raw == 0,
            modules: Some(everything.clone()),
            syntax: vec![],
        });
        table.add_module(ModuleRow {
            module: ModuleHandle::Submodule(raw),
            main_file: None,
            files: Some(every_file.clone()),
            semantic: None,
            lowering: None,
        });
    }
    let db = counting(table);
    let (files, modules) =
        file_and_subfiles_with_corresponding_modules(&db, FileHandle { raw: 0 }).unwrap();
    assert_eq!(files.len(), 6);
    assert_eq!(modules.len(), 6);
    assert!(db.file_queries.borrow().values().all(|count| *count == 1));
    assert!(db.module_queries.borrow().values().all(|count| *count == 1));
    assert_eq!(db.file_queries.borrow().len(), 6);
    assert_eq!(db.module_queries.borrow().len(), 6);
}

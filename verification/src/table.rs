//! A compilation database made of plain rows, held in memory.
//!
//! It answers each query from the first row that carries the handle asked for.
//! A file or module without a row does not resolve: the query on it fails.
//! Its diagnostics are the stored ones, so that a pass over a table can be
//! foretold to the letter.

use vstd::prelude::*;
use crate::database::{
    findings_view, optional_findings_view, optional_seq, Database, Finding, FindingView,
    Revision,
};
use crate::handles::{CrateHandle, FileHandle, Handle, ModuleHandle};

verus! {

/// A crate and its modules.
#[derive(Debug)]
pub struct CrateRow {
    pub krate: CrateHandle,
    pub modules: Vec<ModuleHandle>,
}

/// A module: its main file, the files that back it, and its diagnostics.
/// `None` stands for a query that fails or has nothing to give.
#[derive(Debug)]
pub struct ModuleRow {
    pub module: ModuleHandle,
    pub main_file: Option<FileHandle>,
    pub files: Option<Vec<FileHandle>>,
    pub semantic: Option<Vec<Finding>>,
    pub lowering: Option<Vec<Finding>>,
}

/// A file: whether it is on disk, the modules it declares, and its syntax
/// diagnostics.
#[derive(Debug)]
pub struct FileRow {
    pub file: FileHandle,
    pub on_disk: bool,
    pub modules: Option<Vec<ModuleHandle>>,
    pub syntax: Vec<Finding>,
}

/// The rows of a database.
#[derive(Debug)]
pub struct Table {
    pub crates: Vec<CrateRow>,
    pub modules: Vec<ModuleRow>,
    pub files: Vec<FileRow>,
}

/// A [`CrateRow`] with its list as a sequence.
pub struct CrateRowView {
    pub krate: CrateHandle,
    pub modules: Seq<ModuleHandle>,
}

/// A [`ModuleRow`] with its lists as sequences.
pub struct ModuleRowView {
    pub module: ModuleHandle,
    pub main_file: Option<FileHandle>,
    pub files: Option<Seq<FileHandle>>,
    pub semantic: Option<Seq<FindingView>>,
    pub lowering: Option<Seq<FindingView>>,
}

/// A [`FileRow`] with its lists as sequences.
pub struct FileRowView {
    pub file: FileHandle,
    pub on_disk: bool,
    pub modules: Option<Seq<ModuleHandle>>,
    pub syntax: Seq<FindingView>,
}

/// The rows of a [`Table`], as sequences of their views.
pub struct TableView {
    pub crates: Seq<CrateRowView>,
    pub modules: Seq<ModuleRowView>,
    pub files: Seq<FileRowView>,
}

impl View for CrateRow {
    type V = CrateRowView;

    open spec fn view(&self) -> CrateRowView {
        CrateRowView { krate: self.krate, modules: self.modules@ }
    }
}

impl View for ModuleRow {
    type V = ModuleRowView;

    open spec fn view(&self) -> ModuleRowView {
        ModuleRowView {
            module: self.module,
            main_file: self.main_file,
            files: optional_seq(self.files),
            semantic: optional_findings_view(self.semantic),
            lowering: optional_findings_view(self.lowering),
        }
    }
}

impl View for FileRow {
    type V = FileRowView;

    open spec fn view(&self) -> FileRowView {
        FileRowView {
            file: self.file,
            on_disk: self.on_disk,
            modules: optional_seq(self.modules),
            syntax: findings_view(self.syntax@),
        }
    }
}

impl View for Table {
    type V = TableView;

    open spec fn view(&self) -> TableView {
        TableView {
            crates: self.crates@.map_values(|row: CrateRow| row@),
            modules: self.modules@.map_values(|row: ModuleRow| row@),
            files: self.files@.map_values(|row: FileRow| row@),
        }
    }
}

/// The first row of the crate, if there is one.
pub open spec fn find_crate(rows: Seq<CrateRowView>, krate: CrateHandle) -> Option<CrateRowView>
    decreases rows.len(),
{
    if rows.len() == 0 {
        None
    } else if rows.first().krate == krate {
        Some(rows.first())
    } else {
        find_crate(rows.drop_first(), krate)
    }
}

/// The first row of the module, if there is one.
pub open spec fn find_module(rows: Seq<ModuleRowView>, module: ModuleHandle) -> Option<
    ModuleRowView,
>
    decreases rows.len(),
{
    if rows.len() == 0 {
        None
    } else if rows.first().module == module {
        Some(rows.first())
    } else {
        find_module(rows.drop_first(), module)
    }
}

/// The first row of the file, if there is one.
pub open spec fn find_file(rows: Seq<FileRowView>, file: FileHandle) -> Option<FileRowView>
    decreases rows.len(),
{
    if rows.len() == 0 {
        None
    } else if rows.first().file == file {
        Some(rows.first())
    } else {
        find_file(rows.drop_first(), file)
    }
}

/// A copy of a list of handles.
fn copy_of<T: Copy>(items: &Vec<T>) -> (copy: Vec<T>)
    ensures
        copy@ == items@,
{
    let mut copy: Vec<T> = Vec::new();
    let mut i: usize = 0;
    while i < items.len()
        invariant
            i <= items.len(),
            copy@ == items@.take(i as int),
        decreases items.len() - i,
    {
        copy.push(items[i]);
        proof {
            assert(copy@ =~= items@.take(i + 1));
        }
        i += 1;
    }
    proof {
        assert(items@.take(items.len() as int) =~= items@);
    }
    copy
}

/// A copy of an optional list of handles.
fn copy_of_optional<T: Copy>(items: &Option<Vec<T>>) -> (copy: Option<Vec<T>>)
    ensures
        optional_seq(copy) == optional_seq(*items),
{
    match items {
        Some(items) => Some(copy_of(items)),
        None => None,
    }
}

/// A copy of a list of findings, text for text.
fn copy_of_findings(findings: &Vec<Finding>) -> (copy: Vec<Finding>)
    ensures
        findings_view(copy@) == findings_view(findings@),
{
    let mut copy: Vec<Finding> = Vec::new();
    let mut i: usize = 0;
    while i < findings.len()
        invariant
            i <= findings.len(),
            copy.len() == i,
            forall|k: int| 0 <= k < i ==> (#[trigger] copy@[k])@ == findings@[k]@,
        decreases findings.len() - i,
    {
        let finding = Finding { text: findings[i].text.clone(), blank: findings[i].blank };
        assert(finding@ == findings@[i as int]@);
        copy.push(finding);
        i += 1;
    }
    proof {
        assert(findings_view(copy@) =~= findings_view(findings@));
    }
    copy
}

/// A copy of an optional list of findings.
fn copy_of_optional_findings(findings: &Option<Vec<Finding>>) -> (copy: Option<Vec<Finding>>)
    ensures
        optional_findings_view(copy) == optional_findings_view(*findings),
{
    match findings {
        Some(findings) => Some(copy_of_findings(findings)),
        None => None,
    }
}

impl Table {
    /// A table without rows: no crate is loaded, and nothing resolves.
    pub fn new() -> (table: Table)
        ensures
            table@.crates == Seq::<CrateRowView>::empty(),
            table@.modules == Seq::<ModuleRowView>::empty(),
            table@.files == Seq::<FileRowView>::empty(),
    {
        let table = Table { crates: Vec::new(), modules: Vec::new(), files: Vec::new() };
        proof {
            assert(table@.crates =~= Seq::<CrateRowView>::empty());
            assert(table@.modules =~= Seq::<ModuleRowView>::empty());
            assert(table@.files =~= Seq::<FileRowView>::empty());
        }
        table
    }

    /// Adds a row after those that are there.
    pub fn add_crate(&mut self, row: CrateRow)
        ensures
            final(self)@.crates == old(self)@.crates.push(row@),
            final(self)@.modules == old(self)@.modules,
            final(self)@.files == old(self)@.files,
    {
        self.crates.push(row);
        proof {
            assert(self@.crates =~= old(self)@.crates.push(row@));
        }
    }

    /// Adds a row after those that are there.
    pub fn add_module(&mut self, row: ModuleRow)
        ensures
            final(self)@.crates == old(self)@.crates,
            final(self)@.modules == old(self)@.modules.push(row@),
            final(self)@.files == old(self)@.files,
    {
        self.modules.push(row);
        proof {
            assert(self@.modules =~= old(self)@.modules.push(row@));
        }
    }

    /// Adds a row after those that are there.
    pub fn add_file(&mut self, row: FileRow)
        ensures
            final(self)@.crates == old(self)@.crates,
            final(self)@.modules == old(self)@.modules,
            final(self)@.files == old(self)@.files.push(row@),
    {
        self.files.push(row);
        proof {
            assert(self@.files =~= old(self)@.files.push(row@));
        }
    }

    /// The position of the first row of the crate.
    fn crate_position(&self, krate: CrateHandle) -> (at: Option<usize>)
        ensures
            match at {
                Some(i) => i < self.crates.len() && find_crate(self@.crates, krate) == Some(
                    self.crates@[i as int]@,
                ),
                None => find_crate(self@.crates, krate) is None,
            },
    {
        let ghost rows = self@.crates;
        let mut i: usize = 0;
        proof {
            assert(rows.skip(0) =~= rows);
        }
        while i < self.crates.len()
            invariant
                i <= self.crates.len(),
                rows == self@.crates,
                find_crate(rows, krate) == find_crate(rows.skip(i as int), krate),
            decreases self.crates.len() - i,
        {
            proof {
                assert(rows.skip(i as int).first() == self.crates@[i as int]@);
                assert(rows.skip(i as int).drop_first() =~= rows.skip(i + 1));
            }
            if self.crates[i].krate == krate {
                return Some(i);
            }
            i += 1;
        }
        None
    }

    /// The position of the first row of the module.
    fn module_position(&self, module: ModuleHandle) -> (at: Option<usize>)
        ensures
            match at {
                Some(i) => i < self.modules.len() && find_module(self@.modules, module) == Some(
                    self.modules@[i as int]@,
                ),
                None => find_module(self@.modules, module) is None,
            },
    {
        let ghost rows = self@.modules;
        let mut i: usize = 0;
        proof {
            assert(rows.skip(0) =~= rows);
        }
        while i < self.modules.len()
            invariant
                i <= self.modules.len(),
                rows == self@.modules,
                find_module(rows, module) == find_module(rows.skip(i as int), module),
            decreases self.modules.len() - i,
        {
            proof {
                assert(rows.skip(i as int).first() == self.modules@[i as int]@);
                assert(rows.skip(i as int).drop_first() =~= rows.skip(i + 1));
            }
            if self.modules[i].module == module {
                return Some(i);
            }
            i += 1;
        }
        None
    }

    /// The position of the first row of the file.
    fn file_position(&self, file: FileHandle) -> (at: Option<usize>)
        ensures
            match at {
                Some(i) => i < self.files.len() && find_file(self@.files, file) == Some(
                    self.files@[i as int]@,
                ),
                None => find_file(self@.files, file) is None,
            },
    {
        let ghost rows = self@.files;
        let mut i: usize = 0;
        proof {
            assert(rows.skip(0) =~= rows);
        }
        while i < self.files.len()
            invariant
                i <= self.files.len(),
                rows == self@.files,
                find_file(rows, file) == find_file(rows.skip(i as int), file),
            decreases self.files.len() - i,
        {
            proof {
                assert(rows.skip(i as int).first() == self.files@[i as int]@);
                assert(rows.skip(i as int).drop_first() =~= rows.skip(i + 1));
            }
            if self.files[i].file == file {
                return Some(i);
            }
            i += 1;
        }
        None
    }
}

impl Revision for Table {
    /// A table looks nothing up by position: it takes any handle.
    open spec fn knows(&self, handle: Handle) -> bool {
        true
    }

    open spec fn crates_view(&self) -> Seq<CrateHandle> {
        self@.crates.map_values(|row: CrateRowView| row.krate)
    }

    open spec fn crate_modules_view(&self, krate: CrateHandle) -> Seq<ModuleHandle> {
        match find_crate(self@.crates, krate) {
            Some(row) => row.modules,
            None => Seq::empty(),
        }
    }

    open spec fn main_file_view(&self, module: ModuleHandle) -> Option<FileHandle> {
        match find_module(self@.modules, module) {
            Some(row) => row.main_file,
            None => None,
        }
    }

    open spec fn on_disk_view(&self, file: FileHandle) -> bool {
        find_file(self@.files, file) matches Some(row) && row.on_disk
    }

    open spec fn declared_modules(&self, file: FileHandle) -> Option<Seq<ModuleHandle>> {
        match find_file(self@.files, file) {
            Some(row) => row.modules,
            None => None,
        }
    }

    open spec fn backing_files(&self, module: ModuleHandle) -> Option<Seq<FileHandle>> {
        match find_module(self@.modules, module) {
            Some(row) => row.files,
            None => None,
        }
    }

    open spec fn admits_semantic(
        &self,
        module: ModuleHandle,
        answer: Option<Seq<FindingView>>,
    ) -> bool {
        answer == match find_module(self@.modules, module) {
            Some(row) => row.semantic,
            None => None,
        }
    }

    open spec fn admits_lowering(
        &self,
        module: ModuleHandle,
        answer: Option<Seq<FindingView>>,
    ) -> bool {
        answer == match find_module(self@.modules, module) {
            Some(row) => row.lowering,
            None => None,
        }
    }

    open spec fn admits_syntax(&self, file: FileHandle, answer: Seq<FindingView>) -> bool {
        answer == match find_file(self@.files, file) {
            Some(row) => row.syntax,
            None => Seq::empty(),
        }
    }
}

impl Database for Table {
    fn loaded_crates(&self) -> (crates: Vec<CrateHandle>) {
        let mut crates: Vec<CrateHandle> = Vec::new();
        let mut i: usize = 0;
        while i < self.crates.len()
            invariant
                i <= self.crates.len(),
                crates@ == self.crates_view().take(i as int),
            decreases self.crates.len() - i,
        {
            crates.push(self.crates[i].krate);
            proof {
                assert(crates@ =~= self.crates_view().take(i + 1));
            }
            i += 1;
        }
        proof {
            assert(self.crates_view().take(self.crates.len() as int) =~= self.crates_view());
        }
        crates
    }

    fn modules_of_crate(&self, krate: CrateHandle) -> (modules: Vec<ModuleHandle>) {
        match self.crate_position(krate) {
            Some(i) => copy_of(&self.crates[i].modules),
            None => Vec::new(),
        }
    }

    fn main_file_of(&self, module: ModuleHandle) -> (file: Option<FileHandle>) {
        match self.module_position(module) {
            Some(i) => self.modules[i].main_file,
            None => None,
        }
    }

    fn is_on_disk(&self, file: FileHandle) -> (on_disk: bool) {
        match self.file_position(file) {
            Some(i) => self.files[i].on_disk,
            None => false,
        }
    }

    fn modules_declared_in(&self, file: FileHandle) -> (modules: Option<Vec<ModuleHandle>>) {
        match self.file_position(file) {
            Some(i) => copy_of_optional(&self.files[i].modules),
            None => None,
        }
    }

    fn files_backing(&self, module: ModuleHandle) -> (files: Option<Vec<FileHandle>>) {
        match self.module_position(module) {
            Some(i) => copy_of_optional(&self.modules[i].files),
            None => None,
        }
    }

    fn semantic_diagnostics_of(&self, module: ModuleHandle) -> (answer: Option<Vec<Finding>>) {
        match self.module_position(module) {
            Some(i) => copy_of_optional_findings(&self.modules[i].semantic),
            None => None,
        }
    }

    fn lowering_diagnostics_of(&self, module: ModuleHandle) -> (answer: Option<Vec<Finding>>) {
        match self.module_position(module) {
            Some(i) => copy_of_optional_findings(&self.modules[i].lowering),
            None => None,
        }
    }

    fn syntax_diagnostics_of(&self, file: FileHandle) -> (answer: Vec<Finding>) {
        match self.file_position(file) {
            Some(i) => copy_of_findings(&self.files[i].syntax),
            None => {
                let nothing: Vec<Finding> = Vec::new();
                assert(findings_view(nothing@) =~= Seq::empty());
                nothing
            },
        }
    }

    /// A copy of the table, row for row.
    fn fork(&self) -> (other: Table)
        ensures
            other@ == self@,
    {
        let mut other = Table::new();
        let mut i: usize = 0;
        while i < self.crates.len()
            invariant
                i <= self.crates.len(),
                other@.crates == self@.crates.take(i as int),
                other@.modules == Seq::<ModuleRowView>::empty(),
                other@.files == Seq::<FileRowView>::empty(),
            decreases self.crates.len() - i,
        {
            let row = &self.crates[i];
            other.add_crate(CrateRow { krate: row.krate, modules: copy_of(&row.modules) });
            proof {
                assert(other@.crates =~= self@.crates.take(i + 1));
            }
            i += 1;
        }
        let mut j: usize = 0;
        while j < self.modules.len()
            invariant
                j <= self.modules.len(),
                other@.crates == self@.crates.take(self.crates.len() as int),
                other@.modules == self@.modules.take(j as int),
                other@.files == Seq::<FileRowView>::empty(),
            decreases self.modules.len() - j,
        {
            let row = &self.modules[j];
            other.add_module(
                ModuleRow {
                    module: row.module,
                    main_file: row.main_file,
                    files: copy_of_optional(&row.files),
                    semantic: copy_of_optional_findings(&row.semantic),
                    lowering: copy_of_optional_findings(&row.lowering),
                },
            );
            proof {
                assert(other@.modules =~= self@.modules.take(j + 1));
            }
            j += 1;
        }
        let mut k: usize = 0;
        while k < self.files.len()
            invariant
                k <= self.files.len(),
                other@.crates == self@.crates.take(self.crates.len() as int),
                other@.modules == self@.modules.take(self.modules.len() as int),
                other@.files == self@.files.take(k as int),
            decreases self.files.len() - k,
        {
            let row = &self.files[k];
            other.add_file(
                FileRow {
                    file: row.file,
                    on_disk: row.on_disk,
                    modules: copy_of_optional(&row.modules),
                    syntax: copy_of_findings(&row.syntax),
                },
            );
            proof {
                assert(other@.files =~= self@.files.take(k + 1));
            }
            k += 1;
        }
        proof {
            assert(self@.crates.take(self.crates.len() as int) =~= self@.crates);
            assert(self@.modules.take(self.modules.len() as int) =~= self@.modules);
            assert(self@.files.take(self.files.len() as int) =~= self@.files);
        }
        other
    }
}

} // verus!

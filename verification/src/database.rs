//! The read queries that the diagnostics pass puts to a compilation database.
//!
//! A [`Database`] is an immutable view at one revision. What it answers to the
//! structural queries is fixed by the spec functions of [`Revision`], so that two
//! runs over one view can be compared. Its diagnostics are described by relations
//! only: a live compiler formats them under the influence of its process
//! environment, so the same view may word them differently from one call to the
//! next.

use vstd::prelude::*;
use crate::handles::{CrateHandle, FileHandle, Handle, ModuleHandle};

verus! {

/// One formatted diagnostic: the text to print, and whether its message is empty.
#[derive(Debug)]
pub struct Finding {
    pub text: String,
    pub blank: bool,
}

/// A [`Finding`] with its text as a sequence of characters.
pub struct FindingView {
    pub text: Seq<char>,
    pub blank: bool,
}

impl View for Finding {
    type V = FindingView;

    open spec fn view(&self) -> FindingView {
        FindingView { text: self.text@, blank: self.blank }
    }
}

/// The views of a list of findings, in order.
pub open spec fn findings_view(findings: Seq<Finding>) -> Seq<FindingView> {
    findings.map_values(|f: Finding| f@)
}

/// The views of an optional list of findings.
pub open spec fn optional_findings_view(answer: Option<Vec<Finding>>) -> Option<Seq<FindingView>> {
    match answer {
        Some(findings) => Some(findings_view(findings@)),
        None => None,
    }
}

/// The view of an optional vector.
pub open spec fn optional_seq<T>(answer: Option<Vec<T>>) -> Option<Seq<T>> {
    match answer {
        Some(items) => Some(items@),
        None => None,
    }
}

/// What a compilation database holds at one revision.
pub trait Revision: Sized {
    /// Whether this database issued `handle`. Queries that look a handle up
    /// accept only handles that it issued.
    spec fn knows(&self, handle: Handle) -> bool;

    /// The loaded crates.
    spec fn crates_view(&self) -> Seq<CrateHandle>;

    /// The modules of a crate, nested ones included.
    spec fn crate_modules_view(&self, krate: CrateHandle) -> Seq<ModuleHandle>;

    /// The main file of a module, if it resolves.
    spec fn main_file_view(&self, module: ModuleHandle) -> Option<FileHandle>;

    /// Whether a file is backed by a path on disk.
    spec fn on_disk_view(&self, file: FileHandle) -> bool;

    /// The modules that a file declares directly, or `None` where the query fails.
    spec fn declared_modules(&self, file: FileHandle) -> Option<Seq<ModuleHandle>>;

    /// The files that back a module, or `None` where the query fails.
    spec fn backing_files(&self, module: ModuleHandle) -> Option<Seq<FileHandle>>;

    /// Whether `answer` is one that the semantic diagnostics query may give for `module`.
    spec fn admits_semantic(&self, module: ModuleHandle, answer: Option<Seq<FindingView>>) -> bool;

    /// Whether `answer` is one that the lowering diagnostics query may give for `module`.
    spec fn admits_lowering(&self, module: ModuleHandle, answer: Option<Seq<FindingView>>) -> bool;

    /// Whether `answer` is one that the syntax diagnostics query may give for `file`.
    spec fn admits_syntax(&self, file: FileHandle, answer: Seq<FindingView>) -> bool;
}

/// Whether every item of `items` is a handle that `db` issued.
pub open spec fn knows_modules<D: Revision>(db: &D, items: Seq<ModuleHandle>) -> bool {
    forall|i: int| 0 <= i < items.len() ==> db.knows(Handle::Module(#[trigger] items[i]))
}

/// Whether every item of `items` is a handle that `db` issued.
pub open spec fn knows_files<D: Revision>(db: &D, items: Seq<FileHandle>) -> bool {
    forall|i: int| 0 <= i < items.len() ==> db.knows(Handle::File(#[trigger] items[i]))
}

/// Whether every item of `items` is a handle that `db` issued.
pub open spec fn knows_crates<D: Revision>(db: &D, items: Seq<CrateHandle>) -> bool {
    forall|i: int| 0 <= i < items.len() ==> db.knows(Handle::Crate(#[trigger] items[i]))
}

/// Whether two views answer every query alike.
pub open spec fn same_answers<D: Revision>(a: &D, b: &D) -> bool {
    &&& forall|h: Handle| #[trigger] a.knows(h) == b.knows(h)
    &&& a.crates_view() == b.crates_view()
    &&& forall|c: CrateHandle| #[trigger] a.crate_modules_view(c) == b.crate_modules_view(c)
    &&& forall|m: ModuleHandle| #[trigger] a.main_file_view(m) == b.main_file_view(m)
    &&& forall|f: FileHandle| #[trigger] a.on_disk_view(f) == b.on_disk_view(f)
    &&& forall|f: FileHandle| #[trigger] a.declared_modules(f) == b.declared_modules(f)
    &&& forall|m: ModuleHandle| #[trigger] a.backing_files(m) == b.backing_files(m)
    &&& forall|m: ModuleHandle, r: Option<Seq<FindingView>>| #[trigger]
        a.admits_semantic(m, r) == b.admits_semantic(m, r)
    &&& forall|m: ModuleHandle, r: Option<Seq<FindingView>>| #[trigger]
        a.admits_lowering(m, r) == b.admits_lowering(m, r)
    &&& forall|f: FileHandle, r: Seq<FindingView>| #[trigger]
        a.admits_syntax(f, r) == b.admits_syntax(f, r)
}

/// An immutable, fixed-revision read view of a compilation database.
///
/// The pass only reads. A query that looks a handle up takes only handles
/// that the database issued, and every handle that a query returns is one.
pub trait Database: Revision {
    /// The loaded crates.
    fn loaded_crates(&self) -> (crates: Vec<CrateHandle>)
        ensures
            crates@ == self.crates_view(),
            knows_crates(self, crates@),
    ;

    /// The modules of a crate, nested ones included.
    fn modules_of_crate(&self, krate: CrateHandle) -> (modules: Vec<ModuleHandle>)
        requires
            self.knows(Handle::Crate(krate)),
        ensures
            modules@ == self.crate_modules_view(krate),
            knows_modules(self, modules@),
    ;

    /// The main file of a module, or `None` where the module has none.
    fn main_file_of(&self, module: ModuleHandle) -> (file: Option<FileHandle>)
        requires
            self.knows(Handle::Module(module)),
        ensures
            file == self.main_file_view(module),
            file matches Some(f) ==> self.knows(Handle::File(f)),
    ;

    /// Whether a file is backed by a path on disk, and not generated.
    fn is_on_disk(&self, file: FileHandle) -> (on_disk: bool)
        requires
            self.knows(Handle::File(file)),
        ensures
            on_disk == self.on_disk_view(file),
    ;

    /// The modules that a file declares directly, or `None` where the query
    /// fails. Accepts any handle: on a file that the database does not hold,
    /// the query fails.
    fn modules_declared_in(&self, file: FileHandle) -> (modules: Option<Vec<ModuleHandle>>)
        ensures
            optional_seq(modules) == self.declared_modules(file),
            modules matches Some(found) ==> self.knows(Handle::File(file)) && knows_modules(
                self,
                found@,
            ),
    ;

    /// The files that back a module, or `None` where the query fails.
    fn files_backing(&self, module: ModuleHandle) -> (files: Option<Vec<FileHandle>>)
        requires
            self.knows(Handle::Module(module)),
        ensures
            optional_seq(files) == self.backing_files(module),
            files matches Some(found) ==> knows_files(self, found@),
    ;

    /// The semantic diagnostics of a module, formatted, or `None` where they
    /// are not to be had.
    fn semantic_diagnostics_of(&self, module: ModuleHandle) -> (answer: Option<Vec<Finding>>)
        requires
            self.knows(Handle::Module(module)),
        ensures
            self.admits_semantic(module, optional_findings_view(answer)),
    ;

    /// The lowering diagnostics of a module, formatted, or `None` where they
    /// are not to be had.
    fn lowering_diagnostics_of(&self, module: ModuleHandle) -> (answer: Option<Vec<Finding>>)
        requires
            self.knows(Handle::Module(module)),
        ensures
            self.admits_lowering(module, optional_findings_view(answer)),
    ;

    /// The syntax diagnostics of a file, formatted.
    fn syntax_diagnostics_of(&self, file: FileHandle) -> (answer: Vec<Finding>)
        requires
            self.knows(Handle::File(file)),
        ensures
            self.admits_syntax(file, findings_view(answer@)),
    ;

    /// A second view at the same revision, for another worker.
    fn fork(&self) -> (other: Self)
        ensures
            same_answers(self, &other),
    ;
}

} // verus!

//! The compiler's own database as a [`Database`].
//!
//! Nothing in this file is proved of the compiler. Each private function below
//! makes one query and turns identifiers into handles and back; its contract is
//! taken on trust. What the structural queries answer is named, not stated: it is
//! the outcome of parsing and of running plugins. A shared reference cannot move
//! a database to another revision, and the compiler memoises every query per
//! revision, so one view gives one answer to one question. Diagnostics get no
//! such name, because their formatting consults the process environment.
//!
//! A query may unwind where the compiler's own invariants are broken. The
//! contracts exclude what callers can avoid: handles out of the interner's range,
//! handles that the database never issued, and databases with a configured crate
//! that is virtual or comes with a cache file. The queries decode such a cache
//! and parse the settings of such a crate without a way to fail, and unwind on
//! what they cannot read. A [`LiveDatabase`] is a database that was tested for
//! this before the first query.

use vstd::prelude::*;
use cairo_lang_compiler::db::RootDatabase;
use cairo_lang_defs::db::DefsGroup;
use cairo_lang_defs::ids::{ModuleId, SubmoduleId};
use cairo_lang_filesystem::db::FilesGroup;
use cairo_lang_filesystem::ids::{CrateId, CrateLongId, FileId, FileLongId};
use cairo_lang_lowering::db::LoweringGroup;
use cairo_lang_parser::db::ParserGroup;
use cairo_lang_semantic::db::SemanticGroup;
use cairo_lang_utils::{LookupIntern, Upcast};
use salsa::{InternId, InternKey};
use crate::database::{optional_seq, Database, Finding, FindingView, Revision};
use crate::handles::{CrateHandle, FileHandle, Handle, ModuleHandle};

verus! {

/// The compiler's database, `cairo_lang_compiler::db::RootDatabase`, as a type
/// that values of are only carried and handed to the queries below.
#[verifier::external_type_specification]
#[verifier::external_body]
pub struct ExRootDatabase(RootDatabase);

/// Raw numbers from this one on are not identifiers: the interner keeps them
/// for itself, and refuses to build an identifier from one.
pub const INTERN_LIMIT: u32 = 0xFFFF_FF00;

/// Whether the raw number of the handle can be that of an identifier.
pub open spec fn in_range(handle: Handle) -> bool {
    match handle {
        Handle::Crate(c) => c.raw < INTERN_LIMIT,
        Handle::Module(ModuleHandle::CrateRoot(c)) => c.raw < INTERN_LIMIT,
        Handle::Module(ModuleHandle::Submodule(raw)) => raw < INTERN_LIMIT,
        Handle::File(f) => f.raw < INTERN_LIMIT,
    }
}

/// Whether the interner of `db` holds an identifier of this kind and number.
pub uninterp spec fn issued(db: RootDatabase, handle: Handle) -> bool;

/// What `crates` returns.
pub uninterp spec fn live_crates(db: RootDatabase) -> Seq<CrateHandle>;

/// What `crate_modules` returns.
pub uninterp spec fn live_crate_modules(db: RootDatabase, krate: CrateHandle) -> Seq<ModuleHandle>;

/// What `module_main_file` returns, an error taken as `None`.
pub uninterp spec fn live_main_file(db: RootDatabase, module: ModuleHandle) -> Option<FileHandle>;

/// Where the text of a file comes from.
#[derive(Clone, Copy, PartialEq, Eq, Structural, Debug)]
pub enum FileOrigin {
    /// From a path on disk.
    OnDisk,
    /// From memory: the file was generated.
    Virtual,
    /// From outside the file system and the compiler.
    External,
}

/// Whether a crate is one of the project or was made up in memory.
#[derive(Clone, Copy, PartialEq, Eq, Structural, Debug)]
pub enum CrateKind {
    Real,
    Virtual,
}

/// What the configuration of a crate says of how its modules are had: the kind
/// of the crate, and the number of the blob that caches its modules, if any.
#[derive(Clone, Copy, PartialEq, Eq, Structural, Debug)]
pub struct CrateShape {
    pub kind: CrateKind,
    pub cache_file: Option<u32>,
}

/// As which variant the file was interned.
pub uninterp spec fn live_file_origin(db: RootDatabase, file: FileHandle) -> FileOrigin;

/// The shapes of the configured crates, in the order of `crates`.
pub uninterp spec fn live_crate_shapes(db: RootDatabase) -> Seq<CrateShape>;

/// Whether the modules of a crate of this shape are had by parsing alone.
pub open spec fn plain_shape(shape: CrateShape) -> bool {
    shape.kind == CrateKind::Real && shape.cache_file is None
}

/// Whether every configured crate of `db` is real and without a cache file.
pub open spec fn plain(db: RootDatabase) -> bool {
    forall|i: int|
        0 <= i < live_crate_shapes(db).len() ==> plain_shape(#[trigger] live_crate_shapes(db)[i])
}

/// What `file_modules` returns, an error taken as `None`.
pub uninterp spec fn live_file_modules(db: RootDatabase, file: FileHandle) -> Option<
    Seq<ModuleHandle>,
>;

/// What `module_files` returns, an error taken as `None`.
pub uninterp spec fn live_module_files(db: RootDatabase, module: ModuleHandle) -> Option<
    Seq<FileHandle>,
>;

/// Whether the handle may be handed to a query of `db`.
pub open spec fn admitted(db: RootDatabase, handle: Handle) -> bool {
    in_range(handle) && issued(db, handle)
}

/// `FilesGroup::crate_configs`, and `LookupIntern::lookup_intern` on each of its
/// keys: for each configured crate the variant as which it was interned, and the
/// cache file of its configuration.
#[verifier::external_body]
fn query_crate_shapes(db: &RootDatabase) -> (shapes: Vec<CrateShape>)
    ensures
        shapes@ == live_crate_shapes(*db),
{
    db.crate_configs().iter().map(|(id, config)| CrateShape {
        kind: match id.lookup_intern(db) {
            CrateLongId::Real { .. } => CrateKind::Real,
            CrateLongId::Virtual { .. } => CrateKind::Virtual,
        },
        cache_file: config.cache_file.map(|blob| blob.as_intern_id().as_u32()),
    }).collect()
}

/// `FilesGroup::crates`: the keys of the crate configurations, in the order of
/// the ordered map that holds them. Every identifier that comes out of the
/// database is interned in it, here as in the queries below.
#[verifier::external_body]
fn query_crates(db: &RootDatabase) -> (crates: Vec<CrateHandle>)
    ensures
        crates@ == live_crates(*db),
        forall|i: int| 0 <= i < crates.len() ==> admitted(*db, Handle::Crate(#[trigger] crates@[i])),
{
    db.crates().iter().map(|c| CrateHandle { raw: c.as_intern_id().as_u32() }).collect()
}

/// `DefsGroup::crate_modules`: the root module of the crate and, recursively,
/// the submodules below it. It looks the crate up in the interner, and loads
/// the cache of the crate where its configuration names one.
#[verifier::external_body]
fn query_crate_modules(db: &RootDatabase, krate: CrateHandle) -> (modules: Vec<ModuleHandle>)
    requires
        plain(*db),
        admitted(*db, Handle::Crate(krate)),
    ensures
        modules@ == live_crate_modules(*db, krate),
        forall|i: int|
            0 <= i < modules.len() ==> admitted(*db, Handle::Module(#[trigger] modules@[i])),
{
    let id = CrateId::from_intern_id(InternId::from(krate.raw));
    db.crate_modules(id).iter().map(|m| match m {
        ModuleId::CrateRoot(c) => ModuleHandle::CrateRoot(CrateHandle { raw: c.as_intern_id().as_u32() }),
        ModuleId::Submodule(s) => ModuleHandle::Submodule(s.as_intern_id().as_u32()),
    }).collect()
}

/// `DefsGroup::module_main_file`: the file that holds the module's own items.
/// It interns the file that it returns.
#[verifier::external_body]
fn query_main_file(db: &RootDatabase, module: ModuleHandle) -> (file: Option<FileHandle>)
    requires
        plain(*db),
        admitted(*db, Handle::Module(module)),
    ensures
        file == live_main_file(*db, module),
        file matches Some(f) ==> admitted(*db, Handle::File(f)),
{
    let id = match module {
        ModuleHandle::CrateRoot(c) => ModuleId::CrateRoot(CrateId::from_intern_id(InternId::from(c.raw))),
        ModuleHandle::Submodule(raw) => ModuleId::Submodule(SubmoduleId::from_intern_id(InternId::from(raw))),
    };
    match db.module_main_file(id) {
        Ok(file) => Some(FileHandle { raw: file.as_intern_id().as_u32() }),
        Err(_) => None,
    }
}

/// `LookupIntern::lookup_intern` on a file: the variant as which the file was
/// interned.
#[verifier::external_body]
fn query_file_origin(db: &RootDatabase, file: FileHandle) -> (origin: FileOrigin)
    requires
        admitted(*db, Handle::File(file)),
    ensures
        origin == live_file_origin(*db, file),
{
    let id = FileId::from_intern_id(InternId::from(file.raw));
    match id.lookup_intern(db) {
        FileLongId::OnDisk(_) => FileOrigin::OnDisk,
        FileLongId::Virtual(_) => FileOrigin::Virtual,
        FileLongId::External(_) => FileOrigin::External,
    }
}

/// `DefsGroup::file_modules`: the modules among whose files this one is. It
/// searches a map by the identifier and fails where the map has no such key,
/// so it takes any number in range. Its keys are files of loaded modules.
#[verifier::external_body]
fn query_file_modules(db: &RootDatabase, file: FileHandle) -> (modules: Option<Vec<ModuleHandle>>)
    requires
        plain(*db),
        file.raw < INTERN_LIMIT,
    ensures
        optional_seq(modules) == live_file_modules(*db, file),
        modules matches Some(found) ==> issued(*db, Handle::File(file)) && forall|i: int|
            0 <= i < found.len() ==> admitted(*db, Handle::Module(#[trigger] found@[i])),
{
    let id = FileId::from_intern_id(InternId::from(file.raw));
    let modules = db.file_modules(id).ok()?;
    Some(modules.iter().map(|m| match m {
        ModuleId::CrateRoot(c) => ModuleHandle::CrateRoot(CrateHandle { raw: c.as_intern_id().as_u32() }),
        ModuleId::Submodule(s) => ModuleHandle::Submodule(s.as_intern_id().as_u32()),
    }).collect())
}

/// `DefsGroup::module_files`: the main file of the module and the files that
/// plugins generated from its items.
#[verifier::external_body]
fn query_module_files(db: &RootDatabase, module: ModuleHandle) -> (files: Option<Vec<FileHandle>>)
    requires
        plain(*db),
        admitted(*db, Handle::Module(module)),
    ensures
        optional_seq(files) == live_module_files(*db, module),
        files matches Some(found) ==> forall|i: int|
            0 <= i < found.len() ==> admitted(*db, Handle::File(#[trigger] found@[i])),
{
    let id = match module {
        ModuleHandle::CrateRoot(c) => ModuleId::CrateRoot(CrateId::from_intern_id(InternId::from(c.raw))),
        ModuleHandle::Submodule(raw) => ModuleId::Submodule(SubmoduleId::from_intern_id(InternId::from(raw))),
    };
    let files = db.module_files(id).ok()?;
    Some(files.iter().map(|f| FileHandle { raw: f.as_intern_id().as_u32() }).collect())
}

/// `SemanticGroup::module_semantic_diagnostics`, formatted entry by entry with
/// `Diagnostics::format_with_severity`. Nothing is promised of the entries.
#[verifier::external_body]
fn query_semantic(db: &RootDatabase, module: ModuleHandle) -> (answer: Option<Vec<Finding>>)
    requires
        plain(*db),
        admitted(*db, Handle::Module(module)),
{
    let id = match module {
        ModuleHandle::CrateRoot(c) => ModuleId::CrateRoot(CrateId::from_intern_id(InternId::from(c.raw))),
        ModuleHandle::Submodule(raw) => ModuleId::Submodule(SubmoduleId::from_intern_id(InternId::from(raw))),
    };
    let diagnostics = db.module_semantic_diagnostics(id).ok()?;
    let entries = diagnostics.format_with_severity(db.upcast(), &Default::default());
    Some(entries.iter().map(|e| Finding { text: e.to_string(), blank: e.is_empty() }).collect())
}

/// `LoweringGroup::module_lowering_diagnostics`, formatted entry by entry with
/// `Diagnostics::format_with_severity`. Nothing is promised of the entries.
#[verifier::external_body]
fn query_lowering(db: &RootDatabase, module: ModuleHandle) -> (answer: Option<Vec<Finding>>)
    requires
        plain(*db),
        admitted(*db, Handle::Module(module)),
{
    let id = match module {
        ModuleHandle::CrateRoot(c) => ModuleId::CrateRoot(CrateId::from_intern_id(InternId::from(c.raw))),
        ModuleHandle::Submodule(raw) => ModuleId::Submodule(SubmoduleId::from_intern_id(InternId::from(raw))),
    };
    let diagnostics = db.module_lowering_diagnostics(id).ok()?;
    let entries = diagnostics.format_with_severity(db.upcast(), &Default::default());
    Some(entries.iter().map(|e| Finding { text: e.to_string(), blank: e.is_empty() }).collect())
}

/// `ParserGroup::file_syntax_diagnostics`, formatted entry by entry with
/// `Diagnostics::format_with_severity`. Nothing is promised of the entries.
#[verifier::external_body]
fn query_syntax(db: &RootDatabase, file: FileHandle) -> (answer: Vec<Finding>)
    requires
        plain(*db),
        admitted(*db, Handle::File(file)),
{
    let id = FileId::from_intern_id(InternId::from(file.raw));
    let diagnostics = db.file_syntax_diagnostics(id);
    let entries = diagnostics.format_with_severity(db.upcast(), &Default::default());
    entries.iter().map(|e| Finding { text: e.to_string(), blank: e.is_empty() }).collect()
}

/// `RootDatabase::snapshot`: a read-only view of the same storage at the same
/// revision. It shares the interner, the inputs and the memoised answers.
#[verifier::external_body]
fn take_snapshot(db: &RootDatabase) -> (copy: RootDatabase)
    ensures
        forall|h: Handle| #[trigger] issued(copy, h) == issued(*db, h),
        live_crates(copy) == live_crates(*db),
        forall|c: CrateHandle| #[trigger] live_crate_modules(copy, c) == live_crate_modules(*db, c),
        forall|m: ModuleHandle| #[trigger] live_main_file(copy, m) == live_main_file(*db, m),
        forall|f: FileHandle| #[trigger] live_file_origin(copy, f) == live_file_origin(*db, f),
        live_crate_shapes(copy) == live_crate_shapes(*db),
        forall|f: FileHandle| #[trigger] live_file_modules(copy, f) == live_file_modules(*db, f),
        forall|m: ModuleHandle| #[trigger] live_module_files(copy, m) == live_module_files(*db, m),
{
    db.snapshot()
}

/// A database of the compiler whose configured crates are all real and without
/// a cache file, so that its queries read nothing but source text.
pub struct LiveDatabase {
    db: RootDatabase,
}

impl LiveDatabase {
    #[verifier::type_invariant]
    spec fn parses_only(&self) -> bool {
        plain(self.db)
    }

    /// The database of the compiler that this is.
    pub closed spec fn database(&self) -> RootDatabase {
        self.db
    }

    /// Takes the database if each of its configured crates is real and has no
    /// cache file, and refuses it otherwise.
    pub fn new(db: RootDatabase) -> (live: Option<LiveDatabase>)
        ensures
            live is Some <==> plain(db),
            live matches Some(live) ==> live.database() == db,
    {
        let shapes = query_crate_shapes(&db);
        let mut i: usize = 0;
        while i < shapes.len()
            invariant
                i <= shapes.len(),
                shapes@ == live_crate_shapes(db),
                forall|k: int| 0 <= k < i ==> plain_shape(#[trigger] shapes@[k]),
            decreases shapes.len() - i,
        {
            let shape = shapes[i];
            let parsed = match shape.kind {
                CrateKind::Real => true,
                CrateKind::Virtual => false,
            };
            if !parsed || shape.cache_file.is_some() {
                assert(!plain_shape(live_crate_shapes(db)[i as int]));
                return None;
            }
            i += 1;
        }
        Some(LiveDatabase { db })
    }

    /// Gives the database of the compiler back.
    pub fn into_database(self) -> (db: RootDatabase)
        ensures
            db == self.database(),
    {
        self.db
    }
}

impl Revision for LiveDatabase {
    open spec fn knows(&self, handle: Handle) -> bool {
        admitted(self.database(), handle)
    }

    open spec fn crates_view(&self) -> Seq<CrateHandle> {
        live_crates(self.database())
    }

    open spec fn crate_modules_view(&self, krate: CrateHandle) -> Seq<ModuleHandle> {
        live_crate_modules(self.database(), krate)
    }

    open spec fn main_file_view(&self, module: ModuleHandle) -> Option<FileHandle> {
        live_main_file(self.database(), module)
    }

    open spec fn on_disk_view(&self, file: FileHandle) -> bool {
        live_file_origin(self.database(), file) == FileOrigin::OnDisk
    }

    /// A number out of range is the number of no file: the query on it fails.
    open spec fn declared_modules(&self, file: FileHandle) -> Option<Seq<ModuleHandle>> {
        if file.raw < INTERN_LIMIT {
            live_file_modules(self.database(), file)
        } else {
            None
        }
    }

    open spec fn backing_files(&self, module: ModuleHandle) -> Option<Seq<FileHandle>> {
        live_module_files(self.database(), module)
    }

    /// The compiler may answer anything.
    open spec fn admits_semantic(
        &self,
        module: ModuleHandle,
        answer: Option<Seq<FindingView>>,
    ) -> bool {
        true
    }

    /// The compiler may answer anything.
    open spec fn admits_lowering(
        &self,
        module: ModuleHandle,
        answer: Option<Seq<FindingView>>,
    ) -> bool {
        true
    }

    /// The compiler may answer anything.
    open spec fn admits_syntax(&self, file: FileHandle, answer: Seq<FindingView>) -> bool {
        true
    }
}

impl Database for LiveDatabase {
    fn loaded_crates(&self) -> (crates: Vec<CrateHandle>) {
        query_crates(&self.db)
    }

    fn modules_of_crate(&self, krate: CrateHandle) -> (modules: Vec<ModuleHandle>) {
        proof {
            use_type_invariant(self);
        }
        query_crate_modules(&self.db, krate)
    }

    fn main_file_of(&self, module: ModuleHandle) -> (file: Option<FileHandle>) {
        proof {
            use_type_invariant(self);
        }
        query_main_file(&self.db, module)
    }

    fn is_on_disk(&self, file: FileHandle) -> (on_disk: bool) {
        match query_file_origin(&self.db, file) {
            FileOrigin::OnDisk => true,
            FileOrigin::Virtual => false,
            FileOrigin::External => false,
        }
    }

    fn modules_declared_in(&self, file: FileHandle) -> (modules: Option<Vec<ModuleHandle>>) {
        proof {
            use_type_invariant(self);
        }
        if file.raw < INTERN_LIMIT {
            query_file_modules(&self.db, file)
        } else {
            None
        }
    }

    fn files_backing(&self, module: ModuleHandle) -> (files: Option<Vec<FileHandle>>) {
        proof {
            use_type_invariant(self);
        }
        query_module_files(&self.db, module)
    }

    fn semantic_diagnostics_of(&self, module: ModuleHandle) -> (answer: Option<Vec<Finding>>) {
        proof {
            use_type_invariant(self);
        }
        query_semantic(&self.db, module)
    }

    fn lowering_diagnostics_of(&self, module: ModuleHandle) -> (answer: Option<Vec<Finding>>) {
        proof {
            use_type_invariant(self);
        }
        query_lowering(&self.db, module)
    }

    fn syntax_diagnostics_of(&self, file: FileHandle) -> (answer: Vec<Finding>) {
        proof {
            use_type_invariant(self);
        }
        query_syntax(&self.db, file)
    }

    fn fork(&self) -> (other: LiveDatabase) {
        proof {
            use_type_invariant(self);
        }
        LiveDatabase { db: take_snapshot(&self.db) }
    }
}

} // verus!

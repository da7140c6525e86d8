//! Discovery of the root files: the on-disk main files of all loaded modules.
//!
//! Only these are scheduled. Generated files are reached from one of them when
//! its closure is computed.

use vstd::prelude::*;
use crate::database::{knows_files, same_answers, Database, Revision};
use crate::diagnostics::seen::FileSet;
use crate::handles::{FileHandle, Handle, ModuleHandle};

verus! {

/// Whether `module` belongs to one of the loaded crates.
pub open spec fn module_loaded<D: Revision>(db: &D, module: ModuleHandle) -> bool {
    exists|i: int|
        0 <= i < db.crates_view().len() && (#[trigger] db.crate_modules_view(
            db.crates_view()[i],
        )).contains(module)
}

/// Whether `file` is on disk and the main file of a loaded module.
pub open spec fn is_root_file<D: Revision>(db: &D, file: FileHandle) -> bool {
    &&& db.on_disk_view(file)
    &&& exists|module: ModuleHandle|
        module_loaded(db, module) && #[trigger] db.main_file_view(module) == Some(file)
}

/// Whether `roots` lists the root files of `db`, each once.
pub open spec fn is_discovery<D: Revision>(db: &D, roots: Seq<FileHandle>) -> bool {
    &&& roots.no_duplicates()
    &&& forall|f: FileHandle| #[trigger] roots.contains(f) <==> is_root_file(db, f)
}

/// Discovery is idempotent: two runs over one unchanged view find the same set
/// of files, whatever the order.
pub proof fn lemma_discovery_is_idempotent<D: Revision>(
    db: &D,
    first: Seq<FileHandle>,
    second: Seq<FileHandle>,
)
    requires
        is_discovery(db, first),
        is_discovery(db, second),
    ensures
        first.to_set() == second.to_set(),
        first.len() == second.len(),
{
    assert forall|f: FileHandle| first.to_set().contains(f) == second.to_set().contains(f) by {
        assert(first.contains(f) <==> is_root_file(db, f));
        assert(second.contains(f) <==> is_root_file(db, f));
    }
    assert(first.to_set() =~= second.to_set());
    first.unique_seq_to_set();
    second.unique_seq_to_set();
}

/// Two views that answer alike have the same root files: what is a discovery
/// in one is a discovery in the other.
pub proof fn lemma_same_answers_same_roots<D: Revision>(a: &D, b: &D, roots: Seq<FileHandle>)
    requires
        same_answers(a, b),
        is_discovery(a, roots),
    ensures
        is_discovery(b, roots),
{
    assert forall|m: ModuleHandle| module_loaded(a, m) == module_loaded(b, m) by {
        if module_loaded(a, m) {
            let i = choose|i: int|
                0 <= i < a.crates_view().len() && (#[trigger] a.crate_modules_view(
                    a.crates_view()[i],
                )).contains(m);
            assert(b.crate_modules_view(b.crates_view()[i]) == a.crate_modules_view(
                a.crates_view()[i],
            ));
        }
        if module_loaded(b, m) {
            let i = choose|i: int|
                0 <= i < b.crates_view().len() && (#[trigger] b.crate_modules_view(
                    b.crates_view()[i],
                )).contains(m);
            assert(a.crate_modules_view(a.crates_view()[i]) == b.crate_modules_view(
                b.crates_view()[i],
            ));
        }
    }
    assert forall|f: FileHandle| is_root_file(a, f) == is_root_file(b, f) by {
        assert(a.on_disk_view(f) == b.on_disk_view(f));
        if is_root_file(a, f) {
            let m = choose|m: ModuleHandle|
                module_loaded(a, m) && #[trigger] a.main_file_view(m) == Some(f);
            assert(module_loaded(b, m) && b.main_file_view(m) == Some(f));
        }
        if is_root_file(b, f) {
            let m = choose|m: ModuleHandle|
                module_loaded(b, m) && #[trigger] b.main_file_view(m) == Some(f);
            assert(a.main_file_view(m) == b.main_file_view(m));
            assert(module_loaded(a, m) && a.main_file_view(m) == Some(f));
        }
    }
    assert forall|f: FileHandle| #[trigger] roots.contains(f) <==> is_root_file(b, f) by {
        assert(roots.contains(f) <==> is_root_file(a, f));
    }
}

/// Whether the main file of `module` is listed, if it has one on disk.
spec fn main_file_listed<D: Revision>(
    db: &D,
    module: ModuleHandle,
    roots: Seq<FileHandle>,
) -> bool {
    db.main_file_view(module) matches Some(f) ==> db.on_disk_view(f) ==> roots.contains(f)
}

/// Whether the modules of `modules` before position `upto` have their main
/// files listed.
spec fn modules_covered<D: Revision>(
    db: &D,
    modules: Seq<ModuleHandle>,
    upto: int,
    roots: Seq<FileHandle>,
) -> bool {
    forall|k: int| 0 <= k < upto ==> main_file_listed(db, #[trigger] modules[k], roots)
}

/// The on-disk main files of all modules of all loaded crates, each once.
///
/// A module whose main file does not resolve contributes nothing, and neither
/// does one whose main file is generated.
pub fn find_all_files_from_all_crates<D: Database>(db: &D) -> (roots: Vec<FileHandle>)
    ensures
        is_discovery(db, roots@),
        knows_files(db, roots@),
{
    let mut result = FileSet::new();
    let crates = db.loaded_crates();
    let mut c: usize = 0;
    while c < crates.len()
        invariant
            c <= crates.len(),
            crates@ == db.crates_view(),
            forall|i: int| 0 <= i < crates.len() ==> db.knows(Handle::Crate(#[trigger] crates@[i])),
            result.wf(),
            knows_files(db, result@),
            forall|f: FileHandle| #[trigger] result@.contains(f) ==> is_root_file(db, f),
            forall|i: int|
                0 <= i < c ==> modules_covered(
                    db,
                    #[trigger] db.crate_modules_view(crates@[i]),
                    db.crate_modules_view(crates@[i]).len() as int,
                    result@,
                ),
        decreases crates.len() - c,
    {
        let modules = db.modules_of_crate(crates[c]);
        let mut m: usize = 0;
        while m < modules.len()
            invariant
                m <= modules.len(),
                c < crates.len(),
                crates@ == db.crates_view(),
                modules@ == db.crate_modules_view(crates@[c as int]),
                forall|i: int|
                    0 <= i < modules.len() ==> db.knows(Handle::Module(#[trigger] modules@[i])),
                result.wf(),
                knows_files(db, result@),
                forall|f: FileHandle| #[trigger] result@.contains(f) ==> is_root_file(db, f),
                forall|i: int|
                    0 <= i < c ==> modules_covered(
                        db,
                        #[trigger] db.crate_modules_view(crates@[i]),
                        db.crate_modules_view(crates@[i]).len() as int,
                        result@,
                    ),
                modules_covered(db, modules@, m as int, result@),
            decreases modules.len() - m,
        {
            let module = modules[m];
            let ghost before = result@;
            let mut added: bool = false;
            if let Some(file) = db.main_file_of(module) {
                if db.is_on_disk(file) {
                    added = result.insert(file);
                    proof {
                        assert(modules@.contains(module)) by {
                            assert(modules@[m as int] == module);
                        }
                        assert(module_loaded(db, module));
                        assert(is_root_file(db, file));
                        assert(result@.contains(file)) by {
                            if added {
                                assert(result@[before.len() as int] == file);
                            }
                        }
                    }
                }
            }
            proof {
                assert forall|f: FileHandle| before.contains(f) implies #[trigger] result@.contains(
                    f,
                ) by {
                    if added {
                        let k = choose|k: int| 0 <= k < before.len() && before[k] == f;
                        assert(result@[k] == f);
                    }
                }
                assert forall|f: FileHandle| #[trigger] result@.contains(f) implies is_root_file(
                    db,
                    f,
                ) by {
                    if !before.contains(f) {
                        let k = choose|k: int| 0 <= k < result@.len() && result@[k] == f;
                        assert(added && k == before.len());
                    }
                }
                assert forall|k: int| 0 <= k < result@.len() implies db.knows(
                    Handle::File(#[trigger] result@[k]),
                ) by {
                    if k < before.len() {
                        assert(result@[k] == before[k]);
                    }
                }
                assert forall|i: int| 0 <= i < c implies modules_covered(
                    db,
                    #[trigger] db.crate_modules_view(crates@[i]),
                    db.crate_modules_view(crates@[i]).len() as int,
                    result@,
                ) by {
                    let them = db.crate_modules_view(crates@[i]);
                    assert(modules_covered(db, them, them.len() as int, before));
                    assert forall|k: int| 0 <= k < them.len() implies main_file_listed(
                        db,
                        #[trigger] them[k],
                        result@,
                    ) by {
                        assert(main_file_listed(db, them[k], before));
                    }
                }
                assert forall|k: int| 0 <= k < m + 1 implies main_file_listed(
                    db,
                    #[trigger] modules@[k],
                    result@,
                ) by {
                    if k < m {
                        assert(main_file_listed(db, modules@[k], before));
                    }
                }
            }
            m += 1;
        }
        c += 1;
    }
    proof {
        result.lemma_distinct();
        assert forall|f: FileHandle| is_root_file(db, f) implies #[trigger] result@.contains(f) by {
            let module = choose|module: ModuleHandle|
                module_loaded(db, module) && #[trigger] db.main_file_view(module) == Some(f);
            let i = choose|i: int|
                0 <= i < db.crates_view().len() && (#[trigger] db.crate_modules_view(
                    db.crates_view()[i],
                )).contains(module);
            let them = db.crate_modules_view(crates@[i]);
            let k = choose|k: int| 0 <= k < them.len() && them[k] == module;
            assert(modules_covered(db, them, them.len() as int, result@));
            assert(main_file_listed(db, them[k], result@));
        }
    }
    result.into_vec()
}

} // verus!

//! The closure of a root file: every file and module that must be diagnosed
//! with it.
//!
//! Files generated from the items of a module can declare modules of their own,
//! which own further generated files. The traversal follows both kinds of edge
//! from a worklist until nothing new turns up. Files that exist only through a
//! macro call inside an expression are not found: no query lists them.

use vstd::prelude::*;
use std::collections::VecDeque;
use crate::database::{knows_files, knows_modules, Database, Revision};
use crate::diagnostics::graph::{
    closed_under_edges, closure_fails, edge, is_closure, lemma_closed_list_is_closure,
    lemma_reaches_step, lemma_root_reached, listed, reaches, unresolved, Node,
};
use crate::diagnostics::seen::{lemma_distinct_modules_are_few, FileSet, ModuleSet};
use crate::handles::{FileHandle, Handle, ModuleHandle, MODULE_KEYS};

verus! {

/// Whether the file resolves and all that it declares is among `modules`.
spec fn file_expanded<D: Revision>(
    db: &D,
    file: FileHandle,
    modules: Seq<ModuleHandle>,
) -> bool {
    db.declared_modules(file) matches Some(found) && forall|i: int|
        0 <= i < found.len() ==> modules.contains(#[trigger] found[i])
}

/// Whether the module resolves and all that backs it is among `files`.
spec fn module_expanded<D: Revision>(
    db: &D,
    module: ModuleHandle,
    files: Seq<FileHandle>,
) -> bool {
    db.backing_files(module) matches Some(found) && forall|i: int|
        0 <= i < found.len() ==> files.contains(#[trigger] found[i])
}

/// What holds of the traversal's state between two steps: everything listed is
/// reached from the root and known to the database, every listed file is
/// expanded, and every listed module is expanded, queued, or the one in hand.
spec fn frontier<D: Revision>(
    db: &D,
    root: FileHandle,
    files: Seq<FileHandle>,
    modules: Seq<ModuleHandle>,
    queue: Seq<ModuleHandle>,
    current: Option<ModuleHandle>,
) -> bool {
    &&& files.contains(root)
    &&& knows_files(db, files)
    &&& knows_modules(db, modules)
    &&& forall|node: Node| #[trigger] listed(files, modules, node) ==> reaches(db, root, node)
    &&& forall|f: FileHandle| #[trigger] files.contains(f) ==> file_expanded(db, f, modules)
    &&& forall|m: ModuleHandle| #[trigger]
        modules.contains(m) ==> current == Some(m) || queue.contains(m) || module_expanded(
            db,
            m,
            files,
        )
    &&& forall|i: int| 0 <= i < queue.len() ==> modules.contains(#[trigger] queue[i])
}

/// With nothing queued and nothing in hand, the lists are the closure.
proof fn lemma_settled_frontier_is_closure<D: Revision>(
    db: &D,
    root: FileHandle,
    files: Seq<FileHandle>,
    modules: Seq<ModuleHandle>,
)
    requires
        frontier(db, root, files, modules, Seq::empty(), None),
        files.no_duplicates(),
        modules.no_duplicates(),
    ensures
        is_closure(db, root, files, modules),
{
    assert forall|node: Node| #[trigger] listed(files, modules, node) implies !unresolved(db, node)
        && forall|next: Node| edge(db, node, next) ==> #[trigger] listed(files, modules, next) by {
        match node {
            Node::File(f) => {
                assert(files.contains(f));
                assert(file_expanded(db, f, modules));
                assert forall|next: Node| edge(db, node, next) implies #[trigger] listed(
                    files,
                    modules,
                    next,
                ) by {
                    let found = db.declared_modules(f).unwrap();
                    let m = next->Module_0;
                    let i = choose|i: int| 0 <= i < found.len() && found[i] == m;
                    assert(modules.contains(found[i]));
                }
            },
            Node::Module(m) => {
                assert(modules.contains(m));
                assert(!Seq::<ModuleHandle>::empty().contains(m));
                assert(module_expanded(db, m, files));
                assert forall|next: Node| edge(db, node, next) implies #[trigger] listed(
                    files,
                    modules,
                    next,
                ) by {
                    let found = db.backing_files(m).unwrap();
                    let f = next->File_0;
                    let i = choose|i: int| 0 <= i < found.len() && found[i] == f;
                    assert(files.contains(found[i]));
                }
            },
        }
    }
    assert(closed_under_edges(db, files, modules));
    lemma_closed_list_is_closure(db, root, files, modules);
}

/// Lists each module of `found` that is new, and queues it.
fn absorb_modules(
    modules: &mut ModuleSet,
    queue: &mut VecDeque<ModuleHandle>,
    found: &Vec<ModuleHandle>,
)
    requires
        old(modules).wf(),
    ensures
        final(modules).wf(),
        final(modules)@.len() >= old(modules)@.len(),
        final(queue)@.len() - old(queue)@.len() == final(modules)@.len() - old(modules)@.len(),
        forall|m: ModuleHandle|
            old(modules)@.contains(m) ==> #[trigger] final(modules)@.contains(m),
        forall|i: int| 0 <= i < found.len() ==> final(modules)@.contains(#[trigger] found@[i]),
        forall|m: ModuleHandle| #[trigger]
            final(modules)@.contains(m) ==> old(modules)@.contains(m) || found@.contains(m),
        forall|m: ModuleHandle| old(queue)@.contains(m) ==> #[trigger] final(queue)@.contains(m),
        forall|m: ModuleHandle| #[trigger]
            final(queue)@.contains(m) ==> old(queue)@.contains(m) || found@.contains(m),
        forall|m: ModuleHandle|
            final(modules)@.contains(m) && !old(modules)@.contains(m) ==> #[trigger] final(queue)@.contains(m),
{
    let mut j: usize = 0;
    while j < found.len()
        invariant
            j <= found.len(),
            modules.wf(),
            modules@.len() >= old(modules)@.len(),
            queue@.len() - old(queue)@.len() == modules@.len() - old(modules)@.len(),
            forall|m: ModuleHandle| old(modules)@.contains(m) ==> #[trigger] modules@.contains(m),
            forall|i: int| 0 <= i < j ==> modules@.contains(#[trigger] found@[i]),
            forall|m: ModuleHandle| #[trigger]
                modules@.contains(m) ==> old(modules)@.contains(m) || found@.contains(m),
            forall|m: ModuleHandle| old(queue)@.contains(m) ==> #[trigger] queue@.contains(m),
            forall|m: ModuleHandle| #[trigger]
                queue@.contains(m) ==> old(queue)@.contains(m) || found@.contains(m),
            forall|m: ModuleHandle|
                modules@.contains(m) && !old(modules)@.contains(m) ==> #[trigger] queue@.contains(
                    m,
                ),
        decreases found.len() - j,
    {
        let module = found[j];
        let ghost listed_before = modules@;
        let ghost queued_before = queue@;
        let fresh = modules.insert(module);
        if fresh {
            queue.push_back(module);
        }
        proof {
            assert(found@.contains(module)) by {
                assert(found@[j as int] == module);
            }
            assert forall|m: ModuleHandle| listed_before.contains(m) implies #[trigger]
                modules@.contains(m) by {
                if fresh {
                    let i = choose|i: int| 0 <= i < listed_before.len() && listed_before[i] == m;
                    assert(modules@[i] == m);
                }
            }
            assert(modules@.contains(module)) by {
                if fresh {
                    assert(modules@[listed_before.len() as int] == module);
                }
            }
            assert forall|m: ModuleHandle| #[trigger] modules@.contains(m) implies old(modules)@.contains(m) || found@.contains(m) by {
                if fresh && !listed_before.contains(m) {
                    let i = choose|i: int| 0 <= i < modules@.len() && modules@[i] == m;
                    assert(i == listed_before.len());
                }
            }
            assert forall|m: ModuleHandle| queued_before.contains(m) implies #[trigger]
                queue@.contains(m) by {
                if fresh {
                    let i = choose|i: int| 0 <= i < queued_before.len() && queued_before[i] == m;
                    assert(queue@[i] == m);
                }
            }
            assert forall|m: ModuleHandle| #[trigger] queue@.contains(m) implies old(queue)@.contains(m) || found@.contains(m) by {
                if fresh && !queued_before.contains(m) {
                    let i = choose|i: int| 0 <= i < queue@.len() && queue@[i] == m;
                    assert(i == queued_before.len());
                }
            }
            assert forall|m: ModuleHandle|
                modules@.contains(m) && !old(modules)@.contains(m) implies #[trigger]
                queue@.contains(m) by {
                if listed_before.contains(m) {
                    assert(queued_before.contains(m));
                } else {
                    let i = choose|i: int| 0 <= i < modules@.len() && modules@[i] == m;
                    assert(fresh && i == listed_before.len());
                    assert(queue@[queued_before.len() as int] == m);
                }
            }
        }
        j += 1;
    }
}

/// Collects `file` and all its descendants, together with the modules of all
/// these files.
///
/// Returns `None` exactly when a query fails on a file or module that `file`
/// reaches; nothing partial is handed out. Otherwise returns the files and the
/// modules of the closure, each once, in the order in which they were found, the
/// root first.
pub fn file_and_subfiles_with_corresponding_modules<D: Database>(
    db: &D,
    file: FileHandle,
) -> (closure: Option<(Vec<FileHandle>, Vec<ModuleHandle>)>)
    ensures
        closure is None <==> closure_fails(db, file),
        closure matches Some((files, modules)) ==> {
            &&& is_closure(db, file, files@, modules@)
            &&& files@[0] == file
            &&& knows_files(db, files@)
            &&& knows_modules(db, modules@)
        },
{
    proof {
        lemma_root_reached(db, file);
    }
    let declared = match db.modules_declared_in(file) {
        Some(declared) => declared,
        None => {
            assert(unresolved(db, Node::File(file)));
            return None;
        },
    };
    let mut files = FileSet::new();
    let mut modules = ModuleSet::new();
    let mut queue: VecDeque<ModuleHandle> = VecDeque::new();
    files.insert(file);
    absorb_modules(&mut modules, &mut queue, &declared);
    proof {
        assert(files@ == seq![file]);
        assert(files@[0] == file);
        assert forall|node: Node| #[trigger] listed(files@, modules@, node) implies reaches(
            db,
            file,
            node,
        ) by {
            match node {
                Node::File(f) => {
                    assert(f == file);
                },
                Node::Module(m) => {
                    assert(declared@.contains(m));
                    lemma_reaches_step(db, file, Node::File(file), node);
                },
            }
        }
        assert forall|i: int| 0 <= i < modules@.len() implies db.knows(
            Handle::Module(#[trigger] modules@[i]),
        ) by {
            let m = modules@[i];
            assert(modules@.contains(m));
            let k = choose|k: int| 0 <= k < declared@.len() && declared@[k] == m;
            assert(db.knows(Handle::Module(declared@[k])));
        }
        assert forall|i: int| 0 <= i < queue@.len() implies modules@.contains(
            #[trigger] queue@[i],
        ) by {
            let m = queue@[i];
            assert(queue@.contains(m));
            assert(!Seq::<ModuleHandle>::empty().contains(m));
            let k = choose|k: int| 0 <= k < declared@.len() && declared@[k] == m;
            assert(modules@.contains(declared@[k]));
        }
        assert forall|m: ModuleHandle| #[trigger] modules@.contains(m) implies queue@.contains(
            m,
        ) by {
            assert(!Seq::<ModuleHandle>::empty().contains(m));
        }
        assert forall|f: FileHandle| #[trigger] files@.contains(f) implies file_expanded(
            db,
            f,
            modules@,
        ) by {
            assert(f == file);
        }
    }
    loop
        invariant
            files.wf(),
            modules.wf(),
            files@.len() >= 1,
            files@[0] == file,
            frontier(db, file, files@, modules@, queue@, None),
        ensures
            queue@.len() == 0,
        decreases MODULE_KEYS - modules@.len(), queue@.len(),
    {
        let ghost listed_at_pop = modules@;
        let ghost queued_at_pop = queue@;
        proof {
            modules.lemma_distinct();
            lemma_distinct_modules_are_few(modules@);
        }
        let module = match queue.pop_front() {
            Some(module) => module,
            None => {
                break ;
            },
        };
        proof {
            assert(queued_at_pop[0] == module);
            assert(modules@.contains(module));
            assert(listed(files@, modules@, Node::Module(module)));
            assert forall|m: ModuleHandle| #[trigger] modules@.contains(m) implies Some(module)
                == Some(m) || queue@.contains(m) || module_expanded(db, m, files@) by {
                if m != module && queued_at_pop.contains(m) {
                    let i = choose|i: int| 0 <= i < queued_at_pop.len() && queued_at_pop[i] == m;
                    assert(queue@[i - 1] == m);
                }
            }
            assert forall|i: int| 0 <= i < queue@.len() implies modules@.contains(
                #[trigger] queue@[i],
            ) by {
                assert(queue@[i] == queued_at_pop[i + 1]);
            }
            assert(db.knows(Handle::Module(module))) by {
                let i = choose|i: int| 0 <= i < modules@.len() && modules@[i] == module;
                assert(db.knows(Handle::Module(modules@[i])));
            }
        }
        let backing = match db.files_backing(module) {
            Some(backing) => backing,
            None => {
                assert(unresolved(db, Node::Module(module)));
                return None;
            },
        };
        let mut i: usize = 0;
        while i < backing.len()
            invariant
                i <= backing.len(),
                files.wf(),
                modules.wf(),
                files@.len() >= 1,
                files@[0] == file,
                frontier(db, file, files@, modules@, queue@, Some(module)),
                modules@.contains(module),
                db.backing_files(module) == Some(backing@),
                knows_files(db, backing@),
                forall|k: int| 0 <= k < i ==> files@.contains(#[trigger] backing@[k]),
                modules@.len() >= listed_at_pop.len(),
                queue@.len() - (queued_at_pop.len() - 1) == modules@.len() - listed_at_pop.len(),
            decreases backing.len() - i,
        {
            let found = backing[i];
            let ghost files_before = files@;
            let fresh = files.insert(found);
            proof {
                assert(backing@.contains(found)) by {
                    assert(backing@[i as int] == found);
                }
                assert(edge(db, Node::Module(module), Node::File(found)));
                assert(listed(files_before, modules@, Node::Module(module)));
                lemma_reaches_step(db, file, Node::Module(module), Node::File(found));
                assert forall|f: FileHandle| files_before.contains(f) implies #[trigger]
                    files@.contains(f) by {
                    if fresh {
                        let k = choose|k: int| 0 <= k < files_before.len() && files_before[k] == f;
                        assert(files@[k] == f);
                    }
                }
                assert(files@.contains(found)) by {
                    if fresh {
                        assert(files@[files_before.len() as int] == found);
                    }
                }
                assert forall|f: FileHandle| #[trigger] files@.contains(f) implies f == found
                    || files_before.contains(f) by {
                    if fresh {
                        let k = choose|k: int| 0 <= k < files@.len() && files@[k] == f;
                        if k < files_before.len() {
                            assert(files_before[k] == f);
                        }
                    }
                }
                assert(db.knows(Handle::File(backing@[i as int])));
                assert forall|k: int| 0 <= k < files@.len() implies db.knows(
                    Handle::File(#[trigger] files@[k]),
                ) by {
                    if k < files_before.len() {
                        assert(files@[k] == files_before[k]);
                    }
                }
                assert forall|m: ModuleHandle| module_expanded(
                    db,
                    m,
                    files_before,
                ) implies module_expanded(db, m, files@) by {
                    let them = db.backing_files(m).unwrap();
                    assert forall|k: int| 0 <= k < them.len() implies files@.contains(
                        #[trigger] them[k],
                    ) by {
                        assert(files_before.contains(them[k]));
                    }
                }
            }
            if fresh {
                let declared = match db.modules_declared_in(found) {
                    Some(declared) => declared,
                    None => {
                        assert(unresolved(db, Node::File(found)));
                        return None;
                    },
                };
                let ghost listed_before = modules@;
                let ghost queued_before = queue@;
                absorb_modules(&mut modules, &mut queue, &declared);
                proof {
                    assert forall|node: Node| #[trigger]
                        listed(files@, modules@, node) implies reaches(db, file, node) by {
                        match node {
                            Node::File(f) => {
                                if f != found {
                                    assert(listed(files_before, listed_before, node));
                                }
                            },
                            Node::Module(m) => {
                                if listed_before.contains(m) {
                                    assert(listed(files_before, listed_before, node));
                                } else {
                                    assert(declared@.contains(m));
                                    lemma_reaches_step(db, file, Node::File(found), node);
                                }
                            },
                        }
                    }
                    assert forall|k: int| 0 <= k < modules@.len() implies db.knows(
                        Handle::Module(#[trigger] modules@[k]),
                    ) by {
                        let m = modules@[k];
                        assert(modules@.contains(m));
                        if listed_before.contains(m) {
                            let n = choose|n: int|
                                0 <= n < listed_before.len() && listed_before[n] == m;
                            assert(db.knows(Handle::Module(listed_before[n])));
                        } else {
                            let n = choose|n: int| 0 <= n < declared@.len() && declared@[n] == m;
                            assert(db.knows(Handle::Module(declared@[n])));
                        }
                    }
                    assert forall|f: FileHandle| #[trigger] files@.contains(f) implies file_expanded(
                        db,
                        f,
                        modules@,
                    ) by {
                        if f != found {
                            assert(files_before.contains(f));
                            assert(file_expanded(db, f, listed_before));
                            let them = db.declared_modules(f).unwrap();
                            assert forall|k: int| 0 <= k < them.len() implies modules@.contains(
                                #[trigger] them[k],
                            ) by {
                                assert(listed_before.contains(them[k]));
                            }
                        }
                    }
                    assert forall|m: ModuleHandle| #[trigger] modules@.contains(m) implies Some(
                        module,
                    ) == Some(m) || queue@.contains(m) || module_expanded(db, m, files@) by {
                        if listed_before.contains(m) {
                            if queued_before.contains(m) {
                                assert(queue@.contains(m));
                            }
                        } else {
                            assert(queue@.contains(m));
                        }
                    }
                    assert forall|k: int| 0 <= k < queue@.len() implies modules@.contains(
                        #[trigger] queue@[k],
                    ) by {
                        let m = queue@[k];
                        assert(queue@.contains(m));
                        if queued_before.contains(m) {
                            let n = choose|n: int|
                                0 <= n < queued_before.len() && queued_before[n] == m;
                            assert(listed_before.contains(queued_before[n]));
                        } else {
                            let n = choose|n: int| 0 <= n < declared@.len() && declared@[n] == m;
                            assert(modules@.contains(declared@[n]));
                        }
                    }
                    assert(modules@.contains(module));
                }
            } else {
                proof {
                    assert(files@ == files_before);
                }
            }
            i += 1;
        }
        proof {
            assert(module_expanded(db, module, files@));
            modules.lemma_distinct();
            lemma_distinct_modules_are_few(modules@);
        }
    }
    proof {
        assert(queue@ =~= Seq::empty());
        files.lemma_distinct();
        modules.lemma_distinct();
        lemma_settled_frontier_is_closure(db, file, files@, modules@);
    }
    Some((files.into_vec(), modules.into_vec()))
}

} // verus!

//! Sets of handles that remember the order in which their items came.

use vstd::prelude::*;
use vstd::set_lib::*;
use std::collections::HashSet;
use crate::handles::{module_key, FileHandle, ModuleHandle, MODULE_KEYS};

verus! {

broadcast use vstd::std_specs::hash::group_hash_axioms;

/// The files seen so far, each once, in the order of their first arrival.
pub struct FileSet {
    order: Vec<FileHandle>,
    keys: HashSet<u32>,
}

/// The modules seen so far, each once, in the order of their first arrival.
pub struct ModuleSet {
    order: Vec<ModuleHandle>,
    keys: HashSet<u64>,
}

impl View for FileSet {
    type V = Seq<FileHandle>;

    closed spec fn view(&self) -> Seq<FileHandle> {
        self.order@
    }
}

impl View for ModuleSet {
    type V = Seq<ModuleHandle>;

    closed spec fn view(&self) -> Seq<ModuleHandle> {
        self.order@
    }
}

impl FileSet {
    /// The keys are those of the listed files, and no file is listed twice.
    pub closed spec fn wf(&self) -> bool {
        &&& self.order@.no_duplicates()
        &&& forall|f: FileHandle| self.keys@.contains(f.raw) <==> #[trigger] self.order@.contains(f)
    }

    /// The set without files.
    pub fn new() -> (set: Self)
        ensures
            set.wf(),
            set@ == Seq::<FileHandle>::empty(),
    {
        FileSet { order: Vec::new(), keys: HashSet::new() }
    }

    /// Adds `file` unless it is there, and says whether it was new.
    pub fn insert(&mut self, file: FileHandle) -> (fresh: bool)
        requires
            old(self).wf(),
        ensures
            final(self).wf(),
            fresh == !old(self)@.contains(file),
            final(self)@ == if fresh {
                old(self)@.push(file)
            } else {
                old(self)@
            },
    {
        let ghost before = self.order@;
        proof {
            assert(self.keys@.contains(file.raw) <==> before.contains(file));
        }
        let fresh = self.keys.insert(file.raw);
        if fresh {
            self.order.push(file);
            proof {
                let after = self.order@;
                assert(after == before.push(file));
                assert forall|f: FileHandle| self.keys@.contains(f.raw) <==> #[trigger] after.contains(
                    f,
                ) by {
                    if f == file {
                        assert(after[before.len() as int] == f);
                    } else {
                        assert(f.raw != file.raw);
                        if before.contains(f) {
                            let i = choose|i: int| 0 <= i < before.len() && before[i] == f;
                            assert(after[i] == f);
                        }
                        if after.contains(f) {
                            let i = choose|i: int| 0 <= i < after.len() && after[i] == f;
                            assert(before[i] == f);
                        }
                    }
                }
            }
        }
        fresh
    }

    /// The files in the order of their arrival.
    pub fn into_vec(self) -> (files: Vec<FileHandle>)
        requires
            self.wf(),
        ensures
            files@ == self@,
            files@.no_duplicates(),
    {
        self.order
    }

    /// What well-formedness says of the list.
    pub proof fn lemma_distinct(&self)
        requires
            self.wf(),
        ensures
            self@.no_duplicates(),
    {
    }
}

impl ModuleSet {
    /// The keys are those of the listed modules, and no module is listed twice.
    pub closed spec fn wf(&self) -> bool {
        &&& self.order@.no_duplicates()
        &&& forall|m: ModuleHandle|
            self.keys@.contains(module_key(m)) <==> #[trigger] self.order@.contains(m)
    }

    /// The set without modules.
    pub fn new() -> (set: Self)
        ensures
            set.wf(),
            set@ == Seq::<ModuleHandle>::empty(),
    {
        ModuleSet { order: Vec::new(), keys: HashSet::new() }
    }

    /// Adds `module` unless it is there, and says whether it was new.
    pub fn insert(&mut self, module: ModuleHandle) -> (fresh: bool)
        requires
            old(self).wf(),
        ensures
            final(self).wf(),
            fresh == !old(self)@.contains(module),
            final(self)@ == if fresh {
                old(self)@.push(module)
            } else {
                old(self)@
            },
    {
        let ghost before = self.order@;
        proof {
            assert(self.keys@.contains(module_key(module)) <==> before.contains(module));
        }
        let fresh = self.keys.insert(module.key());
        if fresh {
            self.order.push(module);
            proof {
                let after = self.order@;
                assert(after == before.push(module));
                assert forall|m: ModuleHandle|
                    self.keys@.contains(module_key(m)) <==> #[trigger] after.contains(m) by {
                    if m == module {
                        assert(after[before.len() as int] == m);
                    } else {
                        assert(module_key(m) != module_key(module));
                        if before.contains(m) {
                            let i = choose|i: int| 0 <= i < before.len() && before[i] == m;
                            assert(after[i] == m);
                        }
                        if after.contains(m) {
                            let i = choose|i: int| 0 <= i < after.len() && after[i] == m;
                            assert(before[i] == m);
                        }
                    }
                }
            }
        }
        fresh
    }

    /// The modules in the order of their arrival.
    pub fn into_vec(self) -> (modules: Vec<ModuleHandle>)
        requires
            self.wf(),
        ensures
            modules@ == self@,
            modules@.no_duplicates(),
    {
        self.order
    }

    /// What well-formedness says of the list.
    pub proof fn lemma_distinct(&self)
        requires
            self.wf(),
        ensures
            self@.no_duplicates(),
    {
    }
}

/// There are only so many modules: a list without repetition is no longer
/// than the number of module keys.
pub proof fn lemma_distinct_modules_are_few(modules: Seq<ModuleHandle>)
    requires
        modules.no_duplicates(),
    ensures
        modules.len() <= MODULE_KEYS,
{
    let keys = modules.map_values(|m: ModuleHandle| module_key(m) as int);
    assert forall|i: int, j: int| 0 <= i < keys.len() && 0 <= j < keys.len() && i != j implies keys[i]
        != keys[j] by {
        assert(modules[i] != modules[j]);
    }
    keys.unique_seq_to_set();
    let all = set_int_range(0, MODULE_KEYS as int);
    lemma_int_range(0, MODULE_KEYS as int);
    assert forall|k: int| keys.to_set().contains(k) implies all.contains(k) by {
        let i = choose|i: int| 0 <= i < keys.len() && keys[i] == k;
        assert(keys[i] == module_key(modules[i]) as int);
    }
    lemma_len_subset(keys.to_set(), all);
}

} // verus!

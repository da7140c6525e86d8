//! The relation between files and modules, and what is reachable in it.
//!
//! A file leads to the modules that it declares, a module to the files that back
//! it. A node whose query fails leads nowhere.

use vstd::prelude::*;
use crate::database::Revision;
use crate::handles::{FileHandle, ModuleHandle};

verus! {

/// A file or a module.
pub enum Node {
    File(FileHandle),
    Module(ModuleHandle),
}

/// Whether `to` is found by one query on `from`.
pub open spec fn edge<D: Revision>(db: &D, from: Node, to: Node) -> bool {
    match (from, to) {
        (Node::File(f), Node::Module(m)) => db.declared_modules(f) matches Some(found)
            && found.contains(m),
        (Node::Module(m), Node::File(f)) => db.backing_files(m) matches Some(found)
            && found.contains(f),
        _ => false,
    }
}

/// Whether the query that expands `node` fails.
pub open spec fn unresolved<D: Revision>(db: &D, node: Node) -> bool {
    match node {
        Node::File(f) => db.declared_modules(f) is None,
        Node::Module(m) => db.backing_files(m) is None,
    }
}

/// Whether `walk` starts at the file `root` and follows an edge at each step.
pub open spec fn is_walk<D: Revision>(db: &D, root: FileHandle, walk: Seq<Node>) -> bool {
    &&& walk.len() >= 1
    &&& walk[0] == Node::File(root)
    &&& forall|i: int| 0 <= i < walk.len() - 1 ==> edge(db, #[trigger] walk[i], walk[i + 1])
}

/// Whether some walk from `root` ends in `node`.
pub open spec fn reaches<D: Revision>(db: &D, root: FileHandle, node: Node) -> bool {
    exists|walk: Seq<Node>| is_walk(db, root, walk) && #[trigger] walk.last() == node
}

/// Whether a query fails somewhere in what `root` reaches.
pub open spec fn closure_fails<D: Revision>(db: &D, root: FileHandle) -> bool {
    exists|node: Node| #[trigger] reaches(db, root, node) && unresolved(db, node)
}

/// Whether `files` and `modules` list, each item once, exactly what `root`
/// reaches, and no query fails on any of it.
pub open spec fn is_closure<D: Revision>(
    db: &D,
    root: FileHandle,
    files: Seq<FileHandle>,
    modules: Seq<ModuleHandle>,
) -> bool {
    &&& !closure_fails(db, root)
    &&& files.no_duplicates()
    &&& modules.no_duplicates()
    &&& forall|f: FileHandle| #[trigger] files.contains(f) <==> reaches(db, root, Node::File(f))
    &&& forall|m: ModuleHandle| #[trigger]
        modules.contains(m) <==> reaches(db, root, Node::Module(m))
}

/// The root reaches itself.
pub proof fn lemma_root_reached<D: Revision>(db: &D, root: FileHandle)
    ensures
        reaches(db, root, Node::File(root)),
{
    let walk = seq![Node::File(root)];
    assert(is_walk(db, root, walk));
    assert(walk.last() == Node::File(root));
}

/// What is one edge away from a reached node is reached.
pub proof fn lemma_reaches_step<D: Revision>(db: &D, root: FileHandle, from: Node, to: Node)
    requires
        reaches(db, root, from),
        edge(db, from, to),
    ensures
        reaches(db, root, to),
{
    let walk = choose|walk: Seq<Node>| is_walk(db, root, walk) && #[trigger] walk.last() == from;
    let longer = walk.push(to);
    assert forall|i: int| 0 <= i < longer.len() - 1 implies edge(
        db,
        #[trigger] longer[i],
        longer[i + 1],
    ) by {
        if i < walk.len() - 1 {
            assert(longer[i] == walk[i]);
            assert(longer[i + 1] == walk[i + 1]);
        } else {
            assert(longer[i] == walk.last());
        }
    }
    assert(is_walk(db, root, longer));
    assert(longer.last() == to);
}

/// Whether the node is listed.
pub open spec fn listed(files: Seq<FileHandle>, modules: Seq<ModuleHandle>, node: Node) -> bool {
    match node {
        Node::File(f) => files.contains(f),
        Node::Module(m) => modules.contains(m),
    }
}

/// Whether every listed node resolves, and what it leads to is listed again.
pub open spec fn closed_under_edges<D: Revision>(
    db: &D,
    files: Seq<FileHandle>,
    modules: Seq<ModuleHandle>,
) -> bool {
    forall|node: Node| #[trigger]
        listed(files, modules, node) ==> !unresolved(db, node) && forall|next: Node|
            edge(db, node, next) ==> #[trigger] listed(files, modules, next)
}

/// A list that holds the root and is closed under edges holds every node of
/// every walk from the root.
pub proof fn lemma_walk_stays_listed<D: Revision>(
    db: &D,
    root: FileHandle,
    files: Seq<FileHandle>,
    modules: Seq<ModuleHandle>,
    walk: Seq<Node>,
    i: int,
)
    requires
        files.contains(root),
        closed_under_edges(db, files, modules),
        is_walk(db, root, walk),
        0 <= i < walk.len(),
    ensures
        listed(files, modules, walk[i]),
    decreases i,
{
    if i > 0 {
        lemma_walk_stays_listed(db, root, files, modules, walk, i - 1);
        assert(edge(db, walk[i - 1], walk[i - 1 + 1]));
        assert(listed(files, modules, walk[i - 1]));
    }
}

/// A list of reached nodes that holds the root and is closed under edges is
/// the closure of the root.
pub proof fn lemma_closed_list_is_closure<D: Revision>(
    db: &D,
    root: FileHandle,
    files: Seq<FileHandle>,
    modules: Seq<ModuleHandle>,
)
    requires
        files.contains(root),
        files.no_duplicates(),
        modules.no_duplicates(),
        closed_under_edges(db, files, modules),
        forall|node: Node| #[trigger] listed(files, modules, node) ==> reaches(db, root, node),
    ensures
        is_closure(db, root, files, modules),
{
    assert forall|node: Node| #[trigger] reaches(db, root, node) implies listed(
        files,
        modules,
        node,
    ) by {
        let walk = choose|walk: Seq<Node>|
            is_walk(db, root, walk) && #[trigger] walk.last() == node;
        lemma_walk_stays_listed(db, root, files, modules, walk, walk.len() - 1);
    }
    assert forall|f: FileHandle| #[trigger] files.contains(f) <==> reaches(
        db,
        root,
        Node::File(f),
    ) by {
        assert(listed(files, modules, Node::File(f)) == files.contains(f));
    }
    assert forall|m: ModuleHandle| #[trigger] modules.contains(m) <==> reaches(
        db,
        root,
        Node::Module(m),
    ) by {
        assert(listed(files, modules, Node::Module(m)) == modules.contains(m));
    }
    if closure_fails(db, root) {
        let node = choose|node: Node| #[trigger] reaches(db, root, node) && unresolved(db, node);
        assert(listed(files, modules, node));
    }
}

/// No file and no module is taken twice: in the closure of a root, every file
/// and every module that the root reaches stands at exactly one position.
pub proof fn lemma_each_reached_node_is_listed_once<D: Revision>(
    db: &D,
    root: FileHandle,
    files: Seq<FileHandle>,
    modules: Seq<ModuleHandle>,
)
    requires
        is_closure(db, root, files, modules),
    ensures
        forall|f: FileHandle| #[trigger]
            reaches(db, root, Node::File(f)) ==> exists|i: int|
                0 <= i < files.len() && files[i] == f && forall|j: int|
                    0 <= j < files.len() && files[j] == f ==> j == i,
        forall|m: ModuleHandle| #[trigger]
            reaches(db, root, Node::Module(m)) ==> exists|i: int|
                0 <= i < modules.len() && modules[i] == m && forall|j: int|
                    0 <= j < modules.len() && modules[j] == m ==> j == i,
{
    assert forall|f: FileHandle| #[trigger] reaches(db, root, Node::File(f)) implies exists|i: int|
        0 <= i < files.len() && files[i] == f && forall|j: int|
            0 <= j < files.len() && files[j] == f ==> j == i by {
        assert(files.contains(f));
        let i = choose|i: int| 0 <= i < files.len() && files[i] == f;
        assert(forall|j: int| 0 <= j < files.len() && files[j] == f ==> j == i);
    }
    assert forall|m: ModuleHandle| #[trigger] reaches(db, root, Node::Module(m)) implies exists|
        i: int,
    |
        0 <= i < modules.len() && modules[i] == m && forall|j: int|
            0 <= j < modules.len() && modules[j] == m ==> j == i by {
        assert(modules.contains(m));
        let i = choose|i: int| 0 <= i < modules.len() && modules[i] == m;
        assert(forall|j: int| 0 <= j < modules.len() && modules[j] == m ==> j == i);
    }
}

/// The closure of a root is one set of files and one set of modules: two
/// lists that both are its closure hold the same items.
pub proof fn lemma_closure_is_unique<D: Revision>(
    db: &D,
    root: FileHandle,
    files: Seq<FileHandle>,
    modules: Seq<ModuleHandle>,
    other_files: Seq<FileHandle>,
    other_modules: Seq<ModuleHandle>,
)
    requires
        is_closure(db, root, files, modules),
        is_closure(db, root, other_files, other_modules),
    ensures
        files.to_set() == other_files.to_set(),
        modules.to_set() == other_modules.to_set(),
        files.len() == other_files.len(),
        modules.len() == other_modules.len(),
{
    assert forall|f: FileHandle| files.to_set().contains(f) == other_files.to_set().contains(
        f,
    ) by {
        assert(files.contains(f) <==> reaches(db, root, Node::File(f)));
        assert(other_files.contains(f) <==> reaches(db, root, Node::File(f)));
    }
    assert(files.to_set() =~= other_files.to_set());
    assert forall|m: ModuleHandle| modules.to_set().contains(m) == other_modules.to_set().contains(
        m,
    ) by {
        assert(modules.contains(m) <==> reaches(db, root, Node::Module(m)));
        assert(other_modules.contains(m) <==> reaches(db, root, Node::Module(m)));
    }
    assert(modules.to_set() =~= other_modules.to_set());
    files.unique_seq_to_set();
    other_files.unique_seq_to_set();
    modules.unique_seq_to_set();
    other_modules.unique_seq_to_set();
}

} // verus!

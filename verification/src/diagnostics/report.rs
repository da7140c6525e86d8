//! Diagnostics of one root file and of one batch of root files.
//!
//! For the closure of a root, the semantic and then the lowering diagnostics of
//! each module come first, in the order of the modules; the syntax diagnostics of
//! each file follow, in the order of the files. Entries whose message is empty
//! are left out. A root whose closure cannot be computed is skipped as a whole.
//!
//! The diagnostics can be had in two ways: as a whole, root by root, or step
//! by step, one query at a time, for a worker that emits what it finds before
//! it asks on. Both give the same texts in the same order.

use vstd::prelude::*;
use crate::database::{
    findings_view, knows_files, knows_modules, optional_findings_view, Database, Finding,
    FindingView, Revision,
};
use crate::diagnostics::closure::file_and_subfiles_with_corresponding_modules;
use crate::diagnostics::graph::{closure_fails, is_closure, lemma_root_reached};
use crate::handles::{FileHandle, Handle, ModuleHandle};

verus! {

/// What the pass has to say of one root file.
#[derive(Debug, PartialEq, Eq)]
pub enum Outcome {
    /// A query failed in the closure of the root: one error line is due, and
    /// no diagnostics.
    Skipped,
    /// The texts to emit, in order. None at all where the root is clean.
    Diagnosed(Vec<String>),
}

/// The line that reports a skipped root.
pub const SKIPPED_ROOT_MESSAGE: &'static str = "error during diagnostics calculation";

/// The texts of a list of lines.
pub open spec fn lines_view(lines: Seq<String>) -> Seq<Seq<char>> {
    lines.map_values(|line: String| line@)
}

/// The texts of the findings whose message is not empty, in order.
pub open spec fn printable(findings: Seq<FindingView>) -> Seq<Seq<char>>
    decreases findings.len(),
{
    if findings.len() == 0 {
        Seq::empty()
    } else if findings.last().blank {
        printable(findings.drop_last())
    } else {
        printable(findings.drop_last()).push(findings.last().text)
    }
}

/// A missing answer counts as no findings.
pub open spec fn or_empty(answer: Option<Seq<FindingView>>) -> Seq<FindingView> {
    match answer {
        Some(findings) => findings,
        None => Seq::empty(),
    }
}

/// What the modules contribute: for each in turn, its semantic and then its
/// lowering findings.
pub open spec fn module_part(
    semantic: Seq<Option<Seq<FindingView>>>,
    lowering: Seq<Option<Seq<FindingView>>>,
) -> Seq<Seq<char>>
    decreases semantic.len(),
{
    if semantic.len() == 0 || lowering.len() == 0 {
        Seq::empty()
    } else {
        module_part(semantic.drop_last(), lowering.drop_last()) + printable(
            or_empty(semantic.last()),
        ) + printable(or_empty(lowering.last()))
    }
}

/// What the files contribute: for each in turn, its syntax findings.
pub open spec fn file_part(syntax: Seq<Seq<FindingView>>) -> Seq<Seq<char>>
    decreases syntax.len(),
{
    if syntax.len() == 0 {
        Seq::empty()
    } else {
        file_part(syntax.drop_last()) + printable(syntax.last())
    }
}

/// Whether the three lists of answers are ones that `db` may give for these
/// modules and files, position by position.
pub open spec fn answers_admitted<D: Revision>(
    db: &D,
    files: Seq<FileHandle>,
    modules: Seq<ModuleHandle>,
    semantic: Seq<Option<Seq<FindingView>>>,
    lowering: Seq<Option<Seq<FindingView>>>,
    syntax: Seq<Seq<FindingView>>,
) -> bool {
    &&& semantic.len() == modules.len()
    &&& lowering.len() == modules.len()
    &&& syntax.len() == files.len()
    &&& forall|k: int|
        0 <= k < modules.len() ==> db.admits_semantic(modules[k], #[trigger] semantic[k])
    &&& forall|k: int|
        0 <= k < modules.len() ==> db.admits_lowering(modules[k], #[trigger] lowering[k])
    &&& forall|k: int| 0 <= k < files.len() ==> db.admits_syntax(files[k], #[trigger] syntax[k])
}

/// Whether `text` is the report of `root` for this closure and these answers.
pub open spec fn report_from<D: Revision>(
    db: &D,
    root: FileHandle,
    files: Seq<FileHandle>,
    modules: Seq<ModuleHandle>,
    semantic: Seq<Option<Seq<FindingView>>>,
    lowering: Seq<Option<Seq<FindingView>>>,
    syntax: Seq<Seq<FindingView>>,
    text: Seq<Seq<char>>,
) -> bool {
    &&& is_closure(db, root, files, modules)
    &&& files[0] == root
    &&& answers_admitted(db, files, modules, semantic, lowering, syntax)
    &&& text == module_part(semantic, lowering) + file_part(syntax)
}

/// Whether `text` is a report of `root`: the findings of its closure, as `db`
/// may give them, in the order of emission.
pub open spec fn is_report_of<D: Revision>(db: &D, root: FileHandle, text: Seq<Seq<char>>) -> bool {
    exists|
        files: Seq<FileHandle>,
        modules: Seq<ModuleHandle>,
        semantic: Seq<Option<Seq<FindingView>>>,
        lowering: Seq<Option<Seq<FindingView>>>,
        syntax: Seq<Seq<FindingView>>,
    | #[trigger]
        report_from(db, root, files, modules, semantic, lowering, syntax, text)
}

/// Whether `outcome` is what the pass owes for `root`: a skip exactly when its
/// closure fails, a report of it otherwise.
pub open spec fn is_outcome_of<D: Revision>(db: &D, root: FileHandle, outcome: Outcome) -> bool {
    match outcome {
        Outcome::Skipped => closure_fails(db, root),
        Outcome::Diagnosed(lines) => !closure_fails(db, root) && is_report_of(
            db,
            root,
            lines_view(lines@),
        ),
    }
}

/// Appends to `lines` the text of each finding whose message is not empty.
pub fn append_printable(lines: &mut Vec<String>, findings: &Vec<Finding>)
    ensures
        lines_view(final(lines)@) == lines_view(old(lines)@) + printable(findings_view(findings@)),
{
    let ghost before = lines_view(lines@);
    let ghost all = findings_view(findings@);
    let mut i: usize = 0;
    proof {
        assert(all.take(0) =~= Seq::empty());
        assert(lines_view(lines@) =~= before + printable(all.take(0)));
    }
    while i < findings.len()
        invariant
            i <= findings.len(),
            all == findings_view(findings@),
            lines_view(lines@) == before + printable(all.take(i as int)),
        decreases findings.len() - i,
    {
        let ghost so_far = lines@;
        proof {
            assert(all.take(i + 1).drop_last() =~= all.take(i as int));
            assert(all.take(i + 1).last() == findings@[i as int]@);
        }
        if !findings[i].blank {
            lines.push(findings[i].text.clone());
            proof {
                assert(lines_view(lines@) =~= lines_view(so_far).push(findings@[i as int].text@));
                assert(lines_view(lines@) =~= before + printable(all.take(i + 1)));
            }
        }
        i += 1;
    }
    proof {
        assert(all.take(findings.len() as int) =~= all);
    }
}

/// What an [`Emitter`] asks next.
#[derive(Clone, Copy, PartialEq, Eq, Structural, Debug)]
pub enum Stage {
    /// The semantic diagnostics of a module.
    Semantic,
    /// The lowering diagnostics of a module.
    Lowering,
    /// The syntax diagnostics of a file.
    Syntax,
    /// Nothing: every query was made.
    Done,
}

/// The place of an [`Emitter`] in the order of its queries: the stage, and the
/// position of the module or file in the closure.
pub struct Position {
    pub stage: Stage,
    pub index: nat,
}

/// The syntax diagnostics of file `index`, if there is such a file.
pub open spec fn syntax_or_done(index: nat, files: nat) -> Position {
    if index < files {
        Position { stage: Stage::Syntax, index }
    } else {
        Position { stage: Stage::Done, index: 0 }
    }
}

/// Where the queries start: at the first module, or at the first file where
/// the closure has no module.
pub open spec fn first_position(modules: nat, files: nat) -> Position {
    if modules > 0 {
        Position { stage: Stage::Semantic, index: 0 }
    } else {
        syntax_or_done(0, files)
    }
}

/// The order of the queries: for each module in turn its semantic and then
/// its lowering diagnostics, after the last module the syntax diagnostics of
/// each file in turn.
pub open spec fn next_position(at: Position, modules: nat, files: nat) -> Position {
    match at.stage {
        Stage::Semantic => Position { stage: Stage::Lowering, index: at.index },
        Stage::Lowering => if at.index + 1 < modules {
            Position { stage: Stage::Semantic, index: at.index + 1 }
        } else {
            syntax_or_done(0, files)
        },
        Stage::Syntax => syntax_or_done(at.index + 1, files),
        Stage::Done => at,
    }
}

/// Whether the position names a module or file that is there.
pub open spec fn position_fits(at: Position, modules: nat, files: nat) -> bool {
    match at.stage {
        Stage::Semantic => at.index < modules,
        Stage::Lowering => at.index < modules,
        Stage::Syntax => at.index < files,
        Stage::Done => at.index == 0,
    }
}

/// How many queries are still to be made from this position on.
pub open spec fn queries_left(at: Position, modules: nat, files: nat) -> nat {
    match at.stage {
        Stage::Semantic => (2 * (modules - at.index) + files) as nat,
        Stage::Lowering => (2 * (modules - at.index) - 1 + files) as nat,
        Stage::Syntax => (files - at.index) as nat,
        Stage::Done => 0,
    }
}

/// Whether one step from `before` leads to `after` and emits `emitted`: the
/// query of the position is made, its findings are emitted without the blank
/// ones, and the position moves on. At the end nothing is made or emitted.
pub open spec fn is_step<D: Revision>(
    db: &D,
    files: Seq<FileHandle>,
    modules: Seq<ModuleHandle>,
    before: Position,
    after: Position,
    emitted: Option<Seq<Seq<char>>>,
) -> bool {
    match before.stage {
        Stage::Done => emitted is None && after == before,
        Stage::Semantic => {
            &&& after == next_position(before, modules.len(), files.len())
            &&& exists|answer: Option<Seq<FindingView>>| #[trigger]
                db.admits_semantic(modules[before.index as int], answer) && emitted == Some(
                    printable(or_empty(answer)),
                )
        },
        Stage::Lowering => {
            &&& after == next_position(before, modules.len(), files.len())
            &&& exists|answer: Option<Seq<FindingView>>| #[trigger]
                db.admits_lowering(modules[before.index as int], answer) && emitted == Some(
                    printable(or_empty(answer)),
                )
        },
        Stage::Syntax => {
            &&& after == next_position(before, modules.len(), files.len())
            &&& exists|answer: Seq<FindingView>| #[trigger]
                db.admits_syntax(files[before.index as int], answer) && emitted == Some(
                    printable(answer),
                )
        },
    }
}

/// The texts of what a step emitted.
pub open spec fn emitted_view(emitted: Option<Vec<String>>) -> Option<Seq<Seq<char>>> {
    match emitted {
        Some(lines) => Some(lines_view(lines@)),
        None => None,
    }
}

/// The diagnostics of one root, query by query: each step makes the next query
/// on the closure of the root and hands out what is to be emitted for it, so
/// that nothing waits for a later query.
#[derive(Debug)]
pub struct Emitter {
    files: Vec<FileHandle>,
    modules: Vec<ModuleHandle>,
    stage: Stage,
    index: usize,
}

impl Emitter {
    /// The files of the closure, the root first.
    pub closed spec fn files(&self) -> Seq<FileHandle> {
        self.files@
    }

    /// The modules of the closure.
    pub closed spec fn modules(&self) -> Seq<ModuleHandle> {
        self.modules@
    }

    /// The query that the next step makes.
    pub closed spec fn position(&self) -> Position {
        Position { stage: self.stage, index: self.index as nat }
    }

    /// Whether the database knows the files and modules, and the position
    /// names one of them.
    pub open spec fn wf<D: Revision>(&self, db: &D) -> bool {
        &&& knows_files(db, self.files())
        &&& knows_modules(db, self.modules())
        &&& position_fits(self.position(), self.modules().len(), self.files().len())
    }

    /// The position of file `index`, or the end where there is no such file.
    fn syntax_or_done(&mut self, index: usize)
        requires
            index <= old(self).files@.len(),
        ensures
            final(self).files == old(self).files,
            final(self).modules == old(self).modules,
            final(self).position() == syntax_or_done(index as nat, old(self).files@.len()),
    {
        if index < self.files.len() {
            self.stage = Stage::Syntax;
            self.index = index;
        } else {
            self.stage = Stage::Done;
            self.index = 0;
        }
    }

    /// Computes the closure of `root` and stands before its first query.
    /// `None` exactly where the closure cannot be computed.
    pub fn start<D: Database>(db: &D, root: FileHandle) -> (emitter: Option<Emitter>)
        ensures
            emitter is None <==> closure_fails(db, root),
            emitter matches Some(emitter) ==> {
                &&& emitter.wf(db)
                &&& is_closure(db, root, emitter.files(), emitter.modules())
                &&& emitter.files()[0] == root
                &&& emitter.position() == first_position(
                    emitter.modules().len(),
                    emitter.files().len(),
                )
            },
    {
        let (files, modules) = match file_and_subfiles_with_corresponding_modules(db, root) {
            Some(closure) => closure,
            None => {
                return None;
            },
        };
        let mut emitter = Emitter { files, modules, stage: Stage::Semantic, index: 0 };
        if emitter.modules.len() == 0 {
            emitter.syntax_or_done(0);
        }
        Some(emitter)
    }

    /// Whether every query was made.
    pub fn is_done(&self) -> (done: bool)
        ensures
            done == (self.position().stage == Stage::Done),
    {
        match self.stage {
            Stage::Done => true,
            Stage::Semantic => false,
            Stage::Lowering => false,
            Stage::Syntax => false,
        }
    }

    /// Makes the next query and returns the texts to emit for it, or returns
    /// `None` where every query was made.
    pub fn step<D: Database>(&mut self, db: &D) -> (emitted: Option<Vec<String>>)
        requires
            old(self).wf(db),
        ensures
            final(self).wf(db),
            final(self).files() == old(self).files(),
            final(self).modules() == old(self).modules(),
            is_step(
                db,
                old(self).files(),
                old(self).modules(),
                old(self).position(),
                final(self).position(),
                emitted_view(emitted),
            ),
    {
        let mut lines: Vec<String> = Vec::new();
        assert(lines_view(lines@) =~= Seq::empty());
        match self.stage {
            Stage::Done => {
                return None;
            },
            Stage::Semantic => {
                let module = self.modules[self.index];
                assert(db.knows(Handle::Module(self.modules@[self.index as int])));
                let answer = db.semantic_diagnostics_of(module);
                let findings = match answer {
                    Some(findings) => findings,
                    None => Vec::new(),
                };
                assert(findings_view(findings@) =~= or_empty(optional_findings_view(answer)));
                append_printable(&mut lines, &findings);
                assert(lines_view(lines@) =~= printable(or_empty(optional_findings_view(answer))));
                self.stage = Stage::Lowering;
            },
            Stage::Lowering => {
                let module = self.modules[self.index];
                assert(db.knows(Handle::Module(self.modules@[self.index as int])));
                let answer = db.lowering_diagnostics_of(module);
                let findings = match answer {
                    Some(findings) => findings,
                    None => Vec::new(),
                };
                assert(findings_view(findings@) =~= or_empty(optional_findings_view(answer)));
                append_printable(&mut lines, &findings);
                assert(lines_view(lines@) =~= printable(or_empty(optional_findings_view(answer))));
                assert(self.index < self.modules.len());
                if self.index + 1 < self.modules.len() {
                    self.stage = Stage::Semantic;
                    self.index = self.index + 1;
                } else {
                    self.syntax_or_done(0);
                }
            },
            Stage::Syntax => {
                let file = self.files[self.index];
                assert(db.knows(Handle::File(self.files@[self.index as int])));
                let findings = db.syntax_diagnostics_of(file);
                append_printable(&mut lines, &findings);
                assert(lines_view(lines@) =~= printable(findings_view(findings@)));
                assert(self.index < self.files.len());
                let following = self.index + 1;
                self.syntax_or_done(following);
            },
        }
        Some(lines)
    }
}

/// An [`Emitter`] as its closure and its position.
pub struct EmitterView {
    pub files: Seq<FileHandle>,
    pub modules: Seq<ModuleHandle>,
    pub position: Position,
}

impl View for Emitter {
    type V = EmitterView;

    open spec fn view(&self) -> EmitterView {
        EmitterView { files: self.files(), modules: self.modules(), position: self.position() }
    }
}

/// The emitter one query further.
pub open spec fn stepped(emitter: EmitterView) -> EmitterView {
    EmitterView {
        files: emitter.files,
        modules: emitter.modules,
        position: next_position(emitter.position, emitter.modules.len(), emitter.files.len()),
    }
}

/// The emitter, unless it has made every query.
pub open spec fn unless_done(emitter: EmitterView) -> Option<EmitterView> {
    if emitter.position.stage == Stage::Done {
        None
    } else {
        Some(emitter)
    }
}

/// Whether the emitter holds the closure of `root` and stands at a query that
/// `db` takes.
pub open spec fn is_emitter_of<D: Revision>(db: &D, root: FileHandle, emitter: EmitterView) -> bool {
    &&& is_closure(db, root, emitter.files, emitter.modules)
    &&& emitter.files[0] == root
    &&& knows_files(db, emitter.files)
    &&& knows_modules(db, emitter.modules)
    &&& position_fits(emitter.position, emitter.modules.len(), emitter.files.len())
}

/// Whether `emitter` is the emitter of `root` at its first query, and `text`
/// is what that query emits.
pub open spec fn is_first_step<D: Revision>(
    db: &D,
    root: FileHandle,
    emitter: EmitterView,
    text: Seq<Seq<char>>,
) -> bool {
    &&& is_emitter_of(db, root, emitter)
    &&& emitter.position == first_position(emitter.modules.len(), emitter.files.len())
    &&& is_step(
        db,
        emitter.files,
        emitter.modules,
        emitter.position,
        stepped(emitter).position,
        Some(text),
    )
}

/// What a worker emits at one step through its batch.
#[derive(Debug, PartialEq, Eq)]
pub enum Emission {
    /// The line that reports a skipped root.
    Skipped,
    /// The texts of one query, in order. None where it found nothing.
    Lines(Vec<String>),
}

/// An [`Emission`] with its texts as sequences of characters.
pub enum EmissionView {
    Skipped,
    Lines(Seq<Seq<char>>),
}

impl View for Emission {
    type V = EmissionView;

    open spec fn view(&self) -> EmissionView {
        match self {
            Emission::Skipped => EmissionView::Skipped,
            Emission::Lines(lines) => EmissionView::Lines(lines_view(lines@)),
        }
    }
}

/// The view of an optional emission.
pub open spec fn optional_emission_view(emission: Option<Emission>) -> Option<EmissionView> {
    match emission {
        Some(emission) => Some(emission@),
        None => None,
    }
}

/// How far a worker has come in its batch: the number of roots that it has
/// begun, and the emitter of the last of them while queries of it are left.
#[derive(Debug)]
pub struct Progress {
    next_root: usize,
    current: Option<Emitter>,
}

/// A [`Progress`] with the view of its emitter.
pub struct ProgressView {
    pub next_root: nat,
    pub current: Option<EmitterView>,
}

impl View for Progress {
    type V = ProgressView;

    closed spec fn view(&self) -> ProgressView {
        ProgressView {
            next_root: self.next_root as nat,
            current: match self.current {
                Some(emitter) => Some(emitter@),
                None => None,
            },
        }
    }
}

/// Whether one step through `batch` leads from `before` to `after` and emits
/// `emission`. While queries of the root in hand are left, the next of them is
/// made. Else the next root of the batch is begun: where its closure fails it
/// is skipped, and otherwise its first query is made. At the end of the batch
/// nothing is done.
pub open spec fn is_batch_step<D: Revision>(
    db: &D,
    batch: Seq<FileHandle>,
    before: ProgressView,
    after: ProgressView,
    emission: Option<EmissionView>,
) -> bool {
    match before.current {
        Some(emitter) => {
            &&& after.next_root == before.next_root
            &&& after.current == unless_done(stepped(emitter))
            &&& exists|text: Seq<Seq<char>>| #[trigger]
                is_step(
                    db,
                    emitter.files,
                    emitter.modules,
                    emitter.position,
                    stepped(emitter).position,
                    Some(text),
                ) && emission == Some(EmissionView::Lines(text))
        },
        None => if before.next_root >= batch.len() {
            emission is None && after == before
        } else if closure_fails(db, batch[before.next_root as int]) {
            &&& after.next_root == before.next_root + 1
            &&& after.current is None
            &&& emission == Some(EmissionView::Skipped)
        } else {
            &&& after.next_root == before.next_root + 1
            &&& exists|emitter: EmitterView, text: Seq<Seq<char>>| #[trigger]
                is_first_step(db, batch[before.next_root as int], emitter, text) && after.current
                    == unless_done(stepped(emitter)) && emission == Some(
                    EmissionView::Lines(text),
                )
        },
    }
}

impl Progress {
    /// Whether the progress is one through `batch` in `db`: it has begun no
    /// more roots than there are, and its emitter is that of the root begun
    /// last and has queries left.
    pub open spec fn wf<D: Revision>(&self, db: &D, batch: Seq<FileHandle>) -> bool {
        &&& self@.next_root <= batch.len()
        &&& self@.current matches Some(emitter) ==> {
            &&& self@.next_root >= 1
            &&& is_emitter_of(db, batch[self@.next_root - 1], emitter)
            &&& emitter.position.stage != Stage::Done
        }
    }

    /// The progress before the first root.
    pub fn new() -> (progress: Progress)
        ensures
            progress@ == (ProgressView { next_root: 0, current: None }),
    {
        Progress { next_root: 0, current: None }
    }

    /// Goes one step through `batch` and returns what is to be emitted for
    /// it, or `None` where the batch is done.
    pub fn step<D: Database>(&mut self, db: &D, batch: &[FileHandle]) -> (emission: Option<
        Emission,
    >)
        requires
            old(self).wf(db, batch@),
        ensures
            final(self).wf(db, batch@),
            is_batch_step(db, batch@, old(self)@, final(self)@, optional_emission_view(emission)),
    {
        let mut emitter = match self.current.take() {
            Some(emitter) => emitter,
            None => {
                if self.next_root >= batch.len() {
                    return None;
                }
                let root = batch[self.next_root];
                self.next_root = self.next_root + 1;
                match Emitter::start(db, root) {
                    Some(emitter) => {
                        proof {
                            lemma_root_reached(db, root);
                            assert(emitter.files().contains(root));
                        }
                        emitter
                    },
                    None => {
                        return Some(Emission::Skipped);
                    },
                }
            },
        };
        let ghost before = emitter@;
        let emitted = emitter.step(db);
        proof {
            assert(emitter@ == stepped(before));
        }
        if !emitter.is_done() {
            self.current = Some(emitter);
        }
        match emitted {
            Some(lines) => {
                proof {
                    let text = lines_view(lines@);
                    assert(is_step(
                        db,
                        before.files,
                        before.modules,
                        before.position,
                        stepped(before).position,
                        Some(text),
                    ));
                    if old(self)@.current is None {
                        assert(is_first_step(db, batch@[old(self)@.next_root as int], before, text));
                    }
                }
                Some(Emission::Lines(lines))
            },
            None => None,
        }
    }
}

/// What has been emitted up to a position, for the answers given so far.
spec fn emitted_so_far<D: Revision>(
    db: &D,
    files: Seq<FileHandle>,
    modules: Seq<ModuleHandle>,
    at: Position,
    semantic: Seq<Option<Seq<FindingView>>>,
    lowering: Seq<Option<Seq<FindingView>>>,
    syntax: Seq<Seq<FindingView>>,
    text: Seq<Seq<char>>,
) -> bool {
    &&& semantic.len() <= modules.len()
    &&& lowering.len() <= modules.len()
    &&& syntax.len() <= files.len()
    &&& forall|k: int|
        0 <= k < semantic.len() ==> db.admits_semantic(modules[k], #[trigger] semantic[k])
    &&& forall|k: int|
        0 <= k < lowering.len() ==> db.admits_lowering(modules[k], #[trigger] lowering[k])
    &&& forall|k: int| 0 <= k < syntax.len() ==> db.admits_syntax(files[k], #[trigger] syntax[k])
    &&& match at.stage {
        Stage::Semantic => semantic.len() == at.index && lowering.len() == at.index
            && syntax.len() == 0 && text == module_part(semantic, lowering),
        Stage::Lowering => semantic.len() == at.index + 1 && lowering.len() == at.index
            && syntax.len() == 0 && text == module_part(semantic.drop_last(), lowering)
            + printable(or_empty(semantic.last())),
        Stage::Syntax => semantic.len() == modules.len() && lowering.len() == modules.len()
            && syntax.len() == at.index && text == module_part(semantic, lowering) + file_part(
            syntax,
        ),
        Stage::Done => semantic.len() == modules.len() && lowering.len() == modules.len()
            && syntax.len() == files.len() && text == module_part(semantic, lowering) + file_part(
            syntax,
        ),
    }
}

/// The texts of the steps in a row.
pub open spec fn in_a_row(texts: Seq<Seq<Seq<char>>>) -> Seq<Seq<char>>
    decreases texts.len(),
{
    if texts.len() == 0 {
        Seq::empty()
    } else {
        in_a_row(texts.drop_last()) + texts.last()
    }
}

/// Whether `positions` and `texts` are the course of an emitter over this
/// closure from its first query to the end: step `k` leads from position `k`
/// to the next and emits text `k`.
pub open spec fn is_course<D: Revision>(
    db: &D,
    files: Seq<FileHandle>,
    modules: Seq<ModuleHandle>,
    positions: Seq<Position>,
    texts: Seq<Seq<Seq<char>>>,
) -> bool {
    &&& positions.len() == texts.len() + 1
    &&& positions[0] == first_position(modules.len(), files.len())
    &&& positions.last().stage == Stage::Done
    &&& forall|k: int|
        0 <= k < texts.len() ==> is_step(
            db,
            files,
            modules,
            positions[k],
            positions[k + 1],
            Some(#[trigger] texts[k]),
        )
}

/// What the first `upto` steps of a course have emitted is accounted for by
/// answers that the database admits.
proof fn lemma_course_so_far<D: Revision>(
    db: &D,
    files: Seq<FileHandle>,
    modules: Seq<ModuleHandle>,
    positions: Seq<Position>,
    texts: Seq<Seq<Seq<char>>>,
    upto: int,
) -> (answers: (
    Seq<Option<Seq<FindingView>>>,
    Seq<Option<Seq<FindingView>>>,
    Seq<Seq<FindingView>>,
))
    requires
        is_course(db, files, modules, positions, texts),
        0 <= upto <= texts.len(),
    ensures
        position_fits(positions[upto], modules.len(), files.len()),
        emitted_so_far(
            db,
            files,
            modules,
            positions[upto],
            answers.0,
            answers.1,
            answers.2,
            in_a_row(texts.take(upto)),
        ),
    decreases upto,
{
    let nothing: Seq<Option<Seq<FindingView>>> = Seq::empty();
    let no_syntax: Seq<Seq<FindingView>> = Seq::empty();
    if upto == 0 {
        assert(texts.take(0) =~= Seq::empty());
        assert(module_part(nothing, nothing) + file_part(no_syntax) =~= Seq::empty());
        (nothing, nothing, no_syntax)
    } else {
        let (semantic, lowering, syntax) = lemma_course_so_far(
            db,
            files,
            modules,
            positions,
            texts,
            upto - 1,
        );
        let before = positions[upto - 1];
        let text = texts[upto - 1];
        assert(is_step(db, files, modules, before, positions[upto - 1 + 1], Some(text)));
        assert(texts.take(upto).drop_last() =~= texts.take(upto - 1));
        assert(texts.take(upto).last() == text);
        match before.stage {
            Stage::Semantic => {
                let answer = choose|answer: Option<Seq<FindingView>>| #[trigger]
                    db.admits_semantic(modules[before.index as int], answer) && Some(text) == Some(
                        printable(or_empty(answer)),
                    );
                let more = semantic.push(answer);
                assert(more.drop_last() =~= semantic);
                (more, lowering, syntax)
            },
            Stage::Lowering => {
                let answer = choose|answer: Option<Seq<FindingView>>| #[trigger]
                    db.admits_lowering(modules[before.index as int], answer) && Some(text) == Some(
                        printable(or_empty(answer)),
                    );
                let more = lowering.push(answer);
                assert(more.drop_last() =~= lowering);
                assert(file_part(syntax) =~= Seq::empty());
                assert(in_a_row(texts.take(upto)) =~= module_part(semantic, more) + file_part(
                    syntax,
                ));
                (semantic, more, syntax)
            },
            Stage::Syntax => {
                let answer = choose|answer: Seq<FindingView>| #[trigger]
                    db.admits_syntax(files[before.index as int], answer) && Some(text) == Some(
                        printable(answer),
                    );
                let more = syntax.push(answer);
                assert(more.drop_last() =~= syntax);
                assert(in_a_row(texts.take(upto)) =~= module_part(semantic, lowering) + file_part(
                    more,
                ));
                (semantic, lowering, more)
            },
            Stage::Done => (semantic, lowering, syntax),
        }
    }
}

/// What is emitted step by step is the report: the texts that the steps of an
/// emitter emit from its first query to the end are, in a row, a report of
/// its root.
pub proof fn lemma_steps_emit_the_report<D: Revision>(
    db: &D,
    root: FileHandle,
    files: Seq<FileHandle>,
    modules: Seq<ModuleHandle>,
    positions: Seq<Position>,
    texts: Seq<Seq<Seq<char>>>,
)
    requires
        is_closure(db, root, files, modules),
        files[0] == root,
        is_course(db, files, modules, positions, texts),
    ensures
        is_report_of(db, root, in_a_row(texts)),
{
    let (semantic, lowering, syntax) = lemma_course_so_far(
        db,
        files,
        modules,
        positions,
        texts,
        texts.len() as int,
    );
    assert(texts.take(texts.len() as int) =~= texts);
    assert(positions[texts.len() as int] == positions.last());
    assert(report_from(db, root, files, modules, semantic, lowering, syntax, in_a_row(texts)));
}

/// Calculates all kinds of diagnostics for `root_on_disk_file` together with
/// the generated files that descend from it.
///
/// Where the closure of the root cannot be computed, the root is skipped and
/// no query for diagnostics is made. Otherwise the result holds the texts to
/// emit: for each module of the closure its semantic and then its lowering
/// diagnostics, then for each file of the closure its syntax diagnostics, in
/// the order in which the closure lists them. It is what the steps of an
/// [`Emitter`] for the root emit, one after the other.
pub fn calculate_diags_for_file<D: Database>(db: &D, root_on_disk_file: FileHandle) -> (outcome:
    Outcome)
    ensures
        is_outcome_of(db, root_on_disk_file, outcome),
{
    let mut emitter = match Emitter::start(db, root_on_disk_file) {
        Some(emitter) => emitter,
        None => {
            return Outcome::Skipped;
        },
    };
    let ghost files = emitter.files();
    let ghost modules = emitter.modules();
    let mut lines: Vec<String> = Vec::new();
    let ghost mut semantic: Seq<Option<Seq<FindingView>>> = Seq::empty();
    let ghost mut lowering: Seq<Option<Seq<FindingView>>> = Seq::empty();
    let ghost mut syntax: Seq<Seq<FindingView>> = Seq::empty();
    proof {
        assert(lines_view(lines@) =~= Seq::empty());
        assert(module_part(semantic, lowering) + file_part(syntax) =~= Seq::empty());
    }
    loop
        invariant
            emitter.wf(db),
            emitter.files() == files,
            emitter.modules() == modules,
            emitted_so_far(
                db,
                files,
                modules,
                emitter.position(),
                semantic,
                lowering,
                syntax,
                lines_view(lines@),
            ),
        ensures
            emitter.position().stage == Stage::Done,
        decreases queries_left(emitter.position(), modules.len(), files.len()),
    {
        let ghost before = emitter.position();
        let ghost text_before = lines_view(lines@);
        let ghost lines_before = lines@;
        let mut emitted = match emitter.step(db) {
            Some(emitted) => emitted,
            None => {
                break ;
            },
        };
        let ghost text = lines_view(emitted@);
        lines.append(&mut emitted);
        proof {
            assert(lines_view(lines@) =~= text_before + text);
            match before.stage {
                Stage::Semantic => {
                    let answer = choose|answer: Option<Seq<FindingView>>| #[trigger]
                        db.admits_semantic(modules[before.index as int], answer) && Some(text)
                            == Some(printable(or_empty(answer)));
                    let earlier = semantic;
                    semantic = semantic.push(answer);
                    assert(semantic.drop_last() =~= earlier);
                },
                Stage::Lowering => {
                    let answer = choose|answer: Option<Seq<FindingView>>| #[trigger]
                        db.admits_lowering(modules[before.index as int], answer) && Some(text)
                            == Some(printable(or_empty(answer)));
                    let earlier = lowering;
                    lowering = lowering.push(answer);
                    assert(lowering.drop_last() =~= earlier);
                    assert(file_part(syntax) =~= Seq::empty());
                    assert(lines_view(lines@) =~= module_part(semantic, lowering) + file_part(
                        syntax,
                    ));
                },
                Stage::Syntax => {
                    let answer = choose|answer: Seq<FindingView>| #[trigger]
                        db.admits_syntax(files[before.index as int], answer) && Some(text)
                            == Some(printable(answer));
                    let earlier = syntax;
                    syntax = syntax.push(answer);
                    assert(syntax.drop_last() =~= earlier);
                    assert(lines_view(lines@) =~= module_part(semantic, lowering) + file_part(
                        syntax,
                    ));
                },
                Stage::Done => {},
            }
        }
    }
    proof {
        assert(report_from(
            db,
            root_on_disk_file,
            files,
            modules,
            semantic,
            lowering,
            syntax,
            lines_view(lines@),
        ));
    }
    Outcome::Diagnosed(lines)
}

/// Whether `outcomes` holds, position by position, what the pass owes for the
/// roots of `batch`.
pub open spec fn are_outcomes_of<D: Revision>(
    db: &D,
    batch: Seq<FileHandle>,
    outcomes: Seq<Outcome>,
) -> bool {
    &&& outcomes.len() == batch.len()
    &&& forall|k: int| 0 <= k < batch.len() ==> is_outcome_of(db, batch[k], #[trigger] outcomes[k])
}

/// Processes the roots of one batch in their order, each on its own: a root
/// that is skipped does not keep the worker from the next.
pub fn calculate_diags_for_batch<D: Database>(db: &D, batch: &[FileHandle]) -> (outcomes: Vec<
    Outcome,
>)
    ensures
        are_outcomes_of(db, batch@, outcomes@),
{
    let mut outcomes: Vec<Outcome> = Vec::new();
    let mut i: usize = 0;
    while i < batch.len()
        invariant
            i <= batch.len(),
            outcomes.len() == i,
            forall|k: int| 0 <= k < i ==> is_outcome_of(db, batch@[k], #[trigger] outcomes@[k]),
        decreases batch.len() - i,
    {
        let outcome = calculate_diags_for_file(db, batch[i]);
        outcomes.push(outcome);
        i += 1;
    }
    outcomes
}

/// How many of the outcomes are skips.
pub open spec fn skipped_count(outcomes: Seq<Outcome>) -> nat
    decreases outcomes.len(),
{
    if outcomes.len() == 0 {
        0
    } else {
        skipped_count(outcomes.drop_last()) + if outcomes.last() is Skipped {
            1nat
        } else {
            0nat
        }
    }
}

/// How many of the roots have a closure in which a query fails.
pub open spec fn failing_count<D: Revision>(db: &D, batch: Seq<FileHandle>) -> nat
    decreases batch.len(),
{
    if batch.len() == 0 {
        0
    } else {
        failing_count(db, batch.drop_last()) + if closure_fails(db, batch.last()) {
            1nat
        } else {
            0nat
        }
    }
}

/// Faults stay with their root: in the outcomes of a batch, each root whose
/// closure fails is skipped, each other root has its report, and there are as
/// many skips as failing roots.
pub proof fn lemma_faults_are_isolated<D: Revision>(
    db: &D,
    batch: Seq<FileHandle>,
    outcomes: Seq<Outcome>,
)
    requires
        are_outcomes_of(db, batch, outcomes),
    ensures
        forall|k: int|
            0 <= k < batch.len() ==> (#[trigger] outcomes[k] is Skipped <==> closure_fails(
                db,
                batch[k],
            )),
        forall|k: int|
            0 <= k < batch.len() && !closure_fails(db, batch[k]) ==> (
            #[trigger] outcomes[k] matches Outcome::Diagnosed(lines) && is_report_of(
                db,
                batch[k],
                lines_view(lines@),
            )),
        skipped_count(outcomes) == failing_count(db, batch),
    decreases batch.len(),
{
    assert forall|k: int| 0 <= k < batch.len() implies (#[trigger] outcomes[k] is Skipped
        <==> closure_fails(db, batch[k])) by {
        assert(is_outcome_of(db, batch[k], outcomes[k]));
    }
    assert forall|k: int| 0 <= k < batch.len() && !closure_fails(db, batch[k]) implies (
    #[trigger] outcomes[k] matches Outcome::Diagnosed(lines) && is_report_of(
        db,
        batch[k],
        lines_view(lines@),
    )) by {
        assert(is_outcome_of(db, batch[k], outcomes[k]));
    }
    if batch.len() > 0 {
        let shorter = batch.drop_last();
        let fewer = outcomes.drop_last();
        assert forall|k: int| 0 <= k < shorter.len() implies is_outcome_of(
            db,
            shorter[k],
            #[trigger] fewer[k],
        ) by {
            assert(is_outcome_of(db, batch[k], outcomes[k]));
        }
        lemma_faults_are_isolated(db, shorter, fewer);
        assert(is_outcome_of(db, batch.last(), outcomes.last()));
    }
}

} // verus!

//! The flattening orchestrator: a state machine over the replaypacks of an
//! input directory. For each replaypack it clears the stale output, scans,
//! has the copies made and the mapping document written. The caller performs
//! each action on the filesystem and reports what became of it.

use vstd::prelude::*;
use crate::filter::{entry_views, is_dir, EntryView, WalkEntry};
use crate::materializer::{
    copy_action, copy_files, copy_next, copy_start, CopyAction, CopyActionView, CopyEvent,
    CopyState,
};
use crate::path::{
    is_single_component, join, lemma_last_index_of, lemma_relative_to_join,
    path_is_single_component, path_join, path_strip_prefix, relative_to,
};
use crate::persister::{document_for, save_dir_mapping, DocumentView, MappingDocument};
use crate::scanner::{get_filepaths, is_plan_for, selected_files, GetFilepathsResult, PlanView};

verus! {

/// What a run is configured with.
#[derive(Debug, PartialEq, Eq)]
pub struct Args {
    /// The directory whose immediate subdirectories are the replaypacks.
    pub input_directory: String,
    /// The directory under which each replaypack gets its flat output
    /// directory.
    pub output_directory: String,
    /// The extension, without a leading dot, of the files to copy.
    pub file_extension: String,
}

impl Default for Args {
    fn default() -> (args: Args)
        ensures
            args.input_directory@ == "processing/input"@,
            args.output_directory@ == "processing/output"@,
            args.file_extension@ == "SC2Replay"@,
    {
        Args {
            input_directory: "processing/input".to_owned(),
            output_directory: "processing/output".to_owned(),
            file_extension: "SC2Replay".to_owned(),
        }
    }
}

/// One replaypack: where it is, and where its flat output goes.
#[derive(Debug, PartialEq, Eq)]
pub struct Subtree {
    pub input_dir: String,
    pub output_dir: String,
}

/// What a `Subtree` stands for.
pub struct SubtreeView {
    pub input_dir: Seq<char>,
    pub output_dir: Seq<char>,
}

impl View for Subtree {
    type V = SubtreeView;

    open spec fn view(&self) -> SubtreeView {
        SubtreeView { input_dir: self.input_dir@, output_dir: self.output_dir@ }
    }
}

/// The views of replaypacks, in order.
pub open spec fn subtree_views(subtrees: Seq<Subtree>) -> Seq<SubtreeView> {
    Seq::new(subtrees.len(), |i: int| subtrees[i]@)
}

/// A replaypack is a directory exactly one level below the input directory.
pub open spec fn is_subtree(entry: EntryView, main_input_dir: Seq<char>) -> bool {
    &&& entry.is_dir
    &&& relative_to(entry.path, main_input_dir) is Some
    &&& is_single_component(relative_to(entry.path, main_input_dir)->0)
}

/// `is_subtree`, as a predicate on entries.
pub open spec fn subtree_test(main_input_dir: Seq<char>) -> spec_fn(EntryView) -> bool {
    |entry: EntryView| is_subtree(entry, main_input_dir)
}

/// The replaypack that a directory entry is: its output directory has under
/// the output directory the place that the replaypack has under the input
/// directory.
pub open spec fn subtree_of(
    entry: EntryView,
    main_input_dir: Seq<char>,
    main_output_dir: Seq<char>,
) -> SubtreeView {
    SubtreeView {
        input_dir: entry.path,
        output_dir: join(main_output_dir, relative_to(entry.path, main_input_dir)->0),
    }
}

/// The replaypacks among the entries of the input directory, in the
/// listing's order.
pub open spec fn discovered(
    entries: Seq<EntryView>,
    main_input_dir: Seq<char>,
    main_output_dir: Seq<char>,
) -> Seq<SubtreeView> {
    let dirs = entries.filter(subtree_test(main_input_dir));
    Seq::new(dirs.len(), |i: int| subtree_of(dirs[i], main_input_dir, main_output_dir))
}

/// Each replaypack that was found lies one level below the input directory,
/// and its output directory has the same place below the output directory.
/// So two replaypacks with different names have different output
/// directories.
pub proof fn lemma_output_mirrors_input(
    entries: Seq<EntryView>,
    main_input_dir: Seq<char>,
    main_output_dir: Seq<char>,
    i: int,
)
    requires
        0 <= i < discovered(entries, main_input_dir, main_output_dir).len(),
    ensures
        ({
            let subtree = discovered(entries, main_input_dir, main_output_dir)[i];
            &&& relative_to(subtree.input_dir, main_input_dir) is Some
            &&& is_single_component(relative_to(subtree.input_dir, main_input_dir)->0)
            &&& relative_to(subtree.output_dir, main_output_dir) == relative_to(
                subtree.input_dir,
                main_input_dir,
            )
        }),
{
    let test = subtree_test(main_input_dir);
    entries.lemma_filter_pred(test, i);
    let entry = entries.filter(test)[i];
    let name = relative_to(entry.path, main_input_dir)->0;
    lemma_last_index_of(name, '/');
    lemma_relative_to_join(main_output_dir, name);
}

/// What the caller reports.
#[derive(Debug)]
pub enum FlattenEvent {
    /// Nothing has been done yet: asks for the action at hand.
    Begin,
    /// What a listing or a walk found.
    Entries(Vec<WalkEntry>),
    /// The action at hand succeeded.
    Succeeded,
    /// The action at hand found nothing to act on.
    NotFound,
    /// The action at hand failed.
    Failed,
}

/// What a `FlattenEvent` stands for.
pub enum FlattenEventView {
    Begin,
    Entries(Seq<EntryView>),
    Succeeded,
    NotFound,
    Failed,
}

impl View for FlattenEvent {
    type V = FlattenEventView;

    open spec fn view(&self) -> FlattenEventView {
        match self {
            FlattenEvent::Begin => FlattenEventView::Begin,
            FlattenEvent::Entries(entries) => FlattenEventView::Entries(entry_views(entries@)),
            FlattenEvent::Succeeded => FlattenEventView::Succeeded,
            FlattenEvent::NotFound => FlattenEventView::NotFound,
            FlattenEvent::Failed => FlattenEventView::Failed,
        }
    }
}

/// What the caller is to do next.
#[derive(Debug, PartialEq, Eq)]
pub enum FlattenAction {
    /// List the entries directly inside `path`, and report them.
    ListDirectory { path: String },
    /// Remove the directory `path` with all it holds; report `NotFound` if
    /// there is none.
    RemoveDirectory { path: String },
    /// Walk everything under `path`, and report the entries.
    WalkDirectory { path: String },
    /// Create the directory `path` and every missing directory above it.
    CreateDirectory { path: String },
    /// Copy the bytes of `source` to `destination`.
    CopyFile { source: String, destination: String },
    /// Write `contents` to the file `path`, replacing what is there.
    WriteFile { path: String, contents: String },
    /// Every replaypack is done with.
    Finish,
    /// The run cannot go on.
    Abort,
}

/// What a `FlattenAction` stands for.
pub enum FlattenActionView {
    ListDirectory { path: Seq<char> },
    RemoveDirectory { path: Seq<char> },
    WalkDirectory { path: Seq<char> },
    CreateDirectory { path: Seq<char> },
    CopyFile { source: Seq<char>, destination: Seq<char> },
    WriteFile { path: Seq<char>, contents: Seq<char> },
    Finish,
    Abort,
}

impl View for FlattenAction {
    type V = FlattenActionView;

    open spec fn view(&self) -> FlattenActionView {
        match self {
            FlattenAction::ListDirectory { path } => FlattenActionView::ListDirectory {
                path: path@,
            },
            FlattenAction::RemoveDirectory { path } => FlattenActionView::RemoveDirectory {
                path: path@,
            },
            FlattenAction::WalkDirectory { path } => FlattenActionView::WalkDirectory {
                path: path@,
            },
            FlattenAction::CreateDirectory { path } => FlattenActionView::CreateDirectory {
                path: path@,
            },
            FlattenAction::CopyFile { source, destination } => FlattenActionView::CopyFile {
                source: source@,
                destination: destination@,
            },
            FlattenAction::WriteFile { path, contents } => FlattenActionView::WriteFile {
                path: path@,
                contents: contents@,
            },
            FlattenAction::Finish => FlattenActionView::Finish,
            FlattenAction::Abort => FlattenActionView::Abort,
        }
    }
}

/// Where a run stands. All stages but the first and the last two concern the
/// replaypack at hand.
#[derive(Debug)]
pub enum Stage {
    /// The replaypacks are yet to be found.
    Discover,
    /// The stale output is yet to be removed.
    Clear,
    /// The replaypack is yet to be walked.
    Scan,
    /// The copies are being made.
    Copy { plan: GetFilepathsResult, progress: CopyState },
    /// The mapping document is being written: first its directory is made
    /// sure of, then the file is written.
    Persist { document: MappingDocument, directory_ready: bool },
    /// Every replaypack is done with.
    Done,
    /// The run was given up.
    Aborted,
}

/// What a `Stage` stands for.
pub enum StageView {
    Discover,
    Clear,
    Scan,
    Copy { plan: PlanView, progress: CopyState },
    Persist { document: DocumentView, directory_ready: bool },
    Done,
    Aborted,
}

impl View for Stage {
    type V = StageView;

    open spec fn view(&self) -> StageView {
        match self {
            Stage::Discover => StageView::Discover,
            Stage::Clear => StageView::Clear,
            Stage::Scan => StageView::Scan,
            Stage::Copy { plan, progress } => StageView::Copy { plan: plan@, progress: *progress },
            Stage::Persist { document, directory_ready } => StageView::Persist {
                document: document@,
                directory_ready: *directory_ready,
            },
            Stage::Done => StageView::Done,
            Stage::Aborted => StageView::Aborted,
        }
    }
}

/// What a `Flattener` stands for.
pub struct FlattenerView {
    pub main_input_dir: Seq<char>,
    pub main_output_dir: Seq<char>,
    pub desired_extension: Seq<char>,
    /// The replaypacks that were found.
    pub subtrees: Seq<SubtreeView>,
    /// The index of the replaypack at hand.
    pub current: nat,
    pub stage: StageView,
}

/// The state in which a run begins.
pub open spec fn flatten_start(
    main_input_dir: Seq<char>,
    main_output_dir: Seq<char>,
    desired_extension: Seq<char>,
) -> FlattenerView {
    FlattenerView {
        main_input_dir,
        main_output_dir,
        desired_extension,
        subtrees: Seq::empty(),
        current: 0,
        stage: StageView::Discover,
    }
}

/// The state has a replaypack at hand wherever its stage concerns one, and
/// copies to make wherever it is making copies.
pub open spec fn well_formed(s: FlattenerView) -> bool {
    match s.stage {
        StageView::Discover | StageView::Done | StageView::Aborted => true,
        StageView::Clear | StageView::Scan | StageView::Persist { .. } => s.current
            < s.subtrees.len(),
        StageView::Copy { plan, progress } => s.current < s.subtrees.len() && !(copy_action(
            plan.tasks,
            progress,
        ) is Finished),
    }
}

/// The action at hand in the state `s`.
pub open spec fn flatten_action(s: FlattenerView) -> FlattenActionView {
    match s.stage {
        StageView::Discover => FlattenActionView::ListDirectory { path: s.main_input_dir },
        StageView::Clear => FlattenActionView::RemoveDirectory {
            path: s.subtrees[s.current as int].output_dir,
        },
        StageView::Scan => FlattenActionView::WalkDirectory {
            path: s.subtrees[s.current as int].input_dir,
        },
        StageView::Copy { plan, progress } => match copy_action(plan.tasks, progress) {
            CopyActionView::CreateDirectory { path } => FlattenActionView::CreateDirectory { path },
            CopyActionView::CopyFile { source, destination } => FlattenActionView::CopyFile {
                source,
                destination,
            },
            CopyActionView::Finished => FlattenActionView::Finish,
        },
        StageView::Persist { document, directory_ready } => if directory_ready {
            FlattenActionView::WriteFile { path: document.path, contents: document.contents }
        } else {
            FlattenActionView::CreateDirectory { path: s.subtrees[s.current as int].output_dir }
        },
        StageView::Done => FlattenActionView::Finish,
        StageView::Aborted => FlattenActionView::Abort,
    }
}

/// The state `s` at another stage.
pub open spec fn at_stage(s: FlattenerView, stage: StageView) -> FlattenerView {
    FlattenerView { stage, ..s }
}

/// The state that takes up the replaypack at `k`, or ends the run if there
/// is none.
pub open spec fn enter_subtree(s: FlattenerView, k: nat) -> FlattenerView {
    FlattenerView {
        current: k,
        stage: if k < s.subtrees.len() {
            StageView::Clear
        } else {
            StageView::Done
        },
        ..s
    }
}

/// The state that follows `s` once the copies of the replaypack at hand are
/// done with: it is about to write the mapping document of `mapping`.
pub open spec fn persisting(s: FlattenerView, mapping: Map<Seq<char>, Seq<char>>) -> FlattenerView {
    at_stage(
        s,
        StageView::Persist {
            document: document_for(s.subtrees[s.current as int].output_dir, mapping),
            directory_ready: false,
        },
    )
}

/// `t` follows `s` once the replaypack at hand was scanned with the result
/// `plan`: it makes the copies, if there are any, and otherwise goes
/// straight to the mapping document, which is due for an empty plan too.
pub open spec fn follows_scan(s: FlattenerView, plan: PlanView, t: FlattenerView) -> bool {
    if copy_action(plan.tasks, copy_start()) is Finished {
        t == persisting(s, plan.mapping)
    } else {
        t == at_stage(s, StageView::Copy { plan, progress: copy_start() })
    }
}

/// `t` follows `s` once the walk of the replaypack at hand found `entries`.
pub open spec fn scans(s: FlattenerView, entries: Seq<EntryView>, t: FlattenerView) -> bool {
    let subtree = s.subtrees[s.current as int];
    exists|plan: PlanView|
        {
            &&& is_plan_for(
                plan,
                selected_files(entries, subtree.input_dir, s.desired_extension),
                subtree.output_dir,
                s.desired_extension,
            )
            &&& #[trigger] follows_scan(s, plan, t)
        }
}

/// The outcome of an action of the copy plan, as an event of the plan.
pub open spec fn copy_event(event: FlattenEventView) -> Option<CopyEvent> {
    match event {
        FlattenEventView::Succeeded => Some(CopyEvent::Succeeded),
        FlattenEventView::Failed | FlattenEventView::NotFound => Some(CopyEvent::Failed),
        _ => None,
    }
}

/// `t` may follow `s` on `event`.
///
/// - Discovering: a listing gives the replaypacks and takes up the first; a
///   failure gives the run up.
/// - Clearing: once the stale output is gone, or there was none, the
///   replaypack is scanned. Where it cannot be removed, the replaypack is
///   left as it is, nothing of it scanned, copied or written, and the next
///   one is taken up.
/// - Scanning: a walk gives the plan.
/// - Copying: each outcome advances the plan; after the last, the mapping
///   document is due, copies that failed notwithstanding.
/// - Persisting: once the output directory is there the document is written;
///   after that, or after a failure, the next replaypack is taken up.
/// - No failure that concerns one replaypack keeps the run from the others.
/// - An event that the stage does not expect changes nothing.
pub open spec fn flatten_next(s: FlattenerView, event: FlattenEventView, t: FlattenerView) -> bool {
    match (s.stage, event) {
        (StageView::Discover, FlattenEventView::Entries(entries)) => t == enter_subtree(
            FlattenerView {
                subtrees: discovered(entries, s.main_input_dir, s.main_output_dir),
                ..s
            },
            0,
        ),
        (StageView::Discover, FlattenEventView::Failed)
        | (StageView::Discover, FlattenEventView::NotFound) => t == at_stage(
            s,
            StageView::Aborted,
        ),
        (StageView::Clear, FlattenEventView::Failed) => t == enter_subtree(s, s.current + 1),
        (StageView::Clear, FlattenEventView::Succeeded)
        | (StageView::Clear, FlattenEventView::NotFound) => t == at_stage(s, StageView::Scan),
        (StageView::Scan, FlattenEventView::Entries(entries)) => scans(s, entries, t),
        (StageView::Copy { plan, progress }, _) => match copy_event(event) {
            Some(outcome) => {
                let advanced = copy_next(plan.tasks, progress, outcome);
                if copy_action(plan.tasks, advanced) is Finished {
                    t == persisting(s, plan.mapping)
                } else {
                    t == at_stage(s, StageView::Copy { plan, progress: advanced })
                }
            },
            None => t == s,
        },
        (StageView::Persist { document, directory_ready: false }, FlattenEventView::Succeeded) => t
            == at_stage(s, StageView::Persist { document, directory_ready: true }),
        (StageView::Persist { .. }, FlattenEventView::Succeeded)
        | (StageView::Persist { .. }, FlattenEventView::Failed)
        | (StageView::Persist { .. }, FlattenEventView::NotFound) => t == enter_subtree(
            s,
            s.current + 1,
        ),
        _ => t == s,
    }
}

/// The replaypacks among the entries of the input directory.
pub fn discover(main_input_dir: &str, main_output_dir: &str, entries: &Vec<WalkEntry>) -> (subtrees:
    Vec<Subtree>)
    ensures
        subtree_views(subtrees@) == discovered(
            entry_views(entries@),
            main_input_dir@,
            main_output_dir@,
        ),
{
    let ghost views = entry_views(entries@);
    let ghost test = subtree_test(main_input_dir@);
    let mut subtrees: Vec<Subtree> = Vec::new();
    let mut i: usize = 0;
    proof {
        reveal(Seq::filter);
        assert(views.take(0).filter(test) =~= Seq::<EntryView>::empty());
    }
    while i < entries.len()
        invariant
            i <= entries.len(),
            views == entry_views(entries@),
            test == subtree_test(main_input_dir@),
            subtrees.len() == views.take(i as int).filter(test).len(),
            forall|k: int|
                0 <= k < subtrees.len() ==> subtrees[k]@ == subtree_of(
                    #[trigger] views.take(i as int).filter(test)[k],
                    main_input_dir@,
                    main_output_dir@,
                ),
        decreases entries.len() - i,
    {
        let entry = &entries[i];
        proof {
            assert(views.take(i + 1) == views.take(i as int).push(views[i as int]));
            views.take(i as int).lemma_filter_push(views[i as int], test);
            assert(views[i as int] == entry@);
        }
        if is_dir(entry) {
            match path_strip_prefix(entry.path.as_str(), main_input_dir) {
                Some(relative) => {
                    if path_is_single_component(relative.as_str()) {
                        subtrees.push(
                            Subtree {
                                input_dir: entry.path.clone(),
                                output_dir: path_join(main_output_dir, relative.as_str()),
                            },
                        );
                    }
                },
                None => {},
            }
        }
        i += 1;
    }
    proof {
        assert(views.take(i as int) == views);
        assert(subtree_views(subtrees@) =~= discovered(views, main_input_dir@, main_output_dir@));
    }
    subtrees
}

/// A run of the flattener: its configuration, the replaypacks it found, and
/// where it stands.
#[derive(Debug)]
pub struct Flattener {
    main_input_dir: String,
    main_output_dir: String,
    desired_extension: String,
    subtrees: Vec<Subtree>,
    current: usize,
    stage: Stage,
}

impl View for Flattener {
    type V = FlattenerView;

    closed spec fn view(&self) -> FlattenerView {
        FlattenerView {
            main_input_dir: self.main_input_dir@,
            main_output_dir: self.main_output_dir@,
            desired_extension: self.desired_extension@,
            subtrees: subtree_views(self.subtrees@),
            current: self.current as nat,
            stage: self.stage@,
        }
    }
}

/// The stage that takes up the replaypack at `k` of `n`.
fn stage_at(n: usize, k: usize) -> (stage: Stage)
    ensures
        stage@ == (if k < n {
            StageView::Clear
        } else {
            StageView::Done
        }),
{
    if k < n {
        Stage::Clear
    } else {
        Stage::Done
    }
}

impl Flattener {
    #[verifier::type_invariant]
    spec fn holds_together(&self) -> bool {
        well_formed(self@)
    }

    /// A run that is about to begin.
    pub fn new(main_input_dir: String, main_output_dir: String, desired_extension: String) -> (state:
        Flattener)
        ensures
            state@ == flatten_start(main_input_dir@, main_output_dir@, desired_extension@),
    {
        let state = Flattener {
            main_input_dir,
            main_output_dir,
            desired_extension,
            subtrees: Vec::new(),
            current: 0,
            stage: Stage::Discover,
        };
        assert(state@.subtrees =~= Seq::<SubtreeView>::empty());
        state
    }

    /// The action at hand.
    pub fn action(&self) -> (action: FlattenAction)
        ensures
            well_formed(self@),
            action@ == flatten_action(self@),
    {
        proof {
            use_type_invariant(self);
        }
        match &self.stage {
            Stage::Discover => FlattenAction::ListDirectory { path: self.main_input_dir.clone() },
            Stage::Clear => {
                assert(self@.subtrees[self.current as int] == self.subtrees[self.current as int]@);
                FlattenAction::RemoveDirectory {
                    path: self.subtrees[self.current].output_dir.clone(),
                }
            },
            Stage::Scan => {
                assert(self@.subtrees[self.current as int] == self.subtrees[self.current as int]@);
                FlattenAction::WalkDirectory { path: self.subtrees[self.current].input_dir.clone() }
            },
            Stage::Copy { plan, progress } => {
                match copy_files(&plan.input_to_output_vec, *progress, CopyEvent::Begin).1 {
                    CopyAction::CreateDirectory { path } => FlattenAction::CreateDirectory { path },
                    CopyAction::CopyFile { source, destination } => FlattenAction::CopyFile {
                        source,
                        destination,
                    },
                    CopyAction::Finished => FlattenAction::Finish,
                }
            },
            Stage::Persist { document, directory_ready } => {
                if *directory_ready {
                    FlattenAction::WriteFile {
                        path: document.path.clone(),
                        contents: document.contents.clone(),
                    }
                } else {
                    assert(self@.subtrees[self.current as int] == self.subtrees[self.current as int]@);
                    FlattenAction::CreateDirectory {
                        path: self.subtrees[self.current].output_dir.clone(),
                    }
                }
            },
            Stage::Done => FlattenAction::Finish,
            Stage::Aborted => FlattenAction::Abort,
        }
    }

    /// The state that follows on `event`.
    pub fn step(self, event: FlattenEvent) -> (next: Flattener)
        ensures
            flatten_next(self@, event@, next@),
    {
        proof {
            use_type_invariant(&self);
        }
        let ghost before = self@;
        let Flattener {
            main_input_dir,
            main_output_dir,
            desired_extension,
            subtrees,
            current,
            stage,
        } = self;
        let ghost found = subtree_views(subtrees@);
        assert(well_formed(before) && before.subtrees == found && found.len() == subtrees.len());
        let (current, stage) = match (stage, event) {
            (Stage::Discover, FlattenEvent::Entries(entries)) => {
                let subtrees = discover(
                    main_input_dir.as_str(),
                    main_output_dir.as_str(),
                    &entries,
                );
                let stage = stage_at(subtrees.len(), 0);
                return Flattener {
                    main_input_dir,
                    main_output_dir,
                    desired_extension,
                    subtrees,
                    current: 0,
                    stage,
                };
            },
            (Stage::Discover, FlattenEvent::Failed)
            | (Stage::Discover, FlattenEvent::NotFound) => (current, Stage::Aborted),
            (Stage::Clear, FlattenEvent::Failed) => (
                current + 1,
                stage_at(subtrees.len(), current + 1),
            ),
            (Stage::Clear, FlattenEvent::Succeeded) | (Stage::Clear, FlattenEvent::NotFound) => (
                current,
                Stage::Scan,
            ),
            (Stage::Scan, FlattenEvent::Entries(entries)) => {
                assert(found[current as int] == subtrees[current as int]@);
                let plan = get_filepaths(
                    subtrees[current].input_dir.as_str(),
                    subtrees[current].output_dir.as_str(),
                    desired_extension.as_str(),
                    &entries,
                );
                let ghost planned = plan@;
                let first = copy_files(&plan.input_to_output_vec, CopyState::new(), CopyEvent::Begin);
                let next = match first.1 {
                    CopyAction::Finished => persist(&subtrees, current, plan),
                    _ => Stage::Copy { plan, progress: first.0 },
                };
                proof {
                    assert(follows_scan(before, planned, at_stage(before, next@)));
                }
                (current, next)
            },
            (Stage::Copy { plan, progress }, FlattenEvent::Succeeded) => (
                current,
                advance_copy(&subtrees, current, plan, progress, CopyEvent::Succeeded),
            ),
            (Stage::Copy { plan, progress }, FlattenEvent::Failed)
            | (Stage::Copy { plan, progress }, FlattenEvent::NotFound) => (
                current,
                advance_copy(&subtrees, current, plan, progress, CopyEvent::Failed),
            ),
            (
                Stage::Persist { document, directory_ready: false },
                FlattenEvent::Succeeded,
            ) => (current, Stage::Persist { document, directory_ready: true }),
            (Stage::Persist { .. }, FlattenEvent::Succeeded)
            | (Stage::Persist { .. }, FlattenEvent::Failed)
            | (Stage::Persist { .. }, FlattenEvent::NotFound) => (
                current + 1,
                stage_at(subtrees.len(), current + 1),
            ),
            (stage, _) => (current, stage),
        };
        Flattener { main_input_dir, main_output_dir, desired_extension, subtrees, current, stage }
    }
}

/// The stage that follows the copies of the replaypack at `current`: the
/// writing of its mapping document.
fn persist(subtrees: &Vec<Subtree>, current: usize, plan: GetFilepathsResult) -> (stage: Stage)
    requires
        current < subtrees.len(),
    ensures
        stage@ == (StageView::Persist {
            document: document_for(subtrees[current as int].output_dir@, plan@.mapping),
            directory_ready: false,
        }),
{
    let document = save_dir_mapping(
        subtrees[current].output_dir.as_str(),
        &plan.directory_mapping,
    ).unwrap();
    Stage::Persist { document, directory_ready: false }
}

/// The stage that follows an outcome of the copy plan of the replaypack at
/// `current`.
fn advance_copy(
    subtrees: &Vec<Subtree>,
    current: usize,
    plan: GetFilepathsResult,
    progress: CopyState,
    outcome: CopyEvent,
) -> (stage: Stage)
    requires
        current < subtrees.len(),
    ensures
        ({
            let advanced = copy_next(plan@.tasks, progress, outcome);
            if copy_action(plan@.tasks, advanced) is Finished {
                stage@ == (StageView::Persist {
                    document: document_for(subtrees[current as int].output_dir@, plan@.mapping),
                    directory_ready: false,
                })
            } else {
                stage@ == (StageView::Copy { plan: plan@, progress: advanced })
            }
        }),
{
    let advanced = copy_files(&plan.input_to_output_vec, progress, outcome);
    match advanced.1 {
        CopyAction::Finished => persist(subtrees, current, plan),
        _ => Stage::Copy { plan, progress: advanced.0 },
    }
}

/// Flattens the replaypacks of an input directory one action at a time:
/// takes the state of the run and what became of the action at hand, and
/// gives the state that follows with the action to perform next.
pub fn directory_flattener(state: Flattener, event: FlattenEvent) -> (next: (
    Flattener,
    FlattenAction,
))
    ensures
        flatten_next(state@, event@, next.0@),
        well_formed(next.0@),
        next.1@ == flatten_action(next.0@),
{
    let following = state.step(event);
    let action = following.action();
    (following, action)
}

} // verus!

//! The output materializer: which filesystem action carries out a copy plan
//! next, given how the last one went. The caller performs each action and
//! reports its outcome; a failure gives up one task, never the batch.

use vstd::prelude::*;
use crate::mapping::{pair_views, Pair};
use crate::path::{parent, path_parent};

verus! {

/// How far a copy plan has been carried out.
#[derive(Debug, Clone, Copy, PartialEq, Eq, Structural)]
pub struct CopyState {
    /// The index of the task at hand; the tasks before it are done with.
    pub index: usize,
    /// Whether the directory of the task's destination has been created.
    pub directory_ready: bool,
}

/// What the caller reports.
#[derive(Debug, Clone, Copy, PartialEq, Eq, Structural)]
pub enum CopyEvent {
    /// Nothing has been done yet: asks for the action at hand.
    Begin,
    /// The action at hand succeeded.
    Succeeded,
    /// The action at hand failed.
    Failed,
}

/// What the caller is to do next.
#[derive(Debug, PartialEq, Eq)]
pub enum CopyAction {
    /// Create the directory `path` and every missing directory above it.
    CreateDirectory { path: String },
    /// Copy the bytes of `source` to `destination`.
    CopyFile { source: String, destination: String },
    /// Every task is done with.
    Finished,
}

/// What a `CopyAction` stands for.
pub enum CopyActionView {
    CreateDirectory { path: Seq<char> },
    CopyFile { source: Seq<char>, destination: Seq<char> },
    Finished,
}

impl View for CopyAction {
    type V = CopyActionView;

    open spec fn view(&self) -> CopyActionView {
        match self {
            CopyAction::CreateDirectory { path } => CopyActionView::CreateDirectory { path: path@ },
            CopyAction::CopyFile { source, destination } => CopyActionView::CopyFile {
                source: source@,
                destination: destination@,
            },
            CopyAction::Finished => CopyActionView::Finished,
        }
    }
}

/// The state before anything was done.
pub open spec fn copy_start() -> CopyState {
    CopyState { index: 0, directory_ready: false }
}

/// The action at hand in `state`: for the task at `state.index`, first the
/// creation of its destination's directory, if the destination has one, then
/// the copy itself.
pub open spec fn copy_action(tasks: Seq<Pair>, state: CopyState) -> CopyActionView {
    if state.index >= tasks.len() {
        CopyActionView::Finished
    } else {
        let task = tasks[state.index as int];
        if !state.directory_ready && parent(task.1) is Some {
            CopyActionView::CreateDirectory { path: parent(task.1)->0 }
        } else {
            CopyActionView::CopyFile { source: task.0, destination: task.1 }
        }
    }
}

/// The state after `event`. A directory that was created makes way for the
/// copy; a directory that could not be created gives the task up; a copy,
/// whether it succeeded or failed, ends the task. `Begin` changes nothing.
pub open spec fn copy_next(tasks: Seq<Pair>, state: CopyState, event: CopyEvent) -> CopyState {
    match (copy_action(tasks, state), event) {
        (CopyActionView::Finished, _) => state,
        (_, CopyEvent::Begin) => state,
        (CopyActionView::CreateDirectory { .. }, CopyEvent::Succeeded) => CopyState {
            index: state.index,
            directory_ready: true,
        },
        _ => CopyState { index: (state.index + 1) as usize, directory_ready: false },
    }
}

/// An upper bound on the number of actions that are still to come.
pub open spec fn copy_steps_left(tasks: Seq<Pair>, state: CopyState) -> nat {
    if state.index >= tasks.len() {
        0
    } else if state.directory_ready {
        (2 * (tasks.len() - state.index) - 1) as nat
    } else {
        (2 * (tasks.len() - state.index)) as nat
    }
}

/// Every reported outcome brings the end nearer, so a plan of `n` tasks is
/// carried out in at most `2 * n` actions, whatever fails.
pub proof fn lemma_copy_progress(tasks: Seq<Pair>, state: CopyState, event: CopyEvent)
    requires
        tasks.len() <= usize::MAX,
        event != CopyEvent::Begin,
        copy_action(tasks, state) != CopyActionView::Finished,
    ensures
        copy_steps_left(tasks, copy_next(tasks, state, event)) < copy_steps_left(tasks, state),
        copy_steps_left(tasks, copy_start()) == 2 * tasks.len(),
        copy_next(tasks, state, event).index >= state.index,
{
}

/// The copy of a task is only asked for once its destination's directory was
/// created, where the destination has one; and no task is taken up again.
pub proof fn lemma_copy_follows_directory(tasks: Seq<Pair>, state: CopyState, event: CopyEvent)
    requires
        tasks.len() <= usize::MAX,
        copy_action(tasks, copy_next(tasks, state, event)) is CopyFile,
        copy_next(tasks, state, event) != state,
    ensures
        ({
            let next = copy_next(tasks, state, event);
            let task = tasks[next.index as int];
            ||| parent(task.1) is None && next.index == state.index + 1
            ||| parent(task.1) is Some && next.index == state.index && event == CopyEvent::Succeeded
                && copy_action(tasks, state) == (CopyActionView::CreateDirectory {
                path: parent(task.1)->0,
            })
        }),
{
}

impl CopyState {
    /// The state before anything was done.
    pub fn new() -> (state: CopyState)
        ensures
            state == copy_start(),
    {
        CopyState { index: 0, directory_ready: false }
    }
}

/// The action at hand in `state`.
fn action_at(files: &Vec<(String, String)>, state: CopyState) -> (action: CopyAction)
    ensures
        action@ == copy_action(pair_views(files@), state),
{
    if state.index >= files.len() {
        return CopyAction::Finished;
    }
    let task = &files[state.index];
    assert(pair_views(files@)[state.index as int] == (task.0@, task.1@));
    if !state.directory_ready {
        match path_parent(task.1.as_str()) {
            Some(path) => {
                return CopyAction::CreateDirectory { path };
            },
            None => {},
        }
    }
    CopyAction::CopyFile { source: task.0.clone(), destination: task.1.clone() }
}

/// Carries out the copy plan `files` one action at a time: takes the state
/// and what became of the action at hand, and gives the state that follows
/// with the action to perform next.
pub fn copy_files(files: &Vec<(String, String)>, state: CopyState, event: CopyEvent) -> (next: (
    CopyState,
    CopyAction,
))
    ensures
        next.0 == copy_next(pair_views(files@), state, event),
        next.1@ == copy_action(pair_views(files@), next.0),
{
    let at_hand = action_at(files, state);
    assert(pair_views(files@).len() == files.len());
    let following = match (at_hand, event) {
        (CopyAction::Finished, _) => state,
        (_, CopyEvent::Begin) => state,
        (CopyAction::CreateDirectory { .. }, CopyEvent::Succeeded) => CopyState {
            index: state.index,
            directory_ready: true,
        },
        _ => CopyState { index: state.index + 1, directory_ready: false },
    };
    (following, action_at(files, following))
}

} // verus!

//! Runs of the orchestrator, and what holds of every run whatever the
//! filesystem answers: a replaypack's output is written only after it was
//! cleared, and only inside its own output directory; what is copied and
//! what the mapping document records come from the walk that was reported
//! for that replaypack; and the copies lead to the mapping document.

use vstd::prelude::*;
use crate::filter::EntryView;
use crate::identifier::{generated_name, is_identifier};
use crate::materializer::{copy_steps_left, lemma_copy_progress};
use crate::orchestrator::{
    copy_event, flatten_action, flatten_next, follows_scan, well_formed, FlattenActionView,
    FlattenEventView, FlattenerView, StageView, SubtreeView,
};
use crate::path::{file_name, join, parent, relative_to};
use crate::persister::{document_for, pretty_json, MAPPING_FILE_NAME};
use crate::scanner::{
    distinct_identifiers, file_of, is_plan_for, lemma_copies_lie_in_the_output_directory,
    lemma_every_selected_file_is_mapped, lemma_nothing_selected_gives_empty_plan,
    lemma_one_key_per_file, lemma_selected_file_has_entry, plan, selected, selected_files,
    FileView, PlanView,
};

verus! {

/// The state that follows the state at `i`.
pub open spec fn state_after(states: Seq<FlattenerView>, i: int) -> FlattenerView {
    states[i + 1]
}

/// A run: the states that the orchestrator went through from its first,
/// and the event that led from each to the next.
pub open spec fn is_run(states: Seq<FlattenerView>, events: Seq<FlattenEventView>) -> bool {
    &&& states.len() == events.len() + 1
    &&& states[0].stage is Discover
    &&& forall|i: int|
        0 <= i < events.len() ==> flatten_next(states[i], events[i], #[trigger] state_after(states, i))
}

/// The replaypack at hand in `s`.
pub open spec fn subtree_at_hand(s: FlattenerView) -> SubtreeView {
    s.subtrees[s.current as int]
}

/// The state is at work on the replaypack at hand: it scans it, copies its
/// files or writes its mapping document.
pub open spec fn at_work(s: FlattenerView) -> bool {
    s.stage is Scan || s.stage is Copy || s.stage is Persist
}

/// Two states have the same configuration and the same replaypack at hand.
pub open spec fn same_subtree(s: FlattenerView, t: FlattenerView) -> bool {
    &&& s.main_input_dir == t.main_input_dir
    &&& s.main_output_dir == t.main_output_dir
    &&& s.desired_extension == t.desired_extension
    &&& s.subtrees == t.subtrees
    &&& s.current == t.current
}

/// The action writes to the filesystem.
pub open spec fn writes(action: FlattenActionView) -> bool {
    action is CreateDirectory || action is CopyFile || action is WriteFile
}

/// The step from the state at `j` cleared the output of the replaypack that
/// the state at `i` has at hand, and the run was at work on that replaypack
/// from then on.
pub open spec fn cleared_at(
    states: Seq<FlattenerView>,
    events: Seq<FlattenEventView>,
    j: int,
    i: int,
) -> bool {
    &&& 0 <= j < i < states.len()
    &&& states[j].stage is Clear
    &&& flatten_action(states[j]) == (FlattenActionView::RemoveDirectory {
        path: subtree_at_hand(states[i]).output_dir,
    })
    &&& (events[j] is Succeeded || events[j] is NotFound)
    &&& forall|k: int| j < k <= i ==> at_work(#[trigger] states[k]) && same_subtree(states[k], states[i])
}

/// The state at `k` scanned the replaypack that the state at `i` has at
/// hand, and `plan` is a plan for the files selected from the walk that was
/// reported to it.
pub open spec fn scanned_at(
    states: Seq<FlattenerView>,
    events: Seq<FlattenEventView>,
    k: int,
    i: int,
    plan: PlanView,
) -> bool {
    let subtree = subtree_at_hand(states[i]);
    &&& 0 <= k < i < states.len()
    &&& states[k].stage is Scan
    &&& events[k] is Entries
    &&& same_subtree(states[k], states[i])
    &&& is_plan_for(
        plan,
        selected_files(events[k]->Entries_0, subtree.input_dir, states[i].desired_extension),
        subtree.output_dir,
        states[i].desired_extension,
    )
}

/// The plan that the state `s` carries out, or whose mapping document it
/// writes, is `plan`.
pub open spec fn works_on(s: FlattenerView, plan: PlanView) -> bool {
    match s.stage {
        StageView::Copy { plan: carried, .. } => carried == plan,
        StageView::Persist { document, .. } => document == document_for(
            subtree_at_hand(s).output_dir,
            plan.mapping,
        ),
        _ => false,
    }
}

/// `destination` is where a copy with a generated name goes in
/// `output_dir`.
pub open spec fn is_generated_destination(
    destination: Seq<char>,
    output_dir: Seq<char>,
    desired_extension: Seq<char>,
) -> bool {
    exists|id: Seq<char>|
        is_identifier(id) && destination == join(
            output_dir,
            #[trigger] generated_name(id, desired_extension),
        )
}

/// The action writes nothing outside `output_dir`: it creates that directory
/// or the one that holds a generated destination in it, copies to a
/// generated destination in it, or writes its mapping document.
pub open spec fn writes_within(
    action: FlattenActionView,
    output_dir: Seq<char>,
    desired_extension: Seq<char>,
) -> bool {
    match action {
        FlattenActionView::CreateDirectory { path } => {
            ||| path == output_dir
            ||| exists|destination: Seq<char>|
                #[trigger] is_generated_destination(destination, output_dir, desired_extension)
                    && parent(destination) == Some(path)
        },
        FlattenActionView::CopyFile { destination, .. } => is_generated_destination(
            destination,
            output_dir,
            desired_extension,
        ),
        FlattenActionView::WriteFile { path, .. } => path == join(output_dir, MAPPING_FILE_NAME@),
        _ => true,
    }
}

/// A step leads to work on a replaypack only from the clearing of that
/// replaypack's output, once it is gone or was never there, or from work on
/// the same replaypack.
pub proof fn lemma_work_follows_clearing(
    s: FlattenerView,
    event: FlattenEventView,
    t: FlattenerView,
)
    requires
        flatten_next(s, event, t),
        at_work(t),
    ensures
        same_subtree(s, t),
        at_work(s) || (s.stage is Clear && (event is Succeeded || event is NotFound)),
{
}

/// The index of the last state before the state at `i` that scanned a
/// replaypack, or `-1` if none did.
pub open spec fn scan_before(states: Seq<FlattenerView>, i: int) -> int
    decreases i,
{
    if i <= 0 {
        -1
    } else if states[i - 1].stage is Scan {
        i - 1
    } else {
        scan_before(states, i - 1)
    }
}

/// The entries of the walk that was reported to the state at `k`.
pub open spec fn walk_at(events: Seq<FlattenEventView>, k: int) -> Seq<EntryView> {
    events[k]->Entries_0
}

/// The files that the state at `k` selected from the walk reported to it.
pub open spec fn files_at(
    states: Seq<FlattenerView>,
    events: Seq<FlattenEventView>,
    k: int,
) -> Seq<FileView> {
    selected_files(
        walk_at(events, k),
        subtree_at_hand(states[k]).input_dir,
        states[k].desired_extension,
    )
}

/// The plan that the state at `k` made of the walk reported to it.
pub open spec fn plan_at(
    states: Seq<FlattenerView>,
    events: Seq<FlattenEventView>,
    k: int,
) -> PlanView {
    choose|plan: PlanView|
        is_plan_for(
            plan,
            files_at(states, events, k),
            subtree_at_hand(states[k]).output_dir,
            states[k].desired_extension,
        ) && #[trigger] follows_scan(states[k], plan, state_after(states, k))
}

/// The identifiers that the state at `k` drew for the files it selected.
pub open spec fn ids_at(
    states: Seq<FlattenerView>,
    events: Seq<FlattenEventView>,
    k: int,
) -> Seq<Seq<char>> {
    choose|ids: Seq<Seq<char>>|
        {
            &&& ids.len() == files_at(states, events, k).len()
            &&& forall|i: int| 0 <= i < ids.len() ==> is_identifier(#[trigger] ids[i])
            &&& plan_at(states, events, k) == plan(
                files_at(states, events, k),
                ids,
                subtree_at_hand(states[k]).output_dir,
                states[k].desired_extension,
            )
        }
}

/// What a run copies and what it records come from the walk: wherever a run
/// makes copies or writes a mapping document, the last scan before was of
/// the replaypack at hand, and the plan that the run carries out, or whose
/// mapping it writes, is the plan made then of the walk reported then.
pub proof fn lemma_plan_comes_from_the_walk(
    states: Seq<FlattenerView>,
    events: Seq<FlattenEventView>,
    i: int,
)
    requires
        is_run(states, events),
        0 <= i < states.len(),
        states[i].stage is Copy || states[i].stage is Persist,
    ensures
        scanned_at(
            states,
            events,
            scan_before(states, i),
            i,
            plan_at(states, events, scan_before(states, i)),
        ),
        works_on(states[i], plan_at(states, events, scan_before(states, i))),
    decreases i,
{
    assert(i > 0);
    let s = states[i - 1];
    let t = states[i];
    assert(t == state_after(states, i - 1));
    lemma_work_follows_clearing(s, events[i - 1], t);
    if s.stage is Scan {
        let k = i - 1;
        let plan = choose|plan: PlanView|
            is_plan_for(
                plan,
                files_at(states, events, k),
                subtree_at_hand(s).output_dir,
                s.desired_extension,
            ) && #[trigger] follows_scan(s, plan, t);
        assert(plan == plan_at(states, events, k));
        assert(follows_scan(s, plan, t));
    } else {
        lemma_plan_comes_from_the_walk(states, events, i - 1);
    }
}

/// The plan of the last scan is the plan of the files selected then under
/// the identifiers drawn then, one for each file.
pub proof fn lemma_plan_has_identifiers(
    states: Seq<FlattenerView>,
    events: Seq<FlattenEventView>,
    i: int,
)
    requires
        is_run(states, events),
        0 <= i < states.len(),
        states[i].stage is Copy || states[i].stage is Persist,
    ensures
        ({
            let k = scan_before(states, i);
            let ids = ids_at(states, events, k);
            let files = files_at(states, events, k);
            &&& ids.len() == files.len()
            &&& forall|n: int| 0 <= n < ids.len() ==> is_identifier(#[trigger] ids[n])
            &&& plan_at(states, events, k) == plan(
                files,
                ids,
                subtree_at_hand(states[i]).output_dir,
                states[i].desired_extension,
            )
        }),
{
    lemma_plan_comes_from_the_walk(states, events, i);
    let k = scan_before(states, i);
    assert(is_plan_for(
        plan_at(states, events, k),
        files_at(states, events, k),
        subtree_at_hand(states[k]).output_dir,
        states[k].desired_extension,
    ));
}

/// Between two states with no scan from the first up to the second, the
/// last scan is the same.
pub proof fn lemma_same_scan(states: Seq<FlattenerView>, i: int, w: int)
    requires
        0 <= i <= w < states.len(),
        forall|m: int| i <= m < w ==> !(#[trigger] states[m].stage is Scan),
    ensures
        scan_before(states, w) == scan_before(states, i),
    decreases w - i,
{
    if i < w {
        assert(!(states[w - 1].stage is Scan));
        lemma_same_scan(states, i, w - 1);
    }
}

/// Wherever a run is at work on a replaypack, it has cleared that
/// replaypack's output before, and has been at work on it since.
pub proof fn lemma_run_clears_before_work(
    states: Seq<FlattenerView>,
    events: Seq<FlattenEventView>,
    i: int,
) -> (j: int)
    requires
        is_run(states, events),
        0 <= i < states.len(),
        at_work(states[i]),
    ensures
        cleared_at(states, events, j, i),
    decreases i,
{
    assert(i > 0);
    assert(states[i] == state_after(states, i - 1));
    lemma_work_follows_clearing(states[i - 1], events[i - 1], states[i]);
    if at_work(states[i - 1]) {
        let j = lemma_run_clears_before_work(states, events, i - 1);
        assert forall|k: int| j < k <= i implies at_work(#[trigger] states[k]) && same_subtree(
            states[k],
            states[i],
        ) by {
            if k < i {
                assert(same_subtree(states[k], states[i - 1]));
            }
        }
        j
    } else {
        i - 1
    }
}

/// The mapping document that a run asks to be written goes to
/// `mapping.json` in the output directory of the replaypack at hand, and
/// holds the pretty-printed mapping of the plan made by the last scan, which
/// was of that replaypack.
pub proof fn lemma_written_document_is_of_the_walk(
    states: Seq<FlattenerView>,
    events: Seq<FlattenEventView>,
    i: int,
)
    requires
        is_run(states, events),
        0 <= i < states.len(),
        flatten_action(states[i]) is WriteFile,
    ensures
        scanned_at(
            states,
            events,
            scan_before(states, i),
            i,
            plan_at(states, events, scan_before(states, i)),
        ),
        flatten_action(states[i]) == (FlattenActionView::WriteFile {
            path: join(subtree_at_hand(states[i]).output_dir, MAPPING_FILE_NAME@),
            contents: pretty_json(plan_at(states, events, scan_before(states, i)).mapping),
        }),
{
    lemma_plan_comes_from_the_walk(states, events, i);
}

/// The mapping keeps `relative` under some key.
pub open spec fn records(mapping: Map<Seq<char>, Seq<char>>, relative: Seq<char>) -> bool {
    exists|key: Seq<char>| mapping.contains_key(key) && #[trigger] mapping[key] == relative
}

/// The mapping keeps, for every file among `entries` that has the desired
/// extension and lies under `root`, that file's path relative to `root`.
pub open spec fn is_complete(
    entries: Seq<EntryView>,
    root: Seq<char>,
    desired_extension: Seq<char>,
    mapping: Map<Seq<char>, Seq<char>>,
) -> bool {
    forall|j: int|
        0 <= j < entries.len() && selected(#[trigger] entries[j], root, desired_extension)
            ==> records(mapping, relative_to(entries[j].path, root)->0)
}

/// Completeness and uniqueness of a whole run: where the identifiers that
/// the scan of a replaypack drew differ from one another, the mapping
/// document that the run asks to be written for that replaypack holds, for
/// every file of the reported walk that has the desired extension and lies
/// under the replaypack, an entry whose value is the file's path relative to
/// the replaypack; and it has exactly as many keys as there are such files.
pub proof fn lemma_written_mapping_is_complete(
    states: Seq<FlattenerView>,
    events: Seq<FlattenEventView>,
    i: int,
)
    requires
        is_run(states, events),
        0 <= i < states.len(),
        flatten_action(states[i]) is WriteFile,
        distinct_identifiers(
            ids_at(states, events, scan_before(states, i)),
            files_at(states, events, scan_before(states, i)).len(),
        ),
    ensures
        ({
            let k = scan_before(states, i);
            let subtree = subtree_at_hand(states[i]);
            let mapping = plan_at(states, events, k).mapping;
            &&& 0 <= k < i
            &&& states[k].stage is Scan
            &&& events[k] is Entries
            &&& same_subtree(states[k], states[i])
            &&& flatten_action(states[i]) == (FlattenActionView::WriteFile {
                path: join(subtree.output_dir, MAPPING_FILE_NAME@),
                contents: pretty_json(mapping),
            })
            &&& is_complete(
                walk_at(events, k),
                subtree.input_dir,
                states[i].desired_extension,
                mapping,
            )
            &&& mapping.dom().finite()
            &&& mapping.len() == files_at(states, events, k).len()
        }),
{
    let k = scan_before(states, i);
    let subtree = subtree_at_hand(states[i]);
    let extension = states[i].desired_extension;
    let entries = walk_at(events, k);
    let files = files_at(states, events, k);
    let ids = ids_at(states, events, k);
    let mapping = plan_at(states, events, k).mapping;
    lemma_plan_comes_from_the_walk(states, events, i);
    lemma_plan_has_identifiers(states, events, i);
    lemma_one_key_per_file(files, ids, subtree.output_dir, extension);
    assert forall|j: int|
        0 <= j < entries.len() && selected(#[trigger] entries[j], subtree.input_dir, extension)
        implies records(mapping, relative_to(entries[j].path, subtree.input_dir)->0) by {
        lemma_every_selected_file_is_mapped(
            entries,
            ids,
            subtree.input_dir,
            subtree.output_dir,
            extension,
            j,
        );
        let key = choose|key: Seq<char>|
            mapping.contains_key(key) && Some(#[trigger] mapping[key]) == relative_to(
                entries[j].path,
                subtree.input_dir,
            );
        assert(mapping[key] == relative_to(entries[j].path, subtree.input_dir)->0);
    }
}

/// Recoverability of a whole run, as far as the decisions go: where the
/// identifiers that the scan of a replaypack drew differ from one another,
/// every copy that the run asks for goes to the output directory under a
/// file name that is a key of the mapping written afterwards for that
/// replaypack, and the value under that key is the path of the copy's
/// source relative to the replaypack. So the mapping and the output
/// directory say where each copy came from.
pub proof fn lemma_copy_is_recorded(
    states: Seq<FlattenerView>,
    events: Seq<FlattenEventView>,
    i: int,
    w: int,
)
    requires
        is_run(states, events),
        0 <= i <= w < states.len(),
        flatten_action(states[i]) is CopyFile,
        flatten_action(states[w]) is WriteFile,
        forall|m: int| i <= m < w ==> !(#[trigger] states[m].stage is Scan),
        distinct_identifiers(
            ids_at(states, events, scan_before(states, w)),
            files_at(states, events, scan_before(states, w)).len(),
        ),
    ensures
        ({
            let subtree = subtree_at_hand(states[w]);
            let mapping = plan_at(states, events, scan_before(states, w)).mapping;
            let source = flatten_action(states[i])->CopyFile_source;
            let destination = flatten_action(states[i])->CopyFile_destination;
            let key = file_name(destination);
            &&& same_subtree(states[i], states[w])
            &&& flatten_action(states[w])->WriteFile_contents == pretty_json(mapping)
            &&& destination == join(subtree.output_dir, key)
            &&& mapping.contains_key(key)
            &&& relative_to(source, subtree.input_dir) == Some(mapping[key])
        }),
{
    let k = scan_before(states, w);
    lemma_same_scan(states, i, w);
    lemma_plan_comes_from_the_walk(states, events, i);
    lemma_plan_comes_from_the_walk(states, events, w);
    lemma_plan_has_identifiers(states, events, w);
    let subtree = subtree_at_hand(states[w]);
    let extension = states[w].desired_extension;
    let entries = walk_at(events, k);
    let files = files_at(states, events, k);
    let ids = ids_at(states, events, k);
    let at = states[i].stage->progress.index as int;
    assert(0 <= at < files.len());
    lemma_one_key_per_file(files, ids, subtree.output_dir, extension);
    lemma_copies_lie_in_the_output_directory(
        entries,
        ids,
        subtree.input_dir,
        subtree.output_dir,
        extension,
        at,
    );
    let j = lemma_selected_file_has_entry(entries, subtree.input_dir, extension, at);
    assert(files[at] == file_of(entries[j], subtree.input_dir));
    let key = generated_name(ids[at], extension);
    assert(plan_at(states, events, k).mapping.contains_key(key));
}

/// An upper bound on the number of outcomes that are still to come before
/// the mapping document of the replaypack at hand is asked for.
pub open spec fn steps_before_write(s: FlattenerView) -> nat {
    match s.stage {
        StageView::Copy { plan, progress } => copy_steps_left(plan.tasks, progress) + 1,
        StageView::Persist { directory_ready: false, .. } => 1,
        _ => 0,
    }
}

/// Copies lead to the mapping: no outcome of a copy or of the creation of
/// its directory makes the run leave the replaypack, and each brings the
/// mapping document nearer. Once the output directory is there, the
/// document is what the run asks to be written.
pub proof fn lemma_copies_lead_to_the_mapping(
    s: FlattenerView,
    event: FlattenEventView,
    t: FlattenerView,
)
    requires
        well_formed(s),
        flatten_next(s, event, t),
        event is Succeeded || event is Failed || event is NotFound,
        s.stage is Copy ==> s.stage->plan.tasks.len() <= usize::MAX,
    ensures
        s.stage is Copy ==> same_subtree(s, t) && (t.stage is Copy || t.stage is Persist)
            && steps_before_write(t) < steps_before_write(s),
        s.stage is Persist && !s.stage->directory_ready && event is Succeeded ==> flatten_action(t)
            == (FlattenActionView::WriteFile {
            path: s.stage->document.path,
            contents: s.stage->document.contents,
        }),
{
    if s.stage is Copy {
        lemma_copy_progress(s.stage->plan.tasks, s.stage->progress, copy_event(event)->0);
    }
}

/// Empty subtree, at the orchestrator: where the walk of a replaypack holds
/// no file with the desired extension, the run asks for no copy. It asks for
/// the output directory and, once that is there, for a mapping document that
/// holds the empty table.
pub proof fn lemma_empty_replaypack_gets_its_mapping(
    s: FlattenerView,
    entries: Seq<EntryView>,
    t: FlattenerView,
    u: FlattenerView,
)
    requires
        s.stage is Scan,
        flatten_next(s, FlattenEventView::Entries(entries), t),
        flatten_next(t, FlattenEventView::Succeeded, u),
        forall|j: int|
            0 <= j < entries.len() ==> !selected(
                #[trigger] entries[j],
                subtree_at_hand(s).input_dir,
                s.desired_extension,
            ),
    ensures
        flatten_action(t) == (FlattenActionView::CreateDirectory {
            path: subtree_at_hand(s).output_dir,
        }),
        flatten_action(u) == (FlattenActionView::WriteFile {
            path: join(subtree_at_hand(s).output_dir, MAPPING_FILE_NAME@),
            contents: pretty_json(Map::empty()),
        }),
{
    let subtree = subtree_at_hand(s);
    let files = selected_files(entries, subtree.input_dir, s.desired_extension);
    let found = choose|found: PlanView|
        is_plan_for(found, files, subtree.output_dir, s.desired_extension)
            && #[trigger] follows_scan(s, found, t);
    let ids = choose|ids: Seq<Seq<char>>|
        {
            &&& ids.len() == files.len()
            &&& forall|n: int| 0 <= n < ids.len() ==> is_identifier(#[trigger] ids[n])
            &&& found == plan(files, ids, subtree.output_dir, s.desired_extension)
        };
    lemma_nothing_selected_gives_empty_plan(
        entries,
        ids,
        subtree.input_dir,
        subtree.output_dir,
        s.desired_extension,
    );
}

/// Idempotent replacement, as far as the decisions go: whenever a run asks
/// for something to be written, it has earlier asked for the output
/// directory of the replaypack at hand to be removed, was told that the
/// directory is gone or was never there, and has worked on that replaypack
/// alone since; and what it asks to write lies in that directory. So what a
/// run leaves in an output directory, it wrote itself.
pub proof fn lemma_output_is_cleared_before_it_is_written(
    states: Seq<FlattenerView>,
    events: Seq<FlattenEventView>,
    i: int,
) -> (j: int)
    requires
        is_run(states, events),
        0 <= i < states.len(),
        writes(flatten_action(states[i])),
    ensures
        cleared_at(states, events, j, i),
        writes_within(
            flatten_action(states[i]),
            subtree_at_hand(states[i]).output_dir,
            states[i].desired_extension,
        ),
{
    let s = states[i];
    let output_dir = subtree_at_hand(s).output_dir;
    lemma_plan_comes_from_the_walk(states, events, i);
    lemma_plan_has_identifiers(states, events, i);
    match s.stage {
        StageView::Copy { plan: carried, progress } => {
            let ids = ids_at(states, events, scan_before(states, i));
            let at = progress.index as int;
            let destination = carried.tasks[at].1;
            assert(is_identifier(ids[at]));
            assert(destination == join(output_dir, generated_name(ids[at], s.desired_extension)));
            assert(is_generated_destination(destination, output_dir, s.desired_extension));
        },
        _ => {},
    }
    lemma_run_clears_before_work(states, events, i)
}

} // verus!

//! The replaypack scanner: from the entries of one replaypack's walk to the
//! copy plan and the mapping table.

use vstd::prelude::*;
use crate::filter::{entry_views, filter_dir_and_extension, should_visit, EntryView, WalkEntry};
use crate::identifier::{
    generated_file_name, generated_name, is_identifier, lemma_generated_destination,
    lemma_generated_name_injective, new_identifier,
};
use crate::mapping::{
    distinct_keys, lemma_map_of_len, lemma_map_of_push, lemma_map_of_value, lemma_map_of_witness,
    map_of, pair_views, DirectoryMapping, Pair,
};
use crate::path::{
    extension, file_name, join, lemma_extension_is_plain, path_join, path_strip_prefix,
    relative_to,
};

verus! {

/// A file that the scan selected.
#[derive(Debug, PartialEq, Eq)]
pub struct SelectedFile {
    /// Where the file is.
    pub source: String,
    /// Its path relative to the replaypack's root.
    pub relative: String,
}

/// What a `SelectedFile` stands for.
pub struct FileView {
    pub source: Seq<char>,
    pub relative: Seq<char>,
}

impl View for SelectedFile {
    type V = FileView;

    open spec fn view(&self) -> FileView {
        FileView { source: self.source@, relative: self.relative@ }
    }
}

/// The views of selected files, in order.
pub open spec fn file_views(files: Seq<SelectedFile>) -> Seq<FileView> {
    Seq::new(files.len(), |i: int| files[i]@)
}

/// The texts of a sequence of strings, in order.
pub open spec fn string_views(strings: Seq<String>) -> Seq<Seq<char>> {
    Seq::new(strings.len(), |i: int| strings[i]@)
}

/// What a scan of one replaypack gives: the copies to make, and for each
/// generated file name the relative path of the file it stands for.
#[derive(Debug)]
pub struct GetFilepathsResult {
    /// The copy tasks, source first, destination second.
    pub input_to_output_vec: Vec<(String, String)>,
    /// From generated file name to the file's path relative to the replaypack.
    pub directory_mapping: DirectoryMapping,
}

/// What a `GetFilepathsResult` stands for.
pub struct PlanView {
    pub tasks: Seq<Pair>,
    pub mapping: Map<Seq<char>, Seq<char>>,
}

impl View for GetFilepathsResult {
    type V = PlanView;

    open spec fn view(&self) -> PlanView {
        PlanView {
            tasks: pair_views(self.input_to_output_vec@),
            mapping: self.directory_mapping@,
        }
    }
}

/// The scan selects the files that have the desired extension and lie under
/// the replaypack's root. Directories are walked through, never selected.
pub open spec fn selected(entry: EntryView, root: Seq<char>, desired_extension: Seq<char>) -> bool {
    &&& !entry.is_dir
    &&& should_visit(entry, desired_extension)
    &&& relative_to(entry.path, root) is Some
}

/// `selected`, as a predicate on entries.
pub open spec fn selection(root: Seq<char>, desired_extension: Seq<char>) -> spec_fn(
    EntryView,
) -> bool {
    |entry: EntryView| selected(entry, root, desired_extension)
}

/// The selected file that an entry gives.
pub open spec fn file_of(entry: EntryView, root: Seq<char>) -> FileView {
    FileView { source: entry.path, relative: relative_to(entry.path, root)->0 }
}

/// The files that a scan selects among `entries`, in the walk's order.
pub open spec fn selected_files(
    entries: Seq<EntryView>,
    root: Seq<char>,
    desired_extension: Seq<char>,
) -> Seq<FileView> {
    let kept = entries.filter(selection(root, desired_extension));
    Seq::new(kept.len(), |i: int| file_of(kept[i], root))
}

/// The copy task of the file at `i`: from where it is to its generated name
/// in the output directory.
pub open spec fn planned_task(
    files: Seq<FileView>,
    ids: Seq<Seq<char>>,
    output_dir: Seq<char>,
    desired_extension: Seq<char>,
    i: int,
) -> Pair {
    (files[i].source, join(output_dir, generated_name(ids[i], desired_extension)))
}

/// The mapping entry of the file at `i`: from its generated name to its
/// relative path.
pub open spec fn planned_entry(
    files: Seq<FileView>,
    ids: Seq<Seq<char>>,
    desired_extension: Seq<char>,
    i: int,
) -> Pair {
    (generated_name(ids[i], desired_extension), files[i].relative)
}

/// The mapping entries of the first `n` files.
pub open spec fn planned_entries(
    files: Seq<FileView>,
    ids: Seq<Seq<char>>,
    desired_extension: Seq<char>,
    n: nat,
) -> Seq<Pair> {
    Seq::new(n, |i: int| planned_entry(files, ids, desired_extension, i))
}

/// The plan for `files` where the file at `i` gets the identifier `ids[i]`:
/// one copy task per file, in order, and the mapping that inserting each
/// file's entry in that order builds.
pub open spec fn plan(
    files: Seq<FileView>,
    ids: Seq<Seq<char>>,
    output_dir: Seq<char>,
    desired_extension: Seq<char>,
) -> PlanView {
    PlanView {
        tasks: Seq::new(
            files.len(),
            |i: int| planned_task(files, ids, output_dir, desired_extension, i),
        ),
        mapping: map_of(planned_entries(files, ids, desired_extension, files.len())),
    }
}

/// `result` is the plan for `files` under some choice of identifiers.
pub open spec fn is_plan_for(
    result: PlanView,
    files: Seq<FileView>,
    output_dir: Seq<char>,
    desired_extension: Seq<char>,
) -> bool {
    exists|ids: Seq<Seq<char>>|
        {
            &&& ids.len() == files.len()
            &&& forall|i: int| 0 <= i < ids.len() ==> is_identifier(#[trigger] ids[i])
            &&& result == plan(files, ids, output_dir, desired_extension)
        }
}

/// Selects, among the entries of a walk, the files to copy.
pub fn select_files(
    replaypack_input_dir: &str,
    desired_extension: &str,
    entries: &Vec<WalkEntry>,
) -> (files: Vec<SelectedFile>)
    ensures
        file_views(files@) == selected_files(
            entry_views(entries@),
            replaypack_input_dir@,
            desired_extension@,
        ),
{
    let ghost views = entry_views(entries@);
    let ghost pred = selection(replaypack_input_dir@, desired_extension@);
    let mut files: Vec<SelectedFile> = Vec::new();
    let mut i: usize = 0;
    proof {
        reveal(Seq::filter);
        assert(views.take(0).filter(pred) =~= Seq::<EntryView>::empty());
    }
    while i < entries.len()
        invariant
            i <= entries.len(),
            views == entry_views(entries@),
            pred == selection(replaypack_input_dir@, desired_extension@),
            files.len() == views.take(i as int).filter(pred).len(),
            forall|k: int|
                0 <= k < files.len() ==> files[k]@ == file_of(
                    #[trigger] views.take(i as int).filter(pred)[k],
                    replaypack_input_dir@,
                ),
        decreases entries.len() - i,
    {
        let entry = &entries[i];
        proof {
            assert(views.take(i + 1) == views.take(i as int).push(views[i as int]));
            views.take(i as int).lemma_filter_push(views[i as int], pred);
            assert(views[i as int] == entry@);
        }
        if !entry.is_dir && filter_dir_and_extension(entry, desired_extension) {
            match path_strip_prefix(entry.path.as_str(), replaypack_input_dir) {
                Some(relative) => {
                    files.push(SelectedFile { source: entry.path.clone(), relative });
                },
                None => {},
            }
        }
        i += 1;
    }
    proof {
        assert(views.take(i as int) == views);
        assert(file_views(files@) =~= selected_files(
            views,
            replaypack_input_dir@,
            desired_extension@,
        ));
    }
    files
}

/// Plans the copies of `files`, the file at `i` under the identifier
/// `ids[i]`. Gives nothing if there are fewer identifiers than files;
/// identifiers beyond the last file are not used.
pub fn plan_copies(
    files: &Vec<SelectedFile>,
    ids: &Vec<String>,
    replaypack_output_dir: &str,
    desired_extension: &str,
) -> (result: Option<GetFilepathsResult>)
    ensures
        result is Some <==> files.len() <= ids.len(),
        result is Some ==> result->0@ == plan(
            file_views(files@),
            string_views(ids@),
            replaypack_output_dir@,
            desired_extension@,
        ),
{
    if files.len() > ids.len() {
        return None;
    }
    let ghost fv = file_views(files@);
    let ghost iv = string_views(ids@);
    let mut tasks: Vec<(String, String)> = Vec::new();
    let mut mapping = DirectoryMapping::new();
    let mut i: usize = 0;
    while i < files.len()
        invariant
            i <= files.len() <= ids.len(),
            fv == file_views(files@),
            iv == string_views(ids@),
            tasks.len() == i,
            forall|k: int|
                0 <= k < i ==> #[trigger] pair_views(tasks@)[k] == planned_task(
                    fv,
                    iv,
                    replaypack_output_dir@,
                    desired_extension@,
                    k,
                ),
            mapping@ == map_of(planned_entries(fv, iv, desired_extension@, i as nat)),
        decreases files.len() - i,
    {
        let name = generated_file_name(ids[i].as_str(), desired_extension);
        let destination = path_join(replaypack_output_dir, name.as_str());
        proof {
            let before = planned_entries(fv, iv, desired_extension@, i as nat);
            let entry = planned_entry(fv, iv, desired_extension@, i as int);
            assert(planned_entries(fv, iv, desired_extension@, (i + 1) as nat) == before.push(
                entry,
            ));
            lemma_map_of_push(before, entry);
            assert(fv[i as int] == files[i as int]@);
            assert(iv[i as int] == ids[i as int]@);
        }
        let ghost planned = pair_views(tasks@);
        tasks.push((files[i].source.clone(), destination));
        mapping.insert(name, files[i].relative.clone());
        proof {
            assert(pair_views(tasks@) == planned.push(
                planned_task(fv, iv, replaypack_output_dir@, desired_extension@, i as int),
            ));
        }
        i += 1;
    }
    let result = GetFilepathsResult { input_to_output_vec: tasks, directory_mapping: mapping };
    proof {
        assert(result@.tasks =~= plan(fv, iv, replaypack_output_dir@, desired_extension@).tasks);
    }
    Some(result)
}

/// Scans one replaypack: selects among the entries of its walk the files to
/// copy, draws a fresh identifier for each, and plans the copies.
pub fn get_filepaths(
    replaypack_input_dir: &str,
    replaypack_output_dir: &str,
    desired_extension: &str,
    entries: &Vec<WalkEntry>,
) -> (result: GetFilepathsResult)
    ensures
        is_plan_for(
            result@,
            selected_files(entry_views(entries@), replaypack_input_dir@, desired_extension@),
            replaypack_output_dir@,
            desired_extension@,
        ),
{
    let files = select_files(replaypack_input_dir, desired_extension, entries);
    let mut ids: Vec<String> = Vec::new();
    while ids.len() < files.len()
        invariant
            ids.len() <= files.len(),
            forall|k: int| 0 <= k < ids.len() ==> is_identifier(#[trigger] ids[k]@),
        decreases files.len() - ids.len(),
    {
        ids.push(new_identifier());
    }
    let result = plan_copies(&files, &ids, replaypack_output_dir, desired_extension).unwrap();
    proof {
        let iv = string_views(ids@);
        assert forall|k: int| 0 <= k < iv.len() implies is_identifier(#[trigger] iv[k]) by {
            assert(iv[k] == ids[k]@);
        }
    }
    result
}

/// Each selected file comes from an entry that the scan selects.
pub proof fn lemma_selected_file_has_entry(
    entries: Seq<EntryView>,
    root: Seq<char>,
    desired_extension: Seq<char>,
    i: int,
) -> (j: int)
    requires
        0 <= i < selected_files(entries, root, desired_extension).len(),
    ensures
        0 <= j < entries.len(),
        selected(entries[j], root, desired_extension),
        selected_files(entries, root, desired_extension)[i] == file_of(entries[j], root),
{
    let pred = selection(root, desired_extension);
    let kept = entries.filter(pred);
    entries.lemma_filter_pred(pred, i);
    assert(kept.contains(kept[i]));
    entries.lemma_filter_contains_rev(pred, kept[i]);
    let j = choose|j: int| 0 <= j < entries.len() && entries[j] == kept[i];
    j
}

/// Each entry that the scan selects gives a selected file.
pub proof fn lemma_entry_has_selected_file(
    entries: Seq<EntryView>,
    root: Seq<char>,
    desired_extension: Seq<char>,
    j: int,
) -> (i: int)
    requires
        0 <= j < entries.len(),
        selected(entries[j], root, desired_extension),
    ensures
        0 <= i < selected_files(entries, root, desired_extension).len(),
        selected_files(entries, root, desired_extension)[i] == file_of(entries[j], root),
{
    let pred = selection(root, desired_extension);
    let kept = entries.filter(pred);
    entries.lemma_filter_contains(pred, j);
    let i = choose|i: int| 0 <= i < kept.len() && kept[i] == entries[j];
    i
}

/// `path` is the path of an entry that the scan selects.
pub open spec fn is_selected_path(
    entries: Seq<EntryView>,
    root: Seq<char>,
    desired_extension: Seq<char>,
    path: Seq<char>,
) -> bool {
    exists|j: int|
        {
            &&& 0 <= j < entries.len()
            &&& selected(#[trigger] entries[j], root, desired_extension)
            &&& entries[j].path == path
        }
}

/// `relative` is the path, relative to `root`, of an entry that the scan
/// selects.
pub open spec fn is_selected_relative(
    entries: Seq<EntryView>,
    root: Seq<char>,
    desired_extension: Seq<char>,
    relative: Seq<char>,
) -> bool {
    exists|j: int|
        {
            &&& 0 <= j < entries.len()
            &&& selected(#[trigger] entries[j], root, desired_extension)
            &&& relative_to(entries[j].path, root) == Some(relative)
        }
}

/// Non-match exclusion: only a file that has the desired extension, exactly,
/// and lies under the replaypack's root gets a copy task or a mapping entry.
/// Every task's source is the path of such an entry, and every value of the
/// mapping is the relative path of one.
pub proof fn lemma_only_selected_files_are_planned(
    entries: Seq<EntryView>,
    ids: Seq<Seq<char>>,
    root: Seq<char>,
    output_dir: Seq<char>,
    desired_extension: Seq<char>,
)
    ensures
        ({
            let planned = plan(
                selected_files(entries, root, desired_extension),
                ids,
                output_dir,
                desired_extension,
            );
            &&& forall|i: int|
                0 <= i < planned.tasks.len() ==> is_selected_path(
                    entries,
                    root,
                    desired_extension,
                    (#[trigger] planned.tasks[i]).0,
                )
            &&& forall|key: Seq<char>|
                planned.mapping.contains_key(key) ==> is_selected_relative(
                    entries,
                    root,
                    desired_extension,
                    #[trigger] planned.mapping[key],
                )
        }),
{
    let files = selected_files(entries, root, desired_extension);
    let planned = plan(files, ids, output_dir, desired_extension);
    assert forall|i: int| 0 <= i < planned.tasks.len() implies is_selected_path(
        entries,
        root,
        desired_extension,
        (#[trigger] planned.tasks[i]).0,
    ) by {
        let j = lemma_selected_file_has_entry(entries, root, desired_extension, i);
        assert(selected(entries[j], root, desired_extension));
        assert(entries[j].path == planned.tasks[i].0);
    }
    assert forall|key: Seq<char>| planned.mapping.contains_key(key) implies is_selected_relative(
        entries,
        root,
        desired_extension,
        #[trigger] planned.mapping[key],
    ) by {
        let pairs = planned_entries(files, ids, desired_extension, files.len());
        let i = lemma_map_of_witness(pairs, key);
        let j = lemma_selected_file_has_entry(entries, root, desired_extension, i);
        assert(selected(entries[j], root, desired_extension));
        assert(relative_to(entries[j].path, root) == Some(planned.mapping[key]));
    }
}

/// The plan holds a copy task that writes the file named `key` in the output
/// directory, from the file whose relative path the mapping keeps under
/// `key`.
pub open spec fn has_task_for_key(
    files: Seq<FileView>,
    planned: PlanView,
    output_dir: Seq<char>,
    key: Seq<char>,
) -> bool {
    exists|i: int|
        {
            &&& 0 <= i < files.len() == planned.tasks.len()
            &&& #[trigger] planned.tasks[i] == (files[i].source, join(output_dir, key))
            &&& files[i].relative == planned.mapping[key]
        }
}

/// Every mapping entry is backed by a copy task: for each key of the mapping
/// there is a task whose destination is that file name in the output
/// directory, and whose source is the file that the key's value names.
pub proof fn lemma_mapping_entries_have_tasks(
    files: Seq<FileView>,
    ids: Seq<Seq<char>>,
    output_dir: Seq<char>,
    desired_extension: Seq<char>,
)
    ensures
        forall|key: Seq<char>| #[trigger]
            plan(files, ids, output_dir, desired_extension).mapping.contains_key(key)
                ==> has_task_for_key(
                files,
                plan(files, ids, output_dir, desired_extension),
                output_dir,
                key,
            ),
{
    let planned = plan(files, ids, output_dir, desired_extension);
    assert forall|key: Seq<char>| #[trigger] planned.mapping.contains_key(key) implies has_task_for_key(
        files,
        planned,
        output_dir,
        key,
    ) by {
        let pairs = planned_entries(files, ids, desired_extension, files.len());
        let i = lemma_map_of_witness(pairs, key);
        assert(planned.tasks[i] == (files[i].source, join(output_dir, key)));
    }
}

/// Every copy lies directly in the output directory, keeps the extension
/// that was asked for, and is named by its key in the mapping: the
/// destination of the task at `i` is, relative to the output directory, the
/// generated name of the identifier at `i`; that name is its file name; and
/// it has the desired extension, as its source has.
pub proof fn lemma_copies_lie_in_the_output_directory(
    entries: Seq<EntryView>,
    ids: Seq<Seq<char>>,
    root: Seq<char>,
    output_dir: Seq<char>,
    desired_extension: Seq<char>,
    i: int,
)
    requires
        0 <= i < selected_files(entries, root, desired_extension).len() <= ids.len(),
        is_identifier(ids[i]),
    ensures
        ({
            let planned = plan(
                selected_files(entries, root, desired_extension),
                ids,
                output_dir,
                desired_extension,
            );
            &&& extension(planned.tasks[i].0) == Some(desired_extension)
            &&& extension(planned.tasks[i].1) == Some(desired_extension)
            &&& file_name(planned.tasks[i].1) == generated_name(ids[i], desired_extension)
            &&& relative_to(planned.tasks[i].1, output_dir) == Some(
                generated_name(ids[i], desired_extension),
            )
        }),
{
    let j = lemma_selected_file_has_entry(entries, root, desired_extension, i);
    lemma_extension_is_plain(entries[j].path);
    lemma_generated_destination(output_dir, ids[i], desired_extension);
}

/// The identifiers of the first `n` files differ from one another.
pub open spec fn distinct_identifiers(ids: Seq<Seq<char>>, n: nat) -> bool {
    &&& n <= ids.len()
    &&& forall|i: int| 0 <= i < n ==> is_identifier(#[trigger] ids[i])
    &&& forall|i: int, j: int| 0 <= i < j < n ==> ids[i] != ids[j]
}

/// Where the identifiers differ from one another, so do the keys.
pub proof fn lemma_distinct_identifiers_give_distinct_keys(
    files: Seq<FileView>,
    ids: Seq<Seq<char>>,
    desired_extension: Seq<char>,
)
    requires
        distinct_identifiers(ids, files.len()),
    ensures
        distinct_keys(planned_entries(files, ids, desired_extension, files.len())),
{
    let pairs = planned_entries(files, ids, desired_extension, files.len());
    assert forall|i: int, j: int| 0 <= i < j < pairs.len() implies pairs[i].0 != pairs[j].0 by {
        if pairs[i].0 == pairs[j].0 {
            lemma_generated_name_injective(ids[i], ids[j], desired_extension);
        }
    }
}

/// Uniqueness: where the identifiers differ from one another, every selected
/// file has a key of its own, so the mapping has as many keys as there are
/// copy tasks.
pub proof fn lemma_one_key_per_file(
    files: Seq<FileView>,
    ids: Seq<Seq<char>>,
    output_dir: Seq<char>,
    desired_extension: Seq<char>,
)
    requires
        distinct_identifiers(ids, files.len()),
    ensures
        plan(files, ids, output_dir, desired_extension).mapping.dom().finite(),
        plan(files, ids, output_dir, desired_extension).mapping.len() == files.len(),
        plan(files, ids, output_dir, desired_extension).tasks.len() == files.len(),
        forall|i: int|
            0 <= i < files.len() ==> {
                let key = #[trigger] generated_name(ids[i], desired_extension);
                let planned = plan(files, ids, output_dir, desired_extension);
                planned.mapping.contains_key(key) && planned.mapping[key] == files[i].relative
            },
{
    let pairs = planned_entries(files, ids, desired_extension, files.len());
    lemma_distinct_identifiers_give_distinct_keys(files, ids, desired_extension);
    lemma_map_of_len(pairs);
    assert forall|i: int| 0 <= i < files.len() implies {
        let key = #[trigger] generated_name(ids[i], desired_extension);
        let planned = plan(files, ids, output_dir, desired_extension);
        planned.mapping.contains_key(key) && planned.mapping[key] == files[i].relative
    } by {
        lemma_map_of_value(pairs, i);
    }
}

/// Completeness: where the identifiers differ from one another, every file
/// among the entries that has the desired extension and lies under the
/// replaypack's root has a mapping entry whose value is the file's path
/// relative to that root.
pub proof fn lemma_every_selected_file_is_mapped(
    entries: Seq<EntryView>,
    ids: Seq<Seq<char>>,
    root: Seq<char>,
    output_dir: Seq<char>,
    desired_extension: Seq<char>,
    j: int,
)
    requires
        distinct_identifiers(ids, selected_files(entries, root, desired_extension).len()),
        0 <= j < entries.len(),
        selected(entries[j], root, desired_extension),
    ensures
        ({
            let planned = plan(
                selected_files(entries, root, desired_extension),
                ids,
                output_dir,
                desired_extension,
            );
            exists|key: Seq<char>|
                {
                    &&& planned.mapping.contains_key(key)
                    &&& Some(#[trigger] planned.mapping[key]) == relative_to(entries[j].path, root)
                }
        }),
{
    let files = selected_files(entries, root, desired_extension);
    let planned = plan(files, ids, output_dir, desired_extension);
    let i = lemma_entry_has_selected_file(entries, root, desired_extension, j);
    lemma_one_key_per_file(files, ids, output_dir, desired_extension);
    let key = generated_name(ids[i], desired_extension);
    assert(planned.mapping.contains_key(key));
    assert(Some(planned.mapping[key]) == relative_to(entries[j].path, root));
}

/// Empty subtree: where no entry is a file with the desired extension under
/// the root, there is no copy task and the mapping is empty.
pub proof fn lemma_nothing_selected_gives_empty_plan(
    entries: Seq<EntryView>,
    ids: Seq<Seq<char>>,
    root: Seq<char>,
    output_dir: Seq<char>,
    desired_extension: Seq<char>,
)
    requires
        forall|j: int| 0 <= j < entries.len() ==> !selected(#[trigger] entries[j], root, desired_extension),
    ensures
        selected_files(entries, root, desired_extension).len() == 0,
        plan(
            selected_files(entries, root, desired_extension),
            ids,
            output_dir,
            desired_extension,
        ).tasks.len() == 0,
        plan(
            selected_files(entries, root, desired_extension),
            ids,
            output_dir,
            desired_extension,
        ).mapping == Map::<Seq<char>, Seq<char>>::empty(),
{
    let files = selected_files(entries, root, desired_extension);
    if files.len() > 0 {
        let j = lemma_selected_file_has_entry(entries, root, desired_extension, 0);
        assert(false);
    }
    assert(planned_entries(files, ids, desired_extension, files.len()).len() == 0);
}

} // verus!

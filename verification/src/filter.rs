//! The entry filter: which entries of a walk are visited.

use vstd::prelude::*;
use crate::path::{extension, path_extension};

verus! {

/// One entry of a directory walk, as the flattener reads it.
#[derive(Debug, PartialEq, Eq)]
pub struct WalkEntry {
    /// The entry's path, the walk's root included.
    pub path: String,
    /// Whether the entry is a directory.
    pub is_dir: bool,
}

/// What a `WalkEntry` stands for.
pub struct EntryView {
    pub path: Seq<char>,
    pub is_dir: bool,
}

impl View for WalkEntry {
    type V = EntryView;

    open spec fn view(&self) -> EntryView {
        EntryView { path: self.path@, is_dir: self.is_dir }
    }
}

/// The views of a walk's entries, in the walk's order.
pub open spec fn entry_views(entries: Seq<WalkEntry>) -> Seq<EntryView> {
    Seq::new(entries.len(), |i: int| entries[i]@)
}

/// An entry is visited if it is a directory, or a file whose extension is
/// exactly `desired_extension`.
pub open spec fn should_visit(entry: EntryView, desired_extension: Seq<char>) -> bool {
    entry.is_dir || extension(entry.path) == Some(desired_extension)
}

/// Whether `entry` is a directory.
pub fn is_dir(entry: &WalkEntry) -> (dir: bool)
    ensures
        dir == entry@.is_dir,
{
    entry.is_dir
}

/// Whether a walk visits `entry`: every directory, and the files with the
/// extension `desired_extension` (compared exactly, case included).
pub fn filter_dir_and_extension(entry: &WalkEntry, desired_extension: &str) -> (visit: bool)
    ensures
        visit == should_visit(entry@, desired_extension@),
{
    if entry.is_dir {
        return true;
    }
    match path_extension(entry.path.as_str()) {
        Some(ext) => ext == desired_extension.to_owned(),
        None => false,
    }
}

} // verus!

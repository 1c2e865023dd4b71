use directory_flattener::filter::{filter_dir_and_extension, is_dir, WalkEntry};

fn file(path: &str) -> WalkEntry {
    WalkEntry { path: path.to_string(), is_dir: false }
}

fn dir(path: &str) -> WalkEntry {
    WalkEntry { path: path.to_string(), is_dir: true }
}

#[test]
fn is_dir_tells_directories_from_files() {
    assert!(is_dir(&dir("in/pack1")));
    assert!(!is_dir(&file("in/pack1/a.SC2Replay")));
}

#[test]
fn filter_visits_every_directory() {
    assert!(filter_dir_and_extension(&dir("in/pack1"), "SC2Replay"));
    assert!(filter_dir_and_extension(&dir("in/pack1/sub.txt"), "SC2Replay"));
    assert!(filter_dir_and_extension(&dir(""), "SC2Replay"));
}

#[test]
fn filter_visits_files_with_the_extension() {
    assert!(filter_dir_and_extension(&file("in/pack1/a/game1.SC2Replay"), "SC2Replay"));
    assert!(filter_dir_and_extension(&file("game.v2.SC2Replay"), "SC2Replay"));
}

#[test]
fn filter_compares_the_extension_with_its_case() {
    assert!(!filter_dir_and_extension(&file("in/pack1/game1.sc2replay"), "SC2Replay"));
    assert!(!filter_dir_and_extension(&file("in/pack1/game1.SC2REPLAY"), "SC2Replay"));
    assert!(filter_dir_and_extension(&file("in/pack1/game1.sc2replay"), "sc2replay"));
}

#[test]
fn filter_leaves_out_other_files() {
    assert!(!filter_dir_and_extension(&file("in/pack1/game1.txt"), "SC2Replay"));
    assert!(!filter_dir_and_extension(&file("in/pack1/game1"), "SC2Replay"));
    assert!(!filter_dir_and_extension(&file("in/pack1/.SC2Replay"), "SC2Replay"));
    assert!(!filter_dir_and_extension(&file("in/pack1/game1.SC2Replay.bak"), "SC2Replay"));
    assert!(!filter_dir_and_extension(&file("in/pack1/game1.SC2Replay"), ".SC2Replay"));
    assert!(!filter_dir_and_extension(&file("in/pack1/SC2Replay"), "SC2Replay"));
}

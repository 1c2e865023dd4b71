use std::collections::BTreeMap;

use directory_flattener::filter::WalkEntry;
use directory_flattener::orchestrator::{
    directory_flattener, discover, Args, FlattenAction, FlattenEvent, Flattener, Subtree,
};

fn file(path: &str) -> WalkEntry {
    WalkEntry { path: path.to_string(), is_dir: false }
}

fn dir(path: &str) -> WalkEntry {
    WalkEntry { path: path.to_string(), is_dir: true }
}

fn list(path: &str) -> FlattenAction {
    FlattenAction::ListDirectory { path: path.to_string() }
}

fn remove(path: &str) -> FlattenAction {
    FlattenAction::RemoveDirectory { path: path.to_string() }
}

fn walk(path: &str) -> FlattenAction {
    FlattenAction::WalkDirectory { path: path.to_string() }
}

fn create(path: &str) -> FlattenAction {
    FlattenAction::CreateDirectory { path: path.to_string() }
}

fn write(path: &str, contents: &str) -> FlattenAction {
    FlattenAction::WriteFile { path: path.to_string(), contents: contents.to_string() }
}

fn started(input: &str, output: &str, extension: &str) -> (Flattener, FlattenAction) {
    let state = Flattener::new(input.to_string(), output.to_string(), extension.to_string());
    directory_flattener(state, FlattenEvent::Begin)
}

fn after(state: Flattener, events: Vec<FlattenEvent>) -> (Flattener, Vec<FlattenAction>) {
    let mut state = state;
    let mut actions = Vec::new();
    for event in events {
        let next = directory_flattener(state, event);
        state = next.0;
        actions.push(next.1);
    }
    (state, actions)
}

fn copied(action: &FlattenAction) -> (String, String) {
    match action {
        FlattenAction::CopyFile { source, destination } => (source.clone(), destination.clone()),
        other => panic!("expected a copy, got {:?}", other),
    }
}

fn written(action: &FlattenAction) -> (String, BTreeMap<String, String>) {
    match action {
        FlattenAction::WriteFile { path, contents } => {
            (path.clone(), serde_json::from_str(contents).unwrap())
        }
        other => panic!("expected a write, got {:?}", other),
    }
}

#[test]
fn args_default_to_the_processing_directories_and_sc2replay() {
    let args = Args::default();
    assert_eq!(args.input_directory, "processing/input");
    assert_eq!(args.output_directory, "processing/output");
    assert_eq!(args.file_extension, "SC2Replay");
}

#[test]
fn discover_keeps_the_directories_one_level_below_the_input() {
    let entries = vec![
        file("/in/readme.txt"),
        dir("/in/pack1"),
        dir("/in"),
        dir("/in/pack1/a"),
        dir("/elsewhere/pack3"),
        dir("/in/pack2"),
    ];
    assert_eq!(
        discover("/in", "/out", &entries),
        vec![
            Subtree { input_dir: "/in/pack1".to_string(), output_dir: "/out/pack1".to_string() },
            Subtree { input_dir: "/in/pack2".to_string(), output_dir: "/out/pack2".to_string() },
        ]
    );
}

#[test]
fn flattener_begins_by_listing_the_input_directory() {
    let (_, action) = started("/in", "/out", "SC2Replay");
    assert_eq!(action, list("/in"));
}

#[test]
fn flattener_flattens_pack1_with_its_two_replays() {
    let (state, _) = started("/in", "/out", "SC2Replay");
    let (_, actions) = after(
        state,
        vec![
            FlattenEvent::Entries(vec![dir("/in/pack1")]),
            FlattenEvent::NotFound,
            FlattenEvent::Entries(vec![
                dir("/in/pack1"),
                dir("/in/pack1/a"),
                file("/in/pack1/a/game1.SC2Replay"),
                dir("/in/pack1/b"),
                file("/in/pack1/b/game2.SC2Replay"),
            ]),
            FlattenEvent::Succeeded,
            FlattenEvent::Succeeded,
            FlattenEvent::Succeeded,
            FlattenEvent::Succeeded,
            FlattenEvent::Succeeded,
            FlattenEvent::Succeeded,
        ],
    );
    assert_eq!(actions.len(), 9);
    assert_eq!(actions[0], remove("/out/pack1"));
    assert_eq!(actions[1], walk("/in/pack1"));
    assert_eq!(actions[2], create("/out/pack1"));
    let first = copied(&actions[3]);
    assert_eq!(actions[4], create("/out/pack1"));
    let second = copied(&actions[5]);
    assert_eq!(actions[6], create("/out/pack1"));
    let (path, mapping) = written(&actions[7]);
    assert_eq!(actions[8], FlattenAction::Finish);

    assert_eq!(first.0, "/in/pack1/a/game1.SC2Replay");
    assert_eq!(second.0, "/in/pack1/b/game2.SC2Replay");
    assert_ne!(first.1, second.1);
    assert_eq!(path, "/out/pack1/mapping.json");
    let mut expected = BTreeMap::new();
    for (copy, relative) in [(&first, "a/game1.SC2Replay"), (&second, "b/game2.SC2Replay")] {
        let name = copy.1.strip_prefix("/out/pack1/").unwrap();
        let id = name.strip_suffix(".SC2Replay").unwrap();
        assert_eq!(id.len(), 32);
        assert!(id.chars().all(|c| matches!(c, '0'..='9' | 'a'..='f')));
        expected.insert(name.to_string(), relative.to_string());
    }
    assert_eq!(mapping, expected);
}

#[test]
fn flattener_writes_an_empty_mapping_for_an_empty_replaypack() {
    let (state, _) = started("/in", "/out", "SC2Replay");
    let (_, actions) = after(
        state,
        vec![
            FlattenEvent::Entries(vec![dir("/in/empty")]),
            FlattenEvent::Succeeded,
            FlattenEvent::Entries(vec![dir("/in/empty"), file("/in/empty/notes.txt")]),
            FlattenEvent::Succeeded,
            FlattenEvent::Succeeded,
        ],
    );
    assert_eq!(
        actions,
        vec![
            remove("/out/empty"),
            walk("/in/empty"),
            create("/out/empty"),
            write("/out/empty/mapping.json", "{}"),
            FlattenAction::Finish,
        ]
    );
}

#[test]
fn flattener_finishes_at_once_without_replaypacks() {
    let (state, _) = started("/in", "/out", "SC2Replay");
    let (_, actions) =
        after(state, vec![FlattenEvent::Entries(vec![file("/in/a.SC2Replay")])]);
    assert_eq!(actions, vec![FlattenAction::Finish]);
}

#[test]
fn flattener_takes_the_replaypacks_one_after_the_other() {
    let (state, _) = started("/in", "/out", "x");
    let (_, actions) = after(
        state,
        vec![
            FlattenEvent::Entries(vec![dir("/in/one"), file("/in/top.x"), dir("/in/two")]),
            FlattenEvent::Succeeded,
            FlattenEvent::Entries(Vec::new()),
            FlattenEvent::Succeeded,
            FlattenEvent::Succeeded,
            FlattenEvent::NotFound,
            FlattenEvent::Entries(Vec::new()),
            FlattenEvent::Succeeded,
            FlattenEvent::Succeeded,
        ],
    );
    assert_eq!(
        actions,
        vec![
            remove("/out/one"),
            walk("/in/one"),
            create("/out/one"),
            write("/out/one/mapping.json", "{}"),
            remove("/out/two"),
            walk("/in/two"),
            create("/out/two"),
            write("/out/two/mapping.json", "{}"),
            FlattenAction::Finish,
        ]
    );
}

#[test]
fn flattener_gives_up_when_the_input_cannot_be_listed() {
    let (state, _) = started("/in", "/out", "x");
    let (state, actions) = after(state, vec![FlattenEvent::Failed]);
    assert_eq!(actions, vec![FlattenAction::Abort]);
    let (_, actions) = after(state, vec![FlattenEvent::Succeeded, FlattenEvent::Begin]);
    assert_eq!(actions, vec![FlattenAction::Abort, FlattenAction::Abort]);
}

#[test]
fn flattener_leaves_a_replaypack_whose_stale_output_cannot_be_removed() {
    let (state, _) = started("/in", "/out", "x");
    let (_, actions) = after(
        state,
        vec![FlattenEvent::Entries(vec![dir("/in/one"), dir("/in/two")]), FlattenEvent::Failed],
    );
    assert_eq!(actions, vec![remove("/out/one"), remove("/out/two")]);
}

#[test]
fn flattener_flattens_the_second_replaypack_in_full_after_the_first_could_not_be_cleared() {
    let (state, _) = started("/in", "/out", "x");
    let (_, actions) = after(
        state,
        vec![
            FlattenEvent::Entries(vec![dir("/in/one"), dir("/in/two")]),
            FlattenEvent::Failed,
            FlattenEvent::Succeeded,
            FlattenEvent::Entries(vec![dir("/in/two"), file("/in/two/a/g.x")]),
            FlattenEvent::Succeeded,
            FlattenEvent::Succeeded,
            FlattenEvent::Succeeded,
            FlattenEvent::Succeeded,
        ],
    );
    assert_eq!(actions.len(), 8);
    assert_eq!(actions[0], remove("/out/one"));
    assert_eq!(actions[1], remove("/out/two"));
    assert_eq!(actions[2], walk("/in/two"));
    assert_eq!(actions[3], create("/out/two"));
    let copy = copied(&actions[4]);
    assert_eq!(copy.0, "/in/two/a/g.x");
    assert_eq!(actions[5], create("/out/two"));
    let (path, mapping) = written(&actions[6]);
    assert_eq!(path, "/out/two/mapping.json");
    let name = copy.1.strip_prefix("/out/two/").unwrap();
    assert_eq!(mapping.get(name), Some(&"a/g.x".to_string()));
    assert_eq!(mapping.len(), 1);
    assert_eq!(actions[7], FlattenAction::Finish);
}

#[test]
fn flattener_finishes_when_the_last_replaypack_cannot_be_cleared() {
    let (state, _) = started("/in", "/out", "x");
    let (_, actions) =
        after(state, vec![FlattenEvent::Entries(vec![dir("/in/one")]), FlattenEvent::Failed]);
    assert_eq!(actions, vec![remove("/out/one"), FlattenAction::Finish]);
}

#[test]
fn flattener_copies_only_the_file_with_the_exact_extension() {
    let (state, _) = started("/in", "/out", "SC2Replay");
    let (_, actions) = after(
        state,
        vec![
            FlattenEvent::Entries(vec![dir("/in/p")]),
            FlattenEvent::NotFound,
            FlattenEvent::Entries(vec![
                dir("/in/p"),
                dir("/in/p/a"),
                file("/in/p/a/g.SC2Replay"),
                file("/in/p/a/g.sc2replay"),
                file("/in/p/notes.txt"),
            ]),
            FlattenEvent::Succeeded,
            FlattenEvent::Succeeded,
            FlattenEvent::Succeeded,
            FlattenEvent::Succeeded,
        ],
    );
    assert_eq!(actions.len(), 7);
    assert_eq!(actions[2], create("/out/p"));
    let copy = copied(&actions[3]);
    assert_eq!(copy.0, "/in/p/a/g.SC2Replay");
    assert_eq!(actions[4], create("/out/p"));
    let (path, mapping) = written(&actions[5]);
    assert_eq!(path, "/out/p/mapping.json");
    let mut expected = BTreeMap::new();
    expected.insert(copy.1.strip_prefix("/out/p/").unwrap().to_string(), "a/g.SC2Replay".to_string());
    assert_eq!(mapping, expected);
    assert_eq!(actions[6], FlattenAction::Finish);
}

#[test]
fn flattener_goes_on_to_the_next_replaypack_when_the_mapping_cannot_be_written() {
    let (state, _) = started("/in", "/out", "x");
    let (_, actions) = after(
        state,
        vec![
            FlattenEvent::Entries(vec![dir("/in/one"), dir("/in/two")]),
            FlattenEvent::Succeeded,
            FlattenEvent::Entries(Vec::new()),
            FlattenEvent::Succeeded,
            FlattenEvent::Failed,
        ],
    );
    assert_eq!(actions[3], write("/out/one/mapping.json", "{}"));
    assert_eq!(actions[4], remove("/out/two"));
}

#[test]
fn flattener_goes_on_to_the_next_replaypack_when_the_output_directory_cannot_be_made() {
    let (state, _) = started("/in", "/out", "x");
    let (_, actions) = after(
        state,
        vec![
            FlattenEvent::Entries(vec![dir("/in/one"), dir("/in/two")]),
            FlattenEvent::Succeeded,
            FlattenEvent::Entries(Vec::new()),
            FlattenEvent::Failed,
        ],
    );
    assert_eq!(actions[2], create("/out/one"));
    assert_eq!(actions[3], remove("/out/two"));
}

#[test]
fn flattener_keeps_the_mapping_entry_of_a_copy_that_failed() {
    let (state, _) = started("/in", "/out", "x");
    let (_, actions) = after(
        state,
        vec![
            FlattenEvent::Entries(vec![dir("/in/p")]),
            FlattenEvent::NotFound,
            FlattenEvent::Entries(vec![file("/in/p/a.x"), file("/in/p/b.x")]),
            FlattenEvent::Failed,
            FlattenEvent::Succeeded,
            FlattenEvent::Failed,
            FlattenEvent::Succeeded,
        ],
    );
    assert_eq!(actions[2], create("/out/p"));
    assert_eq!(actions[3], create("/out/p"));
    assert_eq!(copied(&actions[4]).0, "/in/p/b.x");
    assert_eq!(actions[5], create("/out/p"));
    let (path, mapping) = written(&actions[6]);
    assert_eq!(path, "/out/p/mapping.json");
    let mut values: Vec<&String> = mapping.values().collect();
    values.sort();
    assert_eq!(values, vec!["a.x", "b.x"]);
}

#[test]
fn flattener_ignores_an_event_that_the_stage_does_not_expect() {
    let (state, _) = started("/in", "/out", "x");
    let (state, actions) = after(state, vec![FlattenEvent::Succeeded, FlattenEvent::Begin]);
    assert_eq!(actions, vec![list("/in"), list("/in")]);
    let (state, actions) = after(
        state,
        vec![FlattenEvent::Entries(vec![dir("/in/p")]), FlattenEvent::Entries(Vec::new())],
    );
    assert_eq!(actions, vec![remove("/out/p"), remove("/out/p")]);
    let (_, actions) = after(
        state,
        vec![FlattenEvent::Succeeded, FlattenEvent::Succeeded, FlattenEvent::Failed],
    );
    assert_eq!(actions, vec![walk("/in/p"), walk("/in/p"), walk("/in/p")]);
}

#[test]
fn flattener_stays_finished() {
    let (state, _) = started("/in", "/out", "x");
    let (_, actions) = after(
        state,
        vec![
            FlattenEvent::Entries(Vec::new()),
            FlattenEvent::Succeeded,
            FlattenEvent::Entries(vec![dir("/in/late")]),
        ],
    );
    assert_eq!(actions, vec![FlattenAction::Finish, FlattenAction::Finish, FlattenAction::Finish]);
}

#[test]
fn flattener_step_and_action_agree_with_directory_flattener() {
    let args = Args::default();
    let state = Flattener::new(args.input_directory, args.output_directory, args.file_extension);
    assert_eq!(state.action(), list("processing/input"));
    let state = state.step(FlattenEvent::Entries(vec![dir("processing/input/pack")]));
    assert_eq!(state.action(), remove("processing/output/pack"));
    let state = state.step(FlattenEvent::NotFound);
    assert_eq!(state.action(), walk("processing/input/pack"));
    let state = state.step(FlattenEvent::Entries(vec![file("processing/input/pack/a.SC2Replay")]));
    assert_eq!(state.action(), create("processing/output/pack"));
    let state = state.step(FlattenEvent::Succeeded);
    let (source, destination) = copied(&state.action());
    assert_eq!(source, "processing/input/pack/a.SC2Replay");
    assert!(destination.starts_with("processing/output/pack/"));
    assert!(destination.ends_with(".SC2Replay"));
}

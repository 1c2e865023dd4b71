use directory_flattener::materializer::{copy_files, CopyAction, CopyEvent, CopyState};

fn task(source: &str, destination: &str) -> (String, String) {
    (source.to_string(), destination.to_string())
}

fn create(path: &str) -> CopyAction {
    CopyAction::CreateDirectory { path: path.to_string() }
}

fn copy(source: &str, destination: &str) -> CopyAction {
    CopyAction::CopyFile { source: source.to_string(), destination: destination.to_string() }
}

fn run(files: &Vec<(String, String)>, outcomes: &[CopyEvent]) -> Vec<CopyAction> {
    let (mut state, mut action) = copy_files(files, CopyState::new(), CopyEvent::Begin);
    let mut actions = Vec::new();
    for outcome in outcomes {
        actions.push(action);
        let next = copy_files(files, state, *outcome);
        state = next.0;
        action = next.1;
    }
    actions.push(action);
    actions
}

#[test]
fn copy_state_starts_at_the_first_task() {
    assert_eq!(CopyState::new(), CopyState { index: 0, directory_ready: false });
}

#[test]
fn copy_files_of_nothing_is_finished_at_once() {
    let (state, action) = copy_files(&Vec::new(), CopyState::new(), CopyEvent::Begin);
    assert_eq!(state, CopyState::new());
    assert_eq!(action, CopyAction::Finished);
}

#[test]
fn copy_files_creates_the_directory_then_copies() {
    let files = vec![task("/in/p/a/g.x", "/out/p/id1.x"), task("/in/p/b/h.x", "/out/p/id2.x")];
    let actions = run(&files, &[CopyEvent::Succeeded; 4]);
    assert_eq!(
        actions,
        vec![
            create("/out/p"),
            copy("/in/p/a/g.x", "/out/p/id1.x"),
            create("/out/p"),
            copy("/in/p/b/h.x", "/out/p/id2.x"),
            CopyAction::Finished,
        ]
    );
}

#[test]
fn copy_files_gives_up_a_task_whose_directory_fails_and_goes_on() {
    let files = vec![task("a.x", "/out/one/id1.x"), task("b.x", "/out/two/id2.x")];
    let actions = run(&files, &[CopyEvent::Failed, CopyEvent::Succeeded, CopyEvent::Succeeded]);
    assert_eq!(
        actions,
        vec![
            create("/out/one"),
            create("/out/two"),
            copy("b.x", "/out/two/id2.x"),
            CopyAction::Finished,
        ]
    );
}

#[test]
fn copy_files_goes_on_after_a_failed_copy() {
    let files = vec![task("a.x", "/out/id1.x"), task("b.x", "/out/id2.x")];
    let outcomes =
        [CopyEvent::Succeeded, CopyEvent::Failed, CopyEvent::Succeeded, CopyEvent::Succeeded];
    let actions = run(&files, &outcomes);
    assert_eq!(
        actions,
        vec![
            create("/out"),
            copy("a.x", "/out/id1.x"),
            create("/out"),
            copy("b.x", "/out/id2.x"),
            CopyAction::Finished,
        ]
    );
}

#[test]
fn copy_files_copies_at_once_where_the_destination_has_no_directory() {
    let files = vec![task("a.x", "/")];
    let (state, action) = copy_files(&files, CopyState::new(), CopyEvent::Begin);
    assert_eq!(state, CopyState::new());
    assert_eq!(action, copy("a.x", "/"));
    let (state, action) = copy_files(&files, state, CopyEvent::Failed);
    assert_eq!(state, CopyState { index: 1, directory_ready: false });
    assert_eq!(action, CopyAction::Finished);
}

#[test]
fn copy_files_creates_the_empty_directory_for_a_bare_file_name() {
    let files = vec![task("a.x", "id1.x")];
    let (_, action) = copy_files(&files, CopyState::new(), CopyEvent::Begin);
    assert_eq!(action, create(""));
}

#[test]
fn copy_files_begin_asks_again_for_the_action_at_hand() {
    let files = vec![task("a.x", "/out/id1.x")];
    let ready = CopyState { index: 0, directory_ready: true };
    let (state, action) = copy_files(&files, ready, CopyEvent::Begin);
    assert_eq!(state, ready);
    assert_eq!(action, copy("a.x", "/out/id1.x"));
}

#[test]
fn copy_files_stays_finished() {
    let files = vec![task("a.x", "/out/id1.x")];
    let done = CopyState { index: 1, directory_ready: false };
    for event in [CopyEvent::Begin, CopyEvent::Succeeded, CopyEvent::Failed] {
        let (state, action) = copy_files(&files, done, event);
        assert_eq!(state, done);
        assert_eq!(action, CopyAction::Finished);
    }
}

#[test]
fn copy_files_takes_at_most_two_actions_per_task() {
    let files = vec![task("a.x", "/o/1.x"), task("b.x", "/o/2.x"), task("c.x", "/o/3.x")];
    let (mut state, mut action) = copy_files(&files, CopyState::new(), CopyEvent::Begin);
    let mut steps = 0;
    while action != CopyAction::Finished {
        let outcome = if steps % 3 == 0 { CopyEvent::Failed } else { CopyEvent::Succeeded };
        let next = copy_files(&files, state, outcome);
        state = next.0;
        action = next.1;
        steps += 1;
        assert!(steps <= 2 * files.len());
    }
    assert_eq!(state.index, files.len());
}

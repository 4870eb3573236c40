use reposnap::ignore_rules::build_ignore_list;
use reposnap::watcher::{
    kind_label, on_change, start_watcher_internal, stop_watcher_internal, surviving_paths,
    ChangeKind, ChangedPath, DebounceAccumulator, TimerStep, WatchError, WatcherState,
    DEBOUNCE_WINDOW_MS, POLLS_PER_WINDOW,
};

fn one(path: &str) -> Vec<String> {
    vec![path.to_string()]
}

#[test]
fn defaults_are_half_a_second_and_five_polls() {
    assert_eq!(DEBOUNCE_WINDOW_MS, 500);
    assert_eq!(POLLS_PER_WINDOW, 5);
    assert_eq!(DebounceAccumulator::new(500).poll_interval_ms(), 100);
    assert_eq!(DebounceAccumulator::new(7).poll_interval_ms(), 1);
}

#[test]
fn kinds_have_their_labels() {
    assert_eq!(kind_label(ChangeKind::Create), "create");
    assert_eq!(kind_label(ChangeKind::Modify), "modify");
    assert_eq!(kind_label(ChangeKind::Remove), "remove");
    assert_eq!(kind_label(ChangeKind::Other), "other");
}

#[test]
fn new_state_is_idle() {
    let state = DebounceAccumulator::new(500);
    assert!(!state.timer_running());
    assert_eq!(state.pending_len(), 0);
}

#[test]
fn burst_for_one_path_is_emitted_once() {
    let mut state = DebounceAccumulator::new(500);
    assert!(state.record(1000, one("/r/a.txt"), ChangeKind::Create));
    assert!(matches!(state.poll(1100), TimerStep::Wait));
    assert!(!state.record(1200, one("/r/a.txt"), ChangeKind::Modify));
    assert!(matches!(state.poll(1300), TimerStep::Wait));
    assert!(matches!(state.poll(1500), TimerStep::Wait));
    assert!(!state.record(1600, one("/r/a.txt"), ChangeKind::Remove));
    assert!(matches!(state.poll(1700), TimerStep::Wait));
    assert!(matches!(state.poll(2099), TimerStep::Wait));
    assert!(state.timer_running());
    match state.poll(2100) {
        TimerStep::Emit(batch) => {
            assert_eq!(batch.len(), 1);
            assert_eq!(batch[0].path, "/r/a.txt");
            assert_eq!(batch[0].kind, ChangeKind::Remove);
        }
        _ => panic!("expected a batch"),
    }
    assert!(!state.timer_running());
    assert_eq!(state.pending_len(), 0);
    assert!(matches!(state.poll(5000), TimerStep::Stop));
}

#[test]
fn several_paths_are_merged_in_order_of_arrival() {
    let mut state = DebounceAccumulator::new(500);
    assert!(state.record(0, vec!["/a".to_string(), "/b".to_string()], ChangeKind::Create));
    assert!(!state.record(10, vec!["/c".to_string(), "/a".to_string()], ChangeKind::Modify));
    assert_eq!(state.pending_len(), 3);
    match state.poll(510) {
        TimerStep::Emit(batch) => {
            let seen: Vec<(&str, ChangeKind)> =
                batch.iter().map(|c| (c.path.as_str(), c.kind)).collect();
            assert_eq!(
                seen,
                vec![("/a", ChangeKind::Modify), ("/b", ChangeKind::Create), ("/c", ChangeKind::Modify)]
            );
        }
        _ => panic!("expected a batch"),
    }
}

#[test]
fn no_paths_change_nothing() {
    let mut state = DebounceAccumulator::new(500);
    assert!(!state.record(100, Vec::new(), ChangeKind::Create));
    assert!(!state.timer_running());
    assert_eq!(state.pending_len(), 0);
}

#[test]
fn after_a_batch_the_next_change_starts_a_timer() {
    let mut state = DebounceAccumulator::new(500);
    assert!(state.record(0, one("/a"), ChangeKind::Create));
    assert!(matches!(state.poll(500), TimerStep::Emit(_)));
    assert!(state.record(600, one("/a"), ChangeKind::Modify));
    assert!(matches!(state.poll(1099), TimerStep::Wait));
    assert!(matches!(state.poll(1100), TimerStep::Emit(_)));
}

#[test]
fn clock_that_runs_backwards_waits() {
    let mut state = DebounceAccumulator::new(500);
    assert!(state.record(1000, one("/a"), ChangeKind::Create));
    assert!(matches!(state.poll(10), TimerStep::Wait));
    assert_eq!(state.pending_len(), 1);
}

#[test]
fn ignored_paths_are_dropped() {
    let rules = build_ignore_list("/repo", None, None).ok().unwrap().rules;
    let changes = vec![
        ChangedPath { path: "/repo/node_modules".to_string(), relative_path: "node_modules".to_string(), is_directory: true },
        ChangedPath { path: "/repo/a.txt".to_string(), relative_path: "a.txt".to_string(), is_directory: false },
        ChangedPath { path: "/repo/x.log".to_string(), relative_path: "x.log".to_string(), is_directory: false },
        ChangedPath { path: "/repo/build".to_string(), relative_path: "build".to_string(), is_directory: false },
    ];
    assert_eq!(surviving_paths(&changes, &rules), vec!["/repo/a.txt", "/repo/build"]);
    let mut state = DebounceAccumulator::new(500);
    assert!(on_change(&mut state, 5, &changes, ChangeKind::Modify, &rules));
    assert_eq!(state.pending_len(), 2);
    let ignored = vec![ChangedPath { path: "/repo/x.log".to_string(), relative_path: "x.log".to_string(), is_directory: false }];
    let mut quiet = DebounceAccumulator::new(500);
    assert!(!on_change(&mut quiet, 5, &ignored, ChangeKind::Modify, &rules));
    assert!(!quiet.timer_running());
}

#[test]
fn watch_of_a_directory_starts_idle() {
    let session = start_watcher_internal("/repo".to_string(), true, None, Some(vec!["[z-a]".to_string()]))
        .ok()
        .unwrap();
    assert_eq!(session.root, "/repo");
    assert!(session.rules.is_ignored("node_modules", true));
    assert_eq!(session.rejected, vec!["[z-a]".to_string()]);
    assert!(!session.debounce.timer_running());
    assert_eq!(session.debounce.poll_interval_ms(), 100);
}

#[test]
fn watch_of_a_file_is_refused() {
    match start_watcher_internal("/repo/a.txt".to_string(), false, None, None) {
        Err(WatchError::NotADirectory(path)) => assert_eq!(path, "/repo/a.txt"),
        _ => panic!("expected a refusal"),
    }
}

#[test]
fn starting_replaces_and_stopping_is_idempotent() {
    let mut state = WatcherState::new();
    assert!(!state.is_watching());
    assert!(!stop_watcher_internal(&mut state));
    assert!(!state.replace_watch("/one".to_string()));
    assert!(state.is_watching());
    assert!(state.replace_watch("/two".to_string()));
    assert!(state.is_watching());
    assert!(stop_watcher_internal(&mut state));
    assert!(!state.is_watching());
    assert!(!stop_watcher_internal(&mut state));
    assert!(!state.is_watching());
}

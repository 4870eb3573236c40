use crate::ignore_rules::{
    build_ignore_list, file_lines, first_refused_default, ignore_verdict, layered_lines,
    line_models, lines_compile, refused_lines, stored_root, IgnoreError, IgnoreRules,
};
use crate::sequences::{first_with_key, first_with_key_found, first_with_key_is};
use vstd::prelude::*;

verus! {

/// The quiet time in milliseconds after which collected changes are emitted.
pub const DEBOUNCE_WINDOW_MS: u64 = 500;

/// How many times per window the timer looks whether the window has passed.
pub const POLLS_PER_WINDOW: u64 = 5;

/// What happened to a path.
#[derive(Debug, Clone, Copy, PartialEq, Eq, Structural)]
pub enum ChangeKind {
    Create,
    Modify,
    Remove,
    Other,
}

/// The name under which a kind of change is reported.
pub open spec fn label_of(kind: ChangeKind) -> Seq<char> {
    match kind {
        ChangeKind::Create => "create"@,
        ChangeKind::Modify => "modify"@,
        ChangeKind::Remove => "remove"@,
        ChangeKind::Other => "other"@,
    }
}

/// The name under which a kind of change is reported.
pub fn kind_label(kind: ChangeKind) -> (label: &'static str)
    ensures
        label@ == label_of(kind),
{
    match kind {
        ChangeKind::Create => "create",
        ChangeKind::Modify => "modify",
        ChangeKind::Remove => "remove",
        ChangeKind::Other => "other",
    }
}

/// One reported change: a path and what happened to it.
#[derive(Debug)]
pub struct FileChangeEvent {
    pub path: String,
    pub kind: ChangeKind,
}

/// The mathematical value of a [`FileChangeEvent`].
pub type ChangeModel = (Seq<char>, ChangeKind);

impl View for FileChangeEvent {
    type V = ChangeModel;

    open spec fn view(&self) -> ChangeModel {
        (self.path@, self.kind)
    }
}

/// The models of a sequence of changes, in order.
pub open spec fn change_models(changes: Seq<FileChangeEvent>) -> Seq<ChangeModel> {
    Seq::new(changes.len(), |i: int| changes[i]@)
}

/// The characters of each path, in order.
pub open spec fn path_models(paths: Seq<String>) -> Seq<Seq<char>> {
    Seq::new(paths.len(), |i: int| paths[i]@)
}

/// The pending changes with one more change merged in: a path that is pending
/// keeps its place and takes the new kind; a new path is added at the end.
pub open spec fn with_change(pending: Seq<ChangeModel>, path: Seq<char>, kind: ChangeKind) -> Seq<
    ChangeModel,
> {
    match first_with_key(pending, path) {
        Some(i) => pending.update(i, (path, kind)),
        None => pending.push((path, kind)),
    }
}

/// The pending changes with a change of `kind` merged in for each of `paths`.
pub open spec fn with_changes(pending: Seq<ChangeModel>, paths: Seq<Seq<char>>, kind: ChangeKind) -> Seq<
    ChangeModel,
>
    decreases paths.len(),
{
    if paths.len() == 0 {
        pending
    } else {
        with_change(with_changes(pending, paths.drop_last(), kind), paths.last(), kind)
    }
}

/// No path is pending twice.
pub open spec fn distinct_changes(pending: Seq<ChangeModel>) -> bool {
    forall|i: int, j: int|
        0 <= i < j < pending.len() ==> (#[trigger] pending[i]).0 != (#[trigger] pending[j]).0
}

/// Merging a change keeps each path pending once.
pub proof fn with_change_keeps_distinct(pending: Seq<ChangeModel>, path: Seq<char>, kind: ChangeKind)
    requires
        distinct_changes(pending),
    ensures
        distinct_changes(with_change(pending, path, kind)),
{
    first_with_key_found(pending, path);
    let after = with_change(pending, path, kind);
    match first_with_key(pending, path) {
        Some(i) => {
            assert forall|a: int, b: int| 0 <= a < b < after.len() implies (#[trigger] after[a]).0
                != (#[trigger] after[b]).0 by {
                assert(after[a].0 == pending[a].0);
                assert(after[b].0 == pending[b].0);
            }
        },
        None => {
            assert forall|a: int, b: int| 0 <= a < b < after.len() implies (#[trigger] after[a]).0
                != (#[trigger] after[b]).0 by {
                assert(after[a] == pending[a]);
                if b < pending.len() {
                    assert(after[b] == pending[b]);
                }
            }
        },
    }
}

/// The mathematical value of a [`DebounceAccumulator`].
pub struct DebounceModel {
    /// The quiet time after which the pending changes are emitted.
    pub window: u64,
    /// The time of the last change that was recorded.
    pub last_event: u64,
    /// The changes that wait to be emitted, each path once.
    pub pending: Seq<ChangeModel>,
    /// Whether a timer is waiting for the window to pass.
    pub timer_running: bool,
}

/// The state in which nothing is pending and no timer runs.
pub open spec fn idle(state: DebounceModel) -> bool {
    state.pending.len() == 0 && !state.timer_running
}

/// The time that has passed since the last change.
pub open spec fn elapsed(state: DebounceModel, now: u64) -> int {
    if now >= state.last_event {
        now - state.last_event
    } else {
        0
    }
}

/// Whether the window has passed since the last change.
pub open spec fn due(state: DebounceModel, now: u64) -> bool {
    elapsed(state, now) >= state.window
}

/// The state after changes of `kind` to `paths` were recorded at `now`: they
/// are merged into the pending changes, the clock is set to `now`, and a timer
/// runs. No paths, no change of state.
pub open spec fn recorded(
    state: DebounceModel,
    now: u64,
    paths: Seq<Seq<char>>,
    kind: ChangeKind,
) -> DebounceModel {
    if paths.len() == 0 {
        state
    } else {
        DebounceModel {
            window: state.window,
            last_event: now,
            pending: with_changes(state.pending, paths, kind),
            timer_running: true,
        }
    }
}

/// Whether recording these paths calls for a new timer: it does if there are
/// any and no timer runs.
pub open spec fn needs_timer(state: DebounceModel, paths: Seq<Seq<char>>) -> bool {
    paths.len() > 0 && !state.timer_running
}

/// The state after the timer looked at the clock at `now`: once the window
/// has passed, nothing is pending and no timer runs.
pub open spec fn polled(state: DebounceModel, now: u64) -> DebounceModel {
    if due(state, now) {
        DebounceModel {
            window: state.window,
            last_event: state.last_event,
            pending: Seq::empty(),
            timer_running: false,
        }
    } else {
        state
    }
}

/// What the timer is to do after it looked at the clock.
#[derive(Debug)]
pub enum TimerStep {
    /// The window has not passed: sleep, then look again.
    Wait,
    /// The window has passed and nothing is pending: end.
    Stop,
    /// The window has passed: emit these changes as one batch, then end.
    Emit(Vec<FileChangeEvent>),
}

/// The mathematical value of a [`TimerStep`].
pub enum TimerStepModel {
    Wait,
    Stop,
    Emit(Seq<ChangeModel>),
}

impl View for TimerStep {
    type V = TimerStepModel;

    open spec fn view(&self) -> TimerStepModel {
        match *self {
            TimerStep::Wait => TimerStepModel::Wait,
            TimerStep::Stop => TimerStepModel::Stop,
            TimerStep::Emit(batch) => TimerStepModel::Emit(change_models(batch@)),
        }
    }
}

/// What the timer is to do when it looks at the clock at `now`.
pub open spec fn timer_step(state: DebounceModel, now: u64) -> TimerStepModel {
    if !due(state, now) {
        TimerStepModel::Wait
    } else if state.pending.len() == 0 {
        TimerStepModel::Stop
    } else {
        TimerStepModel::Emit(state.pending)
    }
}

/// The state of one watch between the change notifications and the timer: the
/// changes that wait to be emitted, the time of the last one, and whether a
/// timer runs.
pub struct DebounceAccumulator {
    window_ms: u64,
    last_event_ms: u64,
    pending: Vec<FileChangeEvent>,
    timer_running: bool,
}

impl View for DebounceAccumulator {
    type V = DebounceModel;

    closed spec fn view(&self) -> DebounceModel {
        DebounceModel {
            window: self.window_ms,
            last_event: self.last_event_ms,
            pending: change_models(self.pending@),
            timer_running: self.timer_running,
        }
    }
}

/// Where `path` is pending.
fn find_pending(pending: &Vec<FileChangeEvent>, path: &String) -> (found: Option<usize>)
    ensures
        match found {
            Some(i) => i < pending.len() && first_with_key(change_models(pending@), path@)
                == Some(i as int),
            None => first_with_key(change_models(pending@), path@) is None,
        },
{
    let ghost models = change_models(pending@);
    let mut i: usize = 0;
    while i < pending.len()
        invariant
            i <= pending.len(),
            models == change_models(pending@),
            forall|j: int| 0 <= j < i ==> (#[trigger] models[j]).0 != path@,
        decreases pending.len() - i,
    {
        if pending[i].path == *path {
            proof {
                first_with_key_is(models, path@, i as int);
            }
            return Some(i);
        }
        i += 1;
    }
    proof {
        first_with_key_found(models, path@);
    }
    None
}

impl DebounceAccumulator {
    /// A state with this window in which nothing is pending and no timer runs.
    pub fn new(window_ms: u64) -> (state: Self)
        ensures
            state@ == (DebounceModel {
                window: window_ms,
                last_event: 0,
                pending: Seq::empty(),
                timer_running: false,
            }),
    {
        let state = DebounceAccumulator {
            window_ms,
            last_event_ms: 0,
            pending: Vec::new(),
            timer_running: false,
        };
        assert(change_models(state.pending@) =~= Seq::<ChangeModel>::empty());
        state
    }

    /// The time in milliseconds that the timer sleeps between two looks at the
    /// clock: a fifth of the window.
    pub fn poll_interval_ms(&self) -> (interval: u64)
        ensures
            interval == self@.window / POLLS_PER_WINDOW,
    {
        self.window_ms / POLLS_PER_WINDOW
    }

    /// Whether a timer runs.
    pub fn timer_running(&self) -> (running: bool)
        ensures
            running == self@.timer_running,
    {
        self.timer_running
    }

    /// How many changes are pending.
    pub fn pending_len(&self) -> (count: usize)
        ensures
            count == self@.pending.len(),
    {
        self.pending.len()
    }

    /// Records changes of `kind` to `paths`, seen at `now_ms`. Says whether a
    /// timer is to be started: that is so if there are paths and none runs.
    pub fn record(&mut self, now_ms: u64, paths: Vec<String>, kind: ChangeKind) -> (start_timer: bool)
        ensures
            final(self)@ == recorded(old(self)@, now_ms, path_models(paths@), kind),
            start_timer == needs_timer(old(self)@, path_models(paths@)),
    {
        if paths.len() == 0 {
            return false;
        }
        let ghost all = path_models(paths@);
        let ghost start = change_models(self.pending@);
        let mut i: usize = 0;
        while i < paths.len()
            invariant
                i <= paths.len(),
                all == path_models(paths@),
                self.window_ms == old(self).window_ms,
                self.timer_running == old(self).timer_running,
                change_models(self.pending@) == with_changes(start, all.take(i as int), kind),
            decreases paths.len() - i,
        {
            let path = &paths[i];
            let ghost before = change_models(self.pending@);
            proof {
                assert(all.take(i + 1).drop_last() =~= all.take(i as int));
                assert(all.take(i + 1).last() == path@);
            }
            match find_pending(&self.pending, path) {
                Some(at) => {
                    self.pending.set(at, FileChangeEvent { path: path.clone(), kind });
                    assert(change_models(self.pending@) =~= before.update(
                        at as int,
                        (path@, kind),
                    ));
                },
                None => {
                    self.pending.push(FileChangeEvent { path: path.clone(), kind });
                    assert(change_models(self.pending@) =~= before.push((path@, kind)));
                },
            }
            i += 1;
        }
        assert(all.take(paths.len() as int) =~= all);
        let start_timer = !self.timer_running;
        self.last_event_ms = now_ms;
        self.timer_running = true;
        start_timer
    }

    /// The timer's look at the clock at `now_ms`. Before the window has passed
    /// since the last change, nothing happens. After it, everything pending is
    /// taken out to be emitted as one batch, and the timer ends.
    pub fn poll(&mut self, now_ms: u64) -> (step: TimerStep)
        ensures
            final(self)@ == polled(old(self)@, now_ms),
            step@ == timer_step(old(self)@, now_ms),
    {
        let passed: u64 = if now_ms >= self.last_event_ms {
            now_ms - self.last_event_ms
        } else {
            0
        };
        if passed < self.window_ms {
            return TimerStep::Wait;
        }
        let mut batch: Vec<FileChangeEvent> = Vec::new();
        std::mem::swap(&mut self.pending, &mut batch);
        self.timer_running = false;
        assert(change_models(self.pending@) =~= Seq::<ChangeModel>::empty());
        if batch.len() == 0 {
            TimerStep::Stop
        } else {
            TimerStep::Emit(batch)
        }
    }
}

/// A path named by a change notification, as the matcher needs it.
#[derive(Debug)]
pub struct ChangedPath {
    /// The path as it is reported.
    pub path: String,
    /// The path relative to the watched directory.
    pub relative_path: String,
    /// Whether the path is a directory now.
    pub is_directory: bool,
}

/// The mathematical value of a [`ChangedPath`].
pub type ChangedModel = (Seq<char>, Seq<char>, bool);

impl View for ChangedPath {
    type V = ChangedModel;

    open spec fn view(&self) -> ChangedModel {
        (self.path@, self.relative_path@, self.is_directory)
    }
}

/// The models of a sequence of changed paths, in order.
pub open spec fn changed_models(changes: Seq<ChangedPath>) -> Seq<ChangedModel> {
    Seq::new(changes.len(), |i: int| changes[i]@)
}

/// The paths among `changes` that the rules do not exclude, in their order.
pub open spec fn kept_paths(changes: Seq<ChangedModel>, root: Seq<char>, lines: Seq<Seq<char>>) -> Seq<
    Seq<char>,
>
    decreases changes.len(),
{
    if changes.len() == 0 {
        Seq::empty()
    } else {
        let before = kept_paths(changes.drop_last(), root, lines);
        let last = changes.last();
        if ignore_verdict(root, lines, last.1, last.2) {
            before
        } else {
            before.push(last.0)
        }
    }
}

/// Drops the paths that the rules exclude.
pub fn surviving_paths(changes: &Vec<ChangedPath>, rules: &IgnoreRules) -> (paths: Vec<String>)
    ensures
        path_models(paths@) == kept_paths(changed_models(changes@), rules.root(), rules.lines()),
{
    let ghost all = changed_models(changes@);
    let mut paths: Vec<String> = Vec::new();
    let mut i: usize = 0;
    while i < changes.len()
        invariant
            i <= changes.len(),
            all == changed_models(changes@),
            path_models(paths@) == kept_paths(all.take(i as int), rules.root(), rules.lines()),
        decreases changes.len() - i,
    {
        let change = &changes[i];
        proof {
            assert(all.take(i + 1).drop_last() =~= all.take(i as int));
            assert(all.take(i + 1).last() == change@);
        }
        if !rules.is_ignored(change.relative_path.as_str(), change.is_directory) {
            let ghost before = path_models(paths@);
            paths.push(change.path.clone());
            assert(path_models(paths@) =~= before.push(change.path@));
        }
        i += 1;
    }
    assert(all.take(changes.len() as int) =~= all);
    paths
}

/// Handles one change notification: the paths that the rules exclude are
/// dropped, the others are recorded. Says whether a timer is to be started.
pub fn on_change(
    state: &mut DebounceAccumulator,
    now_ms: u64,
    changes: &Vec<ChangedPath>,
    kind: ChangeKind,
    rules: &IgnoreRules,
) -> (start_timer: bool)
    ensures
        final(state)@ == recorded(
            old(state)@,
            now_ms,
            kept_paths(changed_models(changes@), rules.root(), rules.lines()),
            kind,
        ),
        start_timer == needs_timer(
            old(state)@,
            kept_paths(changed_models(changes@), rules.root(), rules.lines()),
        ),
{
    let paths = surviving_paths(changes, rules);
    state.record(now_ms, paths, kind)
}

/// The state of one watch: the watched directory, its ignore rules and the
/// changes that wait to be emitted.
pub struct WatchSession {
    /// The watched directory.
    pub root: String,
    /// The rules that decide which changes are dropped.
    pub rules: IgnoreRules,
    /// The lines of the ignore files that were refused and left out.
    pub rejected: Vec<String>,
    /// The changes that wait to be emitted.
    pub debounce: DebounceAccumulator,
}

/// Why a watch could not be started.
#[derive(Debug)]
pub enum WatchError {
    /// The path to watch is not a directory.
    NotADirectory(String),
    /// The ignore rules could not be built.
    Rules(IgnoreError),
    /// The notifications of the operating system could not be subscribed to;
    /// the message says why.
    Subscription(String),
}

/// The state with which a watch starts: the default window, nothing pending,
/// no timer.
pub open spec fn fresh_debounce() -> DebounceModel {
    DebounceModel {
        window: DEBOUNCE_WINDOW_MS,
        last_event: 0,
        pending: Seq::empty(),
        timer_running: false,
    }
}

/// Prepares a watch of the directory at `dir_path`: builds the ignore rules
/// from the default patterns and the lines of the two ignore files, and starts
/// with nothing pending. Fails where the path is not a directory or the rules
/// cannot be built.
pub fn start_watcher_internal(
    dir_path: String,
    is_directory: bool,
    repository_file: Option<Vec<String>>,
    tool_file: Option<Vec<String>>,
) -> (started: Result<WatchSession, WatchError>)
    ensures
        started is Ok <==> is_directory && first_refused_default() is None && lines_compile(
            layered_lines(file_lines(repository_file), file_lines(tool_file)),
        ),
        !is_directory ==> (started matches Err(WatchError::NotADirectory(path)) && path@
            == dir_path@),
        is_directory ==> !(started matches Err(WatchError::NotADirectory(_))) && !(
        started matches Err(WatchError::Subscription(_))),
        started matches Ok(session) ==> {
            &&& session.root@ == dir_path@
            &&& session.rules.root() == stored_root(dir_path@)
            &&& session.rules.lines() == layered_lines(
                file_lines(repository_file),
                file_lines(tool_file),
            )
            &&& line_models(session.rejected@) == refused_lines(file_lines(repository_file))
                + refused_lines(file_lines(tool_file))
            &&& session.debounce@ == fresh_debounce()
        },
{
    if !is_directory {
        return Err(WatchError::NotADirectory(dir_path));
    }
    match build_ignore_list(dir_path.as_str(), repository_file, tool_file) {
        Ok(build) => Ok(
            WatchSession {
                root: dir_path,
                rules: build.rules,
                rejected: build.rejected,
                debounce: DebounceAccumulator::new(DEBOUNCE_WINDOW_MS),
            },
        ),
        Err(error) => Err(WatchError::Rules(error)),
    }
}

/// Whether a watch is active, and of which directory: there is at most one.
pub struct WatcherState {
    root: Option<String>,
}

impl WatcherState {
    /// The watched directory, if a watch is active.
    pub closed spec fn watching(&self) -> Option<Seq<char>> {
        match self.root {
            Some(root) => Some(root@),
            None => None,
        }
    }

    /// The state in which no watch is active.
    pub fn new() -> (state: Self)
        ensures
            state.watching() is None,
    {
        WatcherState { root: None }
    }

    /// Whether a watch is active.
    pub fn is_watching(&self) -> (active: bool)
        ensures
            active == (self.watching() is Some),
    {
        self.root.is_some()
    }

    /// Notes that a watch of `root` is active now, in place of any other. Says
    /// whether another watch was active and is to be discarded.
    pub fn replace_watch(&mut self, root: String) -> (replaced: bool)
        ensures
            final(self).watching() == Some(root@),
            replaced == (old(self).watching() is Some),
    {
        let replaced = self.root.is_some();
        self.root = Some(root);
        replaced
    }
}

/// Ends the active watch, if there is one, and says whether there was. Ending
/// when no watch is active changes nothing.
pub fn stop_watcher_internal(state: &mut WatcherState) -> (was_watching: bool)
    ensures
        final(state).watching() is None,
        was_watching == (old(state).watching() is Some),
{
    let was_watching = state.root.is_some();
    state.root = None;
    was_watching
}

} // verus!

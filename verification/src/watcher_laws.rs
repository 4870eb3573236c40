use crate::watcher::{
    distinct_changes, due, idle, needs_timer, polled, recorded, timer_step, with_change,
    with_change_keeps_distinct, with_changes, ChangeKind, ChangeModel, DebounceModel,
    TimerStepModel,
};
use vstd::prelude::*;

verus! {

/// What can happen to the state of a watch: changes are recorded, or the timer
/// looks at the clock.
pub enum WatchAction {
    /// Changes of one kind to these paths, seen at this time.
    Change(u64, Seq<Seq<char>>, ChangeKind),
    /// A look of the timer at the clock at this time.
    Tick(u64),
}

/// The state after one action.
pub open spec fn after_action(state: DebounceModel, action: WatchAction) -> DebounceModel {
    match action {
        WatchAction::Change(at, paths, kind) => recorded(state, at, paths, kind),
        WatchAction::Tick(at) => polled(state, at),
    }
}

/// The state after a sequence of actions.
pub open spec fn state_after(state: DebounceModel, actions: Seq<WatchAction>) -> DebounceModel
    decreases actions.len(),
{
    if actions.len() == 0 {
        state
    } else {
        after_action(state_after(state, actions.drop_last()), actions.last())
    }
}

/// The batches that a sequence of actions emits, in their order.
pub open spec fn batches_of(state: DebounceModel, actions: Seq<WatchAction>) -> Seq<Seq<ChangeModel>>
    decreases actions.len(),
{
    if actions.len() == 0 {
        Seq::empty()
    } else {
        let before = batches_of(state, actions.drop_last());
        match actions.last() {
            WatchAction::Tick(at) => match timer_step(
                state_after(state, actions.drop_last()),
                at,
            ) {
                TimerStepModel::Emit(batch) => before.push(batch),
                _ => before,
            },
            WatchAction::Change(_, _, _) => before,
        }
    }
}

/// How many timers a sequence of actions starts.
pub open spec fn timers_started(state: DebounceModel, actions: Seq<WatchAction>) -> nat
    decreases actions.len(),
{
    if actions.len() == 0 {
        0
    } else {
        let before = timers_started(state, actions.drop_last());
        match actions.last() {
            WatchAction::Change(_, paths, _) => if needs_timer(
                state_after(state, actions.drop_last()),
                paths,
            ) {
                before + 1
            } else {
                before
            },
            WatchAction::Tick(_) => before,
        }
    }
}

/// The kind of the last change among the actions, if there is a change.
pub open spec fn last_kind(actions: Seq<WatchAction>) -> Option<ChangeKind>
    decreases actions.len(),
{
    if actions.len() == 0 {
        None
    } else {
        match actions.last() {
            WatchAction::Change(_, _, kind) => Some(kind),
            WatchAction::Tick(_) => last_kind(actions.drop_last()),
        }
    }
}

/// An action that belongs to a burst of changes to `path`: a change to that
/// path alone, less than a window after the change before it; or a look of the
/// running timer at the clock, less than a window after the last change. Time
/// does not run backwards.
pub open spec fn within_burst(state: DebounceModel, action: WatchAction, path: Seq<char>) -> bool {
    match action {
        WatchAction::Change(at, paths, _) => {
            &&& paths == seq![path]
            &&& at >= state.last_event
            &&& state.timer_running ==> at - state.last_event < state.window
        },
        WatchAction::Tick(at) => {
            &&& state.timer_running
            &&& at >= state.last_event
            &&& at - state.last_event < state.window
        },
    }
}

/// A burst of changes to `path`: every action is within the burst, in the state
/// that the actions before it have led to.
pub open spec fn is_burst(state: DebounceModel, actions: Seq<WatchAction>, path: Seq<char>) -> bool {
    forall|i: int|
        0 <= i < actions.len() ==> within_burst(
            state_after(state, #[trigger] actions.take(i)),
            actions[i],
            path,
        )
}

/// During a burst of changes to one path nothing is emitted. From its first
/// change on, that path is pending once, with the kind of the last change, and
/// one timer has been started and runs.
pub proof fn burst_collects(start: DebounceModel, actions: Seq<WatchAction>, path: Seq<char>)
    requires
        idle(start),
        is_burst(start, actions, path),
    ensures
        batches_of(start, actions).len() == 0,
        state_after(start, actions).window == start.window,
        match last_kind(actions) {
            Some(kind) => {
                &&& state_after(start, actions).pending == seq![(path, kind)]
                &&& state_after(start, actions).timer_running
                &&& timers_started(start, actions) == 1
            },
            None => state_after(start, actions) == start && timers_started(start, actions) == 0,
        },
    decreases actions.len(),
{
    if actions.len() > 0 {
        let front = actions.drop_last();
        let n = front.len() as int;
        assert forall|i: int| 0 <= i < front.len() implies within_burst(
            state_after(start, #[trigger] front.take(i)),
            front[i],
            path,
        ) by {
            assert(front.take(i) =~= actions.take(i));
            assert(front[i] == actions[i]);
        }
        burst_collects(start, front, path);
        let state = state_after(start, front);
        assert(actions.take(n) =~= front);
        assert(within_burst(state_after(start, actions.take(n)), actions[n], path));
        match actions.last() {
            WatchAction::Change(at, paths, kind) => {
                assert(paths.drop_last() =~= Seq::<Seq<char>>::empty());
                assert(paths.last() == path);
                assert(with_changes(state.pending, paths.drop_last(), kind) == state.pending);
                assert(with_changes(state.pending, paths, kind) == with_change(
                    state.pending,
                    path,
                    kind,
                ));
                match last_kind(front) {
                    Some(earlier) => {
                        assert(state.pending[0].0 == path);
                        assert(with_change(state.pending, path, kind) =~= seq![(path, kind)]);
                    },
                    None => {
                        assert(state.pending.len() == 0);
                        assert(with_change(state.pending, path, kind) =~= seq![(path, kind)]);
                    },
                }
            },
            WatchAction::Tick(at) => {
                assert(!due(state, at));
            },
        }
    }
}

/// Debounce coalescing: after a burst of changes to one path, each less than a
/// window after the one before, the first look at the clock that comes a full
/// window after the last change emits one batch, the only one, which holds that
/// path once with the kind of its last change. One timer was started; after the
/// batch nothing is pending and no timer runs.
pub proof fn burst_is_emitted_once(
    start: DebounceModel,
    actions: Seq<WatchAction>,
    path: Seq<char>,
    at: u64,
)
    requires
        idle(start),
        is_burst(start, actions, path),
        last_kind(actions) is Some,
        due(state_after(start, actions), at),
    ensures
        batches_of(start, actions.push(WatchAction::Tick(at))) == seq![
            seq![(path, last_kind(actions)->0)],
        ],
        timers_started(start, actions.push(WatchAction::Tick(at))) == 1,
        idle(state_after(start, actions.push(WatchAction::Tick(at)))),
{
    burst_collects(start, actions, path);
    let whole = actions.push(WatchAction::Tick(at));
    assert(whole.drop_last() =~= actions);
    assert(whole.last() == WatchAction::Tick(at));
    let state = state_after(start, actions);
    assert(timer_step(state, at) == TimerStepModel::Emit(state.pending));
    assert(batches_of(start, whole) =~= seq![seq![(path, last_kind(actions)->0)]]);
}

/// A look at the clock before the window has passed changes nothing and emits
/// nothing.
pub proof fn early_tick_waits(state: DebounceModel, at: u64)
    requires
        !due(state, at),
    ensures
        polled(state, at) == state,
        timer_step(state, at) == TimerStepModel::Wait,
{
}

/// While a timer runs, recording changes starts no second one.
pub proof fn one_timer_per_watch(state: DebounceModel, at: u64, paths: Seq<Seq<char>>, kind: ChangeKind)
    requires
        state.timer_running,
    ensures
        !needs_timer(state, paths),
        recorded(state, at, paths, kind).timer_running,
{
}

/// How many timers a sequence of actions ends: one at every look at the clock
/// that finds the window passed.
pub open spec fn timers_ended(state: DebounceModel, actions: Seq<WatchAction>) -> nat
    decreases actions.len(),
{
    if actions.len() == 0 {
        0
    } else {
        let before = timers_ended(state, actions.drop_last());
        match actions.last() {
            WatchAction::Tick(at) => if due(state_after(state, actions.drop_last()), at) {
                before + 1
            } else {
                before
            },
            WatchAction::Change(_, _, _) => before,
        }
    }
}

/// Only a running timer looks at the clock.
pub open spec fn orderly(state: DebounceModel, actions: Seq<WatchAction>) -> bool {
    forall|i: int|
        0 <= i < actions.len() && actions[i] is Tick ==> state_after(
            state,
            #[trigger] actions.take(i),
        ).timer_running
}

/// The actions before the last one are orderly if all are.
proof fn orderly_front(state: DebounceModel, actions: Seq<WatchAction>)
    requires
        actions.len() > 0,
        orderly(state, actions),
    ensures
        orderly(state, actions.drop_last()),
        actions.last() is Tick ==> state_after(state, actions.drop_last()).timer_running,
{
    let front = actions.drop_last();
    assert forall|i: int| 0 <= i < front.len() && front[i] is Tick implies state_after(
        state,
        #[trigger] front.take(i),
    ).timer_running by {
        assert(front.take(i) =~= actions.take(i));
        assert(front[i] == actions[i]);
    }
    assert(actions.take(actions.len() - 1) =~= front);
}

/// No change waits without a timer: whatever happens, in whatever order, as
/// long as something is pending a timer runs that will emit it.
pub proof fn pending_changes_have_a_timer(start: DebounceModel, actions: Seq<WatchAction>)
    requires
        start.pending.len() > 0 ==> start.timer_running,
    ensures
        state_after(start, actions).pending.len() > 0 ==> state_after(
            start,
            actions,
        ).timer_running,
    decreases actions.len(),
{
    if actions.len() > 0 {
        pending_changes_have_a_timer(start, actions.drop_last());
    }
}

/// At most one timer per watch: whatever happens, in whatever order, the
/// timers that were started and have not ended are one while a timer runs and
/// none otherwise.
pub proof fn one_timer_at_a_time(start: DebounceModel, actions: Seq<WatchAction>)
    requires
        !start.timer_running,
        orderly(start, actions),
    ensures
        timers_started(start, actions) == timers_ended(start, actions) + if state_after(
            start,
            actions,
        ).timer_running {
            1nat
        } else {
            0nat
        },
    decreases actions.len(),
{
    if actions.len() > 0 {
        orderly_front(start, actions);
        one_timer_at_a_time(start, actions.drop_last());
    }
}

/// Merging changes keeps each path pending once.
pub proof fn with_changes_keeps_distinct(
    pending: Seq<ChangeModel>,
    paths: Seq<Seq<char>>,
    kind: ChangeKind,
)
    requires
        distinct_changes(pending),
    ensures
        distinct_changes(with_changes(pending, paths, kind)),
    decreases paths.len(),
{
    if paths.len() > 0 {
        with_changes_keeps_distinct(pending, paths.drop_last(), kind);
        with_change_keeps_distinct(
            with_changes(pending, paths.drop_last(), kind),
            paths.last(),
            kind,
        );
    }
}

/// No change is emitted twice in one batch: whatever happens, in whatever
/// order, every path is pending at most once, and every batch that is emitted
/// holds each of its paths once.
pub proof fn each_path_once(start: DebounceModel, actions: Seq<WatchAction>)
    requires
        distinct_changes(start.pending),
    ensures
        distinct_changes(state_after(start, actions).pending),
        forall|k: int|
            0 <= k < batches_of(start, actions).len() ==> distinct_changes(
                #[trigger] batches_of(start, actions)[k],
            ),
    decreases actions.len(),
{
    if actions.len() > 0 {
        let front = actions.drop_last();
        each_path_once(start, front);
        let state = state_after(start, front);
        match actions.last() {
            WatchAction::Change(_, paths, kind) => {
                with_changes_keeps_distinct(state.pending, paths, kind);
            },
            WatchAction::Tick(at) => {
                let before = batches_of(start, front);
                let after = batches_of(start, actions);
                assert forall|k: int| 0 <= k < after.len() implies distinct_changes(
                    #[trigger] after[k],
                ) by {
                    if k < before.len() {
                        assert(after[k] == before[k]);
                    }
                }
            },
        }
    }
}

/// All changes of a sequence of actions, merged in their order.
pub open spec fn all_changes(actions: Seq<WatchAction>) -> Seq<ChangeModel>
    decreases actions.len(),
{
    if actions.len() == 0 {
        Seq::empty()
    } else {
        match actions.last() {
            WatchAction::Change(_, paths, kind) => with_changes(
                all_changes(actions.drop_last()),
                paths,
                kind,
            ),
            WatchAction::Tick(_) => all_changes(actions.drop_last()),
        }
    }
}

/// No look at the clock finds the window passed.
pub open spec fn quiet(state: DebounceModel, actions: Seq<WatchAction>) -> bool {
    forall|i: int|
        0 <= i < actions.len() && actions[i] is Tick ==> !due(
            state_after(state, #[trigger] actions.take(i)),
            actions[i]->Tick_0,
        )
}

/// Nothing is lost and nothing is emitted early: as long as no look at the
/// clock finds the window passed, no batch is emitted, and all changes that
/// were recorded are pending, merged in their order.
pub proof fn changes_wait_for_the_window(start: DebounceModel, actions: Seq<WatchAction>)
    requires
        start.pending.len() == 0,
        quiet(start, actions),
    ensures
        batches_of(start, actions).len() == 0,
        state_after(start, actions).pending == all_changes(actions),
        state_after(start, actions).window == start.window,
    decreases actions.len(),
{
    if actions.len() > 0 {
        let front = actions.drop_last();
        assert forall|i: int| 0 <= i < front.len() && front[i] is Tick implies !due(
            state_after(start, #[trigger] front.take(i)),
            front[i]->Tick_0,
        ) by {
            assert(front.take(i) =~= actions.take(i));
            assert(front[i] == actions[i]);
        }
        changes_wait_for_the_window(start, front);
        assert(actions.take(actions.len() - 1) =~= front);
        match actions.last() {
            WatchAction::Change(_, paths, kind) => {
                if paths.len() == 0 {
                    assert(with_changes(all_changes(front), paths, kind) == all_changes(front));
                }
            },
            WatchAction::Tick(at) => {
                assert(actions[actions.len() - 1] == actions.last());
            },
        }
    }
}

/// Everything is emitted once: after changes that waited for the window, the
/// first look at the clock that finds the window passed emits all of them in
/// one batch, the only one, and leaves nothing pending.
pub proof fn window_passed_emits_everything(
    start: DebounceModel,
    actions: Seq<WatchAction>,
    at: u64,
)
    requires
        start.pending.len() == 0,
        quiet(start, actions),
        all_changes(actions).len() > 0,
        due(state_after(start, actions), at),
    ensures
        batches_of(start, actions.push(WatchAction::Tick(at))) == seq![all_changes(actions)],
        idle(state_after(start, actions.push(WatchAction::Tick(at)))),
{
    changes_wait_for_the_window(start, actions);
    let whole = actions.push(WatchAction::Tick(at));
    assert(whole.drop_last() =~= actions);
    assert(whole.last() == WatchAction::Tick(at));
    assert(batches_of(start, whole) =~= seq![all_changes(actions)]);
}

} // verus!

//! The watch loop's decision core: a two-state debounce machine. The loop
//! around it (which sleeps, receives notifications and runs renders) feeds
//! every observation through `watch_step` and performs the action it
//! returns, so the coalescing rules live here and are proved: a burst of
//! rapid saves renders exactly once, a deleted file renders not at all,
//! and a run never renders more often than its quiet intervals expire.

use vstd::prelude::*;

verus! {

/// The kind of a filesystem notification, as the watch loop reads it.
#[derive(Clone, Copy, PartialEq, Eq, Structural, Debug)]
pub enum FsEventKind {
    /// The watched file's contents changed.
    Modify,
    /// The watched file was created or recreated.
    Create,
    /// The watched file was removed.
    Remove,
    /// Any other notification (metadata changes and the like).
    Other,
}

/// The watch loop's two states.
#[derive(Clone, Copy, PartialEq, Eq, Structural, Debug)]
pub enum WatchState {
    /// Waiting for a notification.
    Idle,
    /// A change was seen; waiting for the quiet interval to elapse.
    Debouncing,
}

/// One observation fed to the watch loop.
#[derive(Clone, Copy, PartialEq, Eq, Structural, Debug)]
pub enum WatchInput {
    /// A filesystem notification arrived.
    Notification { kind: FsEventKind },
    /// The debounce quiet interval elapsed; the payload says whether the
    /// watched file still existed at that moment.
    QuietElapsed { file_exists: bool },
}

/// What the loop must do after a step.
#[derive(Clone, Copy, PartialEq, Eq, Structural, Debug)]
pub enum WatchAction {
    /// Start, or restart, the quiet-interval timer.
    StartQuiet,
    /// Render the source once.
    Render,
    /// Nothing.
    Nothing,
}

/// Whether a notification kind calls for a re-render.
pub open spec fn spec_qualifies(k: FsEventKind) -> bool {
    k == FsEventKind::Modify || k == FsEventKind::Create
}

/// The machine: a qualifying notification enters (or stays in) the
/// debouncing state and restarts the timer; any other notification changes
/// nothing; an elapsed quiet interval leaves the debouncing state and
/// renders exactly when the file still exists.
pub open spec fn spec_watch_step(s: WatchState, e: WatchInput) -> (WatchState, WatchAction) {
    match e {
        WatchInput::Notification { kind } => {
            if spec_qualifies(kind) {
                (WatchState::Debouncing, WatchAction::StartQuiet)
            } else {
                (s, WatchAction::Nothing)
            }
        },
        WatchInput::QuietElapsed { file_exists } => {
            match s {
                WatchState::Debouncing => {
                    if file_exists {
                        (WatchState::Idle, WatchAction::Render)
                    } else {
                        (WatchState::Idle, WatchAction::Nothing)
                    }
                },
                WatchState::Idle => (WatchState::Idle, WatchAction::Nothing),
            }
        },
    }
}

/// Whether a notification kind calls for a re-render.
pub fn qualifies(k: FsEventKind) -> (r: bool)
    ensures
        r == spec_qualifies(k),
{
    matches!(k, FsEventKind::Modify | FsEventKind::Create)
}

/// One step of the watch loop.
pub fn watch_step(s: WatchState, e: WatchInput) -> (r: (WatchState, WatchAction))
    ensures
        r == spec_watch_step(s, e),
{
    match e {
        WatchInput::Notification { kind } => {
            if qualifies(kind) {
                (WatchState::Debouncing, WatchAction::StartQuiet)
            } else {
                (s, WatchAction::Nothing)
            }
        },
        WatchInput::QuietElapsed { file_exists } => {
            match s {
                WatchState::Debouncing => {
                    if file_exists {
                        (WatchState::Idle, WatchAction::Render)
                    } else {
                        (WatchState::Idle, WatchAction::Nothing)
                    }
                },
                WatchState::Idle => (WatchState::Idle, WatchAction::Nothing),
            }
        },
    }
}

/// The state after feeding `inputs` in order, starting from `s`.
pub open spec fn run_state(s: WatchState, inputs: Seq<WatchInput>) -> WatchState
    decreases inputs.len(),
{
    if inputs.len() == 0 {
        s
    } else {
        spec_watch_step(run_state(s, inputs.drop_last()), inputs.last()).0
    }
}

/// How many renders a run of `inputs` from `s` performs.
pub open spec fn render_count(s: WatchState, inputs: Seq<WatchInput>) -> nat
    decreases inputs.len(),
{
    if inputs.len() == 0 {
        0
    } else {
        render_count(s, inputs.drop_last()) + (if spec_watch_step(
            run_state(s, inputs.drop_last()),
            inputs.last(),
        ).1 == WatchAction::Render {
            1nat
        } else {
            0nat
        })
    }
}

/// How many quiet-interval expiries `inputs` holds.
pub open spec fn quiet_count(inputs: Seq<WatchInput>) -> nat
    decreases inputs.len(),
{
    if inputs.len() == 0 {
        0
    } else {
        quiet_count(inputs.drop_last()) + (if inputs.last() is QuietElapsed {
            1nat
        } else {
            0nat
        })
    }
}

/// A burst: every input is a notification of a qualifying kind.
pub open spec fn qualifying_burst(inputs: Seq<WatchInput>) -> bool {
    forall|i: int|
        0 <= i < inputs.len() ==> ((#[trigger] inputs[i]) matches WatchInput::Notification { kind }
            && spec_qualifies(kind))
}

/// A burst alone renders nothing and leaves the machine debouncing.
proof fn lemma_burst_runs_quiet(s: WatchState, inputs: Seq<WatchInput>)
    requires
        qualifying_burst(inputs),
        inputs.len() >= 1,
    ensures
        run_state(s, inputs) == WatchState::Debouncing,
        render_count(s, inputs) == 0,
    decreases inputs.len(),
{
    assert(inputs.last() == inputs[inputs.len() - 1]);
    assert(inputs[inputs.len() - 1] matches WatchInput::Notification { kind }
        && spec_qualifies(kind));
    if inputs.len() > 1 {
        assert(qualifying_burst(inputs.drop_last()));
        lemma_burst_runs_quiet(s, inputs.drop_last());
    } else {
        assert(inputs.drop_last().len() == 0);
        assert(render_count(s, inputs.drop_last()) == 0);
        assert(run_state(s, inputs.drop_last()) == s);
    }
}

/// Law: a burst of qualifying notifications followed by one quiet
/// interval with the file still present renders exactly once, and the
/// loop returns to idle.
pub proof fn lemma_burst_renders_once(burst: Seq<WatchInput>)
    requires
        qualifying_burst(burst),
        burst.len() >= 1,
    ensures
        ({
            let inputs = burst.push(WatchInput::QuietElapsed { file_exists: true });
            render_count(WatchState::Idle, inputs) == 1 && run_state(WatchState::Idle, inputs)
                == WatchState::Idle
        }),
{
    lemma_burst_runs_quiet(WatchState::Idle, burst);
    let inputs = burst.push(WatchInput::QuietElapsed { file_exists: true });
    assert(inputs.drop_last() =~= burst);
}

/// Law: when the watched file is gone as the quiet interval elapses, a
/// burst renders nothing at all, and the loop returns to idle.
pub proof fn lemma_deleted_file_no_render(burst: Seq<WatchInput>)
    requires
        qualifying_burst(burst),
        burst.len() >= 1,
    ensures
        ({
            let inputs = burst.push(WatchInput::QuietElapsed { file_exists: false });
            render_count(WatchState::Idle, inputs) == 0 && run_state(WatchState::Idle, inputs)
                == WatchState::Idle
        }),
{
    lemma_burst_runs_quiet(WatchState::Idle, burst);
    let inputs = burst.push(WatchInput::QuietElapsed { file_exists: false });
    assert(inputs.drop_last() =~= burst);
}

/// Law: renders happen only when a quiet interval expires, so a run never
/// performs more renders than it saw quiet expiries.
pub proof fn lemma_renders_bounded_by_quiets(s: WatchState, inputs: Seq<WatchInput>)
    ensures
        render_count(s, inputs) <= quiet_count(inputs),
    decreases inputs.len(),
{
    if inputs.len() > 0 {
        lemma_renders_bounded_by_quiets(s, inputs.drop_last());
    }
}

} // verus!

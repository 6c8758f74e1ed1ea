use mdpreview::serve::{document_response, status_response};
use mdpreview::status::StatusRecord;
use mdpreview::watch::{watch_step, FsEventKind, WatchAction, WatchInput, WatchState};

#[test]
fn qualifying_notification_starts_debouncing() {
    let (s, a) = watch_step(
        WatchState::Idle,
        WatchInput::Notification { kind: FsEventKind::Modify },
    );
    assert_eq!(s, WatchState::Debouncing);
    assert_eq!(a, WatchAction::StartQuiet);
    let (s, a) = watch_step(
        WatchState::Idle,
        WatchInput::Notification { kind: FsEventKind::Create },
    );
    assert_eq!(s, WatchState::Debouncing);
    assert_eq!(a, WatchAction::StartQuiet);
}

#[test]
fn other_notifications_change_nothing() {
    for kind in [FsEventKind::Remove, FsEventKind::Other] {
        let (s, a) = watch_step(WatchState::Idle, WatchInput::Notification { kind });
        assert_eq!(s, WatchState::Idle);
        assert_eq!(a, WatchAction::Nothing);
        let (s, a) = watch_step(WatchState::Debouncing, WatchInput::Notification { kind });
        assert_eq!(s, WatchState::Debouncing);
        assert_eq!(a, WatchAction::Nothing);
    }
}

#[test]
fn burst_of_saves_renders_exactly_once() {
    let mut state = WatchState::Idle;
    let mut renders = 0;
    for _ in 0..5 {
        let (next, action) = watch_step(
            state,
            WatchInput::Notification { kind: FsEventKind::Modify },
        );
        state = next;
        if action == WatchAction::Render {
            renders += 1;
        }
    }
    let (next, action) = watch_step(state, WatchInput::QuietElapsed { file_exists: true });
    state = next;
    if action == WatchAction::Render {
        renders += 1;
    }
    assert_eq!(renders, 1);
    assert_eq!(state, WatchState::Idle);
}

#[test]
fn deleted_file_skips_the_render() {
    let (state, action) = watch_step(
        WatchState::Idle,
        WatchInput::Notification { kind: FsEventKind::Modify },
    );
    assert_eq!(action, WatchAction::StartQuiet);
    let (state, action) = watch_step(state, WatchInput::QuietElapsed { file_exists: false });
    assert_eq!(action, WatchAction::Nothing);
    assert_eq!(state, WatchState::Idle);
}

#[test]
fn quiet_interval_while_idle_does_nothing() {
    let (state, action) = watch_step(WatchState::Idle, WatchInput::QuietElapsed {
        file_exists: true,
    });
    assert_eq!(state, WatchState::Idle);
    assert_eq!(action, WatchAction::Nothing);
}

#[test]
fn document_route_serves_content_or_placeholder() {
    assert_eq!(
        document_response(Some(String::from("<h1>ok</h1>"))),
        "<h1>ok</h1>",
    );
    assert_eq!(document_response(None), "Error loading file");
}

#[test]
fn status_route_parses_or_falls_back_to_zero() {
    assert_eq!(
        status_response(Some("{\"timestamp\":1700000000123}")),
        StatusRecord { timestamp: 1700000000123 },
    );
    assert_eq!(
        status_response(Some("{ \"timestamp\": 7 }")),
        StatusRecord { timestamp: 7 },
    );
    assert_eq!(status_response(Some("not json")), StatusRecord { timestamp: 0 });
    assert_eq!(status_response(None), StatusRecord { timestamp: 0 });
}

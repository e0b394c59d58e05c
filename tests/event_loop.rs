use swayautonames::event_loop::{step, LoopAction, LoopEvent, LoopState, WindowChange};

#[test]
fn subscription_outcomes() {
    assert_eq!(
        step(LoopState::Idle, LoopEvent::SubscribeSucceeded),
        (LoopState::Subscribed, LoopAction::Nothing)
    );
    assert_eq!(
        step(LoopState::Idle, LoopEvent::SubscribeFailed),
        (LoopState::Stopped, LoopAction::Abort)
    );
}

#[test]
fn window_events_trigger_one_pass() {
    for c in [
        WindowChange::Created,
        WindowChange::Closed,
        WindowChange::Moved,
        WindowChange::FullscreenToggled,
    ] {
        assert_eq!(
            step(LoopState::Subscribed, LoopEvent::Window(c)),
            (LoopState::ReconcilingAll, LoopAction::Reconcile)
        );
    }
    assert_eq!(
        step(LoopState::Subscribed, LoopEvent::Window(WindowChange::Other)),
        (LoopState::Subscribed, LoopAction::Nothing)
    );
    assert_eq!(
        step(LoopState::Subscribed, LoopEvent::NonWindow),
        (LoopState::Subscribed, LoopAction::Nothing)
    );
    assert_eq!(
        step(LoopState::ReconcilingAll, LoopEvent::Window(WindowChange::Created)),
        (LoopState::ReconcilingAll, LoopAction::Nothing)
    );
    assert_eq!(
        step(LoopState::ReconcilingAll, LoopEvent::PassFinished),
        (LoopState::Subscribed, LoopAction::Nothing)
    );
}

#[test]
fn stream_end_and_errors() {
    assert_eq!(
        step(LoopState::Subscribed, LoopEvent::Unreadable),
        (LoopState::Subscribed, LoopAction::Report)
    );
    assert_eq!(
        step(LoopState::Subscribed, LoopEvent::StreamEnded),
        (LoopState::Stopped, LoopAction::Exit)
    );
    assert_eq!(
        step(LoopState::ReconcilingAll, LoopEvent::TransportFailed),
        (LoopState::Stopped, LoopAction::Exit)
    );
    assert_eq!(
        step(LoopState::Stopped, LoopEvent::Window(WindowChange::Created)),
        (LoopState::Stopped, LoopAction::Nothing)
    );
}

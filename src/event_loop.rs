use vstd::prelude::*;

verus! {

/// Where a backend's event loop stands.
#[derive(PartialEq, Eq, Structural, Clone, Copy, Debug)]
pub enum LoopState {
    Idle,
    Subscribed,
    ReconcilingAll,
    Stopped,
}

/// Kind of a window lifecycle event.
#[derive(PartialEq, Eq, Structural, Clone, Copy, Debug)]
pub enum WindowChange {
    Created,
    Closed,
    Moved,
    FullscreenToggled,
    Other,
}

/// What the backend, or the pass the loop asked for, reported.
#[derive(PartialEq, Eq, Structural, Clone, Copy, Debug)]
pub enum LoopEvent {
    SubscribeSucceeded,
    SubscribeFailed,
    Window(WindowChange),
    /// An event of another kind than a window event.
    NonWindow,
    /// An event that could not be read; the stream goes on.
    Unreadable,
    /// The reconciliation pass that was asked for is done.
    PassFinished,
    /// The event stream ended.
    StreamEnded,
    /// The connection to the backend broke.
    TransportFailed,
}

/// What the loop asks its driver to do next.
#[derive(PartialEq, Eq, Structural, Clone, Copy, Debug)]
pub enum LoopAction {
    Nothing,
    /// Rebuild the inventory with the configuration in force, then reconcile.
    Reconcile,
    /// Log the event that could not be read and go on.
    Report,
    /// Subscribing failed: the backend's task cannot make progress.
    Abort,
    /// The stream is over: leave the loop.
    Exit,
}

/// Window events that change what a workspace holds or shows.
pub open spec fn triggers_pass(c: WindowChange) -> bool {
    !(c is Other)
}

/// The transition table of a backend's event loop: the next state and the
/// action asked of the driver.
pub open spec fn step_of(state: LoopState, event: LoopEvent) -> (LoopState, LoopAction) {
    match state {
        LoopState::Stopped => (LoopState::Stopped, LoopAction::Nothing),
        LoopState::Idle => match event {
            LoopEvent::SubscribeSucceeded => (LoopState::Subscribed, LoopAction::Nothing),
            LoopEvent::SubscribeFailed => (LoopState::Stopped, LoopAction::Abort),
            _ => (LoopState::Idle, LoopAction::Nothing),
        },
        LoopState::Subscribed => match event {
            LoopEvent::Window(c) => if triggers_pass(c) {
                (LoopState::ReconcilingAll, LoopAction::Reconcile)
            } else {
                (LoopState::Subscribed, LoopAction::Nothing)
            },
            LoopEvent::Unreadable => (LoopState::Subscribed, LoopAction::Report),
            LoopEvent::StreamEnded => (LoopState::Stopped, LoopAction::Exit),
            LoopEvent::TransportFailed => (LoopState::Stopped, LoopAction::Exit),
            _ => (LoopState::Subscribed, LoopAction::Nothing),
        },
        LoopState::ReconcilingAll => match event {
            LoopEvent::PassFinished => (LoopState::Subscribed, LoopAction::Nothing),
            LoopEvent::StreamEnded => (LoopState::Stopped, LoopAction::Exit),
            LoopEvent::TransportFailed => (LoopState::Stopped, LoopAction::Exit),
            _ => (LoopState::ReconcilingAll, LoopAction::Nothing),
        },
    }
}

/// One transition of a backend's event loop.
pub fn step(state: LoopState, event: LoopEvent) -> (r: (LoopState, LoopAction))
    ensures
        r == step_of(state, event),
{
    match state {
        LoopState::Stopped => (LoopState::Stopped, LoopAction::Nothing),
        LoopState::Idle => match event {
            LoopEvent::SubscribeSucceeded => (LoopState::Subscribed, LoopAction::Nothing),
            LoopEvent::SubscribeFailed => (LoopState::Stopped, LoopAction::Abort),
            _ => (LoopState::Idle, LoopAction::Nothing),
        },
        LoopState::Subscribed => match event {
            LoopEvent::Window(c) => match c {
                WindowChange::Other => (LoopState::Subscribed, LoopAction::Nothing),
                _ => (LoopState::ReconcilingAll, LoopAction::Reconcile),
            },
            LoopEvent::Unreadable => (LoopState::Subscribed, LoopAction::Report),
            LoopEvent::StreamEnded | LoopEvent::TransportFailed => (
                LoopState::Stopped,
                LoopAction::Exit,
            ),
            _ => (LoopState::Subscribed, LoopAction::Nothing),
        },
        LoopState::ReconcilingAll => match event {
            LoopEvent::PassFinished => (LoopState::Subscribed, LoopAction::Nothing),
            LoopEvent::StreamEnded | LoopEvent::TransportFailed => (
                LoopState::Stopped,
                LoopAction::Exit,
            ),
            _ => (LoopState::ReconcilingAll, LoopAction::Nothing),
        },
    }
}

/// A pass is asked for only from a live loop, only on a window event that
/// changes what a workspace holds or shows, and never while another pass of
/// the same loop is under way.
pub proof fn lemma_one_pass_at_a_time(state: LoopState, event: LoopEvent, next: LoopState, action: LoopAction)
    requires
        (next, action) == step_of(state, event),
    ensures
        action is Reconcile ==> state is Subscribed && next is ReconcilingAll,
        action is Reconcile ==> (event matches LoopEvent::Window(c) && triggers_pass(c)),
        state is ReconcilingAll ==> !(action is Reconcile),
        state is Stopped ==> next is Stopped && action is Nothing,
{
}

} // verus!

//! Where a cancellation is sent when an operation of a workflow is found
//! broken.

use vstd::prelude::*;

verus! {

/// The operation to cancel, and the session to cancel for it (`None` cancels
/// every session of the target).
#[derive(Debug, Clone, Copy, PartialEq, Eq, Structural)]
pub struct CancelTarget {
    pub target: u64,
    pub session: Option<u64>,
}

/// A broken operation could leave a reply hanging forever, so its scope or
/// series is cancelled. An operation inside a scope cancels the whole scope
/// (every session, since it is unknown which are affected); one inside a
/// series cancels the series; one in neither may be a scope or series
/// itself and is cancelled directly.
pub fn broken_cancel_target(broken: u64, in_scope: Option<u64>, in_series: Option<u64>) -> (r:
    CancelTarget)
    ensures
        r == match in_scope {
            Some(scope) => CancelTarget { target: scope, session: None },
            None => match in_series {
                Some(series) => CancelTarget { target: series, session: Some(series) },
                None => CancelTarget { target: broken, session: Some(broken) },
            },
        },
{
    if let Some(scope) = in_scope {
        CancelTarget { target: scope, session: None }
    } else if let Some(series) = in_series {
        CancelTarget { target: series, session: Some(series) }
    } else {
        CancelTarget { target: broken, session: Some(broken) }
    }
}

/// What happened while waiting for buffers to become ready.
#[derive(Debug, Clone, Copy, PartialEq, Eq, Structural)]
pub enum WaitEvent {
    /// The callback was run against the world; `true` when it produced the
    /// value to reply with.
    Evaluated(bool),
    /// The buffers being watched changed.
    Changed,
    /// The receiver of the reply was dropped.
    ReceiverClosed,
}

/// What to do next while waiting for buffers to become ready.
#[derive(Debug, Clone, Copy, PartialEq, Eq, Structural)]
pub enum WaitAction {
    /// Send the value to the reply and stop.
    Deliver,
    /// Record what the watcher has seen and wait for a change.
    RecordSeenAndWait,
    /// Run the callback against the world again.
    EvaluateAgain,
    /// Stop waiting without replying.
    Stop,
}

/// The next step of waiting for buffers: a value is delivered as soon as the
/// callback produces one; only a change in the buffers makes the callback run
/// again; a dropped receiver ends the wait unless the reply was detached, in
/// which case the wait goes on until the buffers change.
pub fn wait_for_step(detached: bool, event: WaitEvent) -> (a: WaitAction)
    ensures
        a == match event {
            WaitEvent::Evaluated(ready) => if ready {
                WaitAction::Deliver
            } else {
                WaitAction::RecordSeenAndWait
            },
            WaitEvent::Changed => WaitAction::EvaluateAgain,
            WaitEvent::ReceiverClosed => if detached {
                WaitAction::RecordSeenAndWait
            } else {
                WaitAction::Stop
            },
        },
{
    match event {
        WaitEvent::Evaluated(ready) => {
            if ready {
                WaitAction::Deliver
            } else {
                WaitAction::RecordSeenAndWait
            }
        },
        WaitEvent::Changed => WaitAction::EvaluateAgain,
        WaitEvent::ReceiverClosed => {
            if detached {
                WaitAction::RecordSeenAndWait
            } else {
                WaitAction::Stop
            }
        },
    }
}

} // verus!

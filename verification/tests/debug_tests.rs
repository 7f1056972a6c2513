use crossflow::debug::DebugRoster;
use crossflow::request::RequestId;

#[test]
fn breakpoints_pause_debug_sessions() {
    let mut d = crossflow::debug::Debug::new();
    assert!(!d.is_active());
    d.breakpoints.insert(100);
    d.debug_sessions.insert(1);
    assert!(d.is_active());
    // Session 3 descends from 2, which descends from 1.
    let lineage = vec![3, 2, 1];
    assert!(!d.is_paused(&lineage));
    d.evaluate_break(&lineage, 50);
    assert!(!d.is_paused(&lineage));
    d.evaluate_break(&lineage, 100);
    assert!(d.paused_sessions.contains(&1));
    assert!(d.is_paused(&lineage));
    assert!(!d.is_paused(&vec![9]));
    d.deactivate();
    assert!(d.paused_sessions.is_empty());
    assert!(d.debug_sessions.is_empty());
    assert!(d.breakpoints.contains(&100));
    assert!(!d.is_active());
}

#[test]
fn breakpoint_outside_debug_session_does_nothing() {
    let mut d = crossflow::debug::Debug::new();
    d.breakpoints.insert(100);
    d.debug_sessions.insert(1);
    d.evaluate_break(&vec![5], 100);
    assert!(d.paused_sessions.is_empty());
}

#[test]
fn roster_lets_a_stepped_request_through_once() {
    let mut r = DebugRoster::new();
    let a = RequestId { session: 1, source: 10 };
    let b = RequestId { session: 2, source: 20 };
    assert!(!r.is_allowed(a));
    assert!(!r.is_allowed(a));
    assert!(!r.is_allowed(b));
    // Step by operation.
    // An operation is only stepped within the stepped session.
    assert_eq!(r.pop_next_in_session(Some(20), &vec![false, false]), None);
    assert_eq!(r.pop_next_in_session(Some(20), &vec![true, true]), Some(b));
    assert!(r.is_allowed(b));
    assert!(!r.is_allowed(b));
    // Step by session: only request `a` remains held back besides `b`.
    assert_eq!(r.pop_next_in_session(None, &vec![true, false]), Some(a));
    assert!(r.is_allowed(a));
    assert_eq!(r.pop_next_in_session(None, &vec![false]), None);
}

#[test]
fn roster_releases_unpaused() {
    let mut r = DebugRoster::new();
    let a = RequestId { session: 1, source: 10 };
    let b = RequestId { session: 2, source: 20 };
    let c = RequestId { session: 3, source: 30 };
    r.is_allowed(a);
    r.is_allowed(b);
    r.is_allowed(c);
    let released = r.release_unpaused(&vec![true, false, false]);
    assert_eq!(released, vec![b, c]);
    assert_eq!(r.release_unpaused(&vec![false]), vec![a]);
}

#[test]
fn deactivated_debugging_never_pauses() {
    let mut d = crossflow::debug::Debug::new();
    d.breakpoints.insert(100);
    d.debug_sessions.insert(1);
    d.evaluate_break(&vec![2, 1], 100);
    assert!(d.is_paused(&vec![2, 1]));
    d.deactivate();
    d.evaluate_break(&vec![2, 1], 100);
    assert!(!d.is_paused(&vec![2, 1]));
    assert!(d.paused_sessions.is_empty());
}

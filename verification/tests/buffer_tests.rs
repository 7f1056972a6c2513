use crossflow::any_range::{AnyRange, Bound, deref_bound};
use crossflow::buffer_storage::{
    BufferEntry, BufferSettings, BufferStorage, FetchBehavior, RetentionPolicy, BMut,
    get_message_ref,
};
use crossflow::input::{route_delivers, route_input, InputRoute, InputStorage, SessionState};

fn storage(policy: RetentionPolicy) -> (BufferStorage<usize>, InputStorage<usize>) {
    let mut s = BufferStorage::new(BufferSettings::new(policy));
    s.ensure_session(7);
    (s, InputStorage::new())
}

fn contents(s: &BufferStorage<usize>, session: u64) -> Vec<usize> {
    s.iter(session).into_iter().copied().collect()
}

#[test]
fn test_any_count() {
    let (mut s, mut input) = storage(RetentionPolicy::KeepAll);
    for _ in 0..5 {
        assert_eq!(s.push(&mut input, 7, 1), None);
    }
    assert_eq!(s.count(7), 5);
}

/// Push `value` five times into session 7, then multiply each message by
/// its position.
fn push_then_scale(s: &mut BufferStorage<usize>, input: &mut InputStorage<usize>, value: usize) {
    for _ in 0..5 {
        s.push(input, 7, value);
    }
    for i in 0..s.count(7) {
        if let Some(mut entry) = s.get_mut(7, i) {
            *entry.get_mut() *= i;
        }
    }
}

#[test]
fn test_modify_any_message() {
    let (mut s, mut input) = storage(RetentionPolicy::KeepAll);
    push_then_scale(&mut s, &mut input, 3);
    let mut values = Vec::new();
    while let Some(v) = s.pull(7) {
        values.push(v);
    }
    assert_eq!(values, vec![0, 3, 6, 9, 12]);
}

#[test]
fn test_drain_any_message() {
    let (mut s, mut input) = storage(RetentionPolicy::KeepAll);
    push_then_scale(&mut s, &mut input, 3);
    let all = AnyRange::new(Bound::Unbounded, Bound::Unbounded);
    assert_eq!(s.drain(7, &all), vec![0, 3, 6, 9, 12]);
    assert_eq!(s.count(7), 0);
}

#[test]
fn test_modify_then_pull_in_order() {
    let (mut s, mut input) = storage(RetentionPolicy::KeepAll);
    for i in 0..5 {
        s.push(&mut input, 7, i);
    }
    let mut values = Vec::new();
    while let Some(v) = s.pull(7) {
        values.push(v);
    }
    assert_eq!(values, vec![0, 1, 2, 3, 4]);
}

#[test]
fn push_into_untracked_session_hands_message_back() {
    let (mut s, mut input) = storage(RetentionPolicy::KeepAll);
    assert_eq!(s.push(&mut input, 99, 5), Some(5));
    assert!(!s.contains_session(99));
    assert_eq!(s.push_as_oldest(&mut input, 99, 6), Some(6));
    assert_eq!(s.pull(99), None);
    assert_eq!(s.pull_newest(99), None);
    let mut probe = InputStorage::<usize>::new();
    assert_eq!(probe.increment_seq(), 0);
    assert_eq!(input.increment_seq(), 0);
}

#[test]
fn force_push_creates_session() {
    let (mut s, mut input) = storage(RetentionPolicy::KeepAll);
    assert_eq!(s.force_push(&mut input, 99, 5), None);
    assert!(s.contains_session(99));
    assert_eq!(s.oldest(99), Some(&5));
}

#[test]
fn keep_last_drops_oldest() {
    let (mut s, mut input) = storage(RetentionPolicy::KeepLast(2));
    assert_eq!(s.push(&mut input, 7, 1), None);
    assert_eq!(s.push(&mut input, 7, 2), None);
    assert_eq!(s.push(&mut input, 7, 3), Some(1));
    assert_eq!(contents(&s, 7), vec![2, 3]);
    assert_eq!(s.newest(7), Some(&3));
    assert_eq!(s.oldest(7), Some(&2));
}

#[test]
fn keep_last_zero_keeps_nothing() {
    let (mut s, mut input) = storage(RetentionPolicy::KeepLast(0));
    assert_eq!(s.push(&mut input, 7, 1), Some(1));
    assert_eq!(s.count(7), 0);
}

#[test]
fn keep_first_refuses_newcomers() {
    let (mut s, mut input) = storage(RetentionPolicy::KeepFirst(2));
    assert_eq!(s.push(&mut input, 7, 1), None);
    assert_eq!(s.push(&mut input, 7, 2), None);
    assert_eq!(s.push(&mut input, 7, 3), Some(3));
    assert_eq!(contents(&s, 7), vec![1, 2]);
}

#[test]
fn push_as_oldest_under_each_policy() {
    let (mut s, mut input) = storage(RetentionPolicy::KeepFirst(2));
    s.push(&mut input, 7, 1);
    s.push(&mut input, 7, 2);
    // Full: the newest leaves to make room at the front.
    assert_eq!(s.push_as_oldest(&mut input, 7, 0), Some(2));
    assert_eq!(contents(&s, 7), vec![0, 1]);

    let (mut s, mut input) = storage(RetentionPolicy::KeepLast(2));
    s.push(&mut input, 7, 1);
    s.push(&mut input, 7, 2);
    // Full: the would-be oldest is handed back.
    assert_eq!(s.push_as_oldest(&mut input, 7, 0), Some(0));
    assert_eq!(contents(&s, 7), vec![1, 2]);

    let (mut s, mut input) = storage(RetentionPolicy::KeepAll);
    s.push(&mut input, 7, 1);
    assert_eq!(s.push_as_oldest(&mut input, 7, 0), None);
    assert_eq!(contents(&s, 7), vec![0, 1]);
    assert_eq!(s.pull(7), Some(0));
}

#[test]
fn push_as_oldest_keep_first_zero_still_stores() {
    let (mut s, mut input) = storage(RetentionPolicy::KeepFirst(0));
    assert_eq!(s.push_as_oldest(&mut input, 7, 4), None);
    assert_eq!(s.count(7), 1);
}

#[test]
fn pull_newest_undoes_push() {
    let (mut s, mut input) = storage(RetentionPolicy::KeepAll);
    s.push(&mut input, 7, 1);
    s.push(&mut input, 7, 2);
    assert_eq!(s.pull_newest(7), Some(2));
    assert_eq!(contents(&s, 7), vec![1]);
}

#[test]
fn get_counts_from_oldest() {
    let (mut s, mut input) = storage(RetentionPolicy::KeepAll);
    for i in 10..13 {
        s.push(&mut input, 7, i);
    }
    assert_eq!(s.get(7, 0), Some(&10));
    assert_eq!(s.get(7, 2), Some(&12));
    assert_eq!(s.get(7, 3), None);
    assert_eq!(s.get(8, 0), None);
}

#[test]
fn drain_range_counts_from_newest() {
    let (mut s, mut input) = storage(RetentionPolicy::KeepAll);
    for i in 0..5 {
        s.push(&mut input, 7, i);
    }
    // Positions 0 and 1 of the newest-first queue are the two newest entries.
    let two = 2usize;
    let r = AnyRange::new(Bound::Unbounded, Bound::Excluded(&two));
    assert_eq!(s.drain(7, &r), vec![3, 4]);
    assert_eq!(contents(&s, 7), vec![0, 1, 2]);
    let nothing = AnyRange::new(Bound::Unbounded, Bound::Unbounded);
    assert_eq!(s.drain(99, &nothing), Vec::<usize>::new());
}

#[test]
fn sessions_are_independent() {
    let (mut s, mut input) = storage(RetentionPolicy::KeepAll);
    s.ensure_session(8);
    s.push(&mut input, 7, 1);
    s.push(&mut input, 8, 2);
    assert_eq!(contents(&s, 7), vec![1]);
    assert_eq!(contents(&s, 8), vec![2]);
    let mut sessions = s.active_sessions();
    sessions.sort();
    assert_eq!(sessions, vec![7, 8]);
    s.remove_session(7);
    assert_eq!(s.count(7), 0);
    assert!(!s.contains_session(7));
    assert_eq!(s.active_sessions(), vec![8]);
}

#[test]
fn sequence_numbers_advance_and_wrap() {
    let mut input = InputStorage::<usize>::new();
    assert_eq!(input.push(1, 10), 0);
    assert_eq!(input.push(2, 20), 1);
    assert_eq!(input.increment_seq(), 2);
    assert!(input.contains_session(1));
    assert!(!input.contains_session(3));
    let first = input.try_take_input().unwrap();
    assert_eq!((first.session, first.seq, first.data), (1, 0, 10));
}

#[test]
fn cleanup_moves_session_inputs_into_buffer() {
    let (mut s, _) = storage(RetentionPolicy::KeepAll);
    let mut input = InputStorage::<usize>::new();
    input.push(7, 1);
    input.push(8, 2);
    input.push(7, 3);
    s.cleanup_inputs(&mut input, 7);
    // The newest input is moved first.
    assert_eq!(contents(&s, 7), vec![3, 1]);
    assert!(input.contains_session(8));
    assert!(!input.contains_session(7));
    input.remove_session(8);
    assert!(input.try_take_input().is_none());
}

#[test]
fn range_contains() {
    let three = 3usize;
    let five = 5usize;
    let r = AnyRange::new(Bound::Excluded(&three), Bound::Included(&five));
    assert!(!r.contains(3));
    assert!(r.contains(4));
    assert!(r.contains(5));
    assert!(!r.contains(6));
    assert_eq!(r.indices(10), (4, 6));
    assert_eq!(deref_bound(Bound::Included(&three)), Bound::Included(3));
    assert_eq!(deref_bound(Bound::Unbounded), Bound::Unbounded);
    let all = AnyRange::new(Bound::Unbounded, Bound::Unbounded);
    assert!(all.contains(usize::MAX));
}

#[test]
fn entry_access() {
    let mut e = BufferEntry::new(4, 10usize);
    assert_eq!(*get_message_ref(&e), 10);
    {
        let mut b = BMut { entry: &mut e, tracing: false };
        assert_eq!(*b.get(), 10);
        *b.get_mut() = 11;
    }
    assert_eq!(e.message, 11);
    assert_eq!(e.seq, 4);
    assert_eq!(e.original, None);
    assert_eq!(FetchBehavior::default(), FetchBehavior::Pull);
    assert_eq!(BufferSettings::new(RetentionPolicy::KeepLast(3)).retention(), RetentionPolicy::KeepLast(3));
}

#[test]
fn traced_access_keeps_first_original() {
    let mut e = BufferEntry::new(1, 10usize);
    {
        let mut b = BMut { entry: &mut e, tracing: true };
        *b.get_mut() = 11;
        *b.get_mut() = 12;
    }
    {
        let mut b = BMut { entry: &mut e, tracing: true };
        *b.get_mut() += 1;
    }
    assert_eq!(e.message, 13);
    assert_eq!(e.original, Some(10));

    let (mut s, mut input) = storage(RetentionPolicy::KeepAll);
    s.set_tracing(true);
    assert!(s.is_tracing());
    s.push(&mut input, 7, 5);
    *s.newest_mut(7).unwrap().get_mut() = 6;
    *s.oldest_mut(7).unwrap().get_mut() = 7;
    assert_eq!(contents(&s, 7), vec![7]);
    assert!(s.get_mut(7, 0).unwrap().tracing);
}

#[test]
fn mutable_access_to_entries() {
    let (mut s, mut input) = storage(RetentionPolicy::KeepAll);
    for i in 0..3 {
        s.push(&mut input, 7, i);
    }
    *s.newest_mut(7).unwrap().get_mut() = 20;
    *s.oldest_mut(7).unwrap().get_mut() = 10;
    *s.get_mut(7, 1).unwrap().get_mut() += 100;
    assert_eq!(contents(&s, 7), vec![10, 101, 20]);
    assert!(s.get_mut(7, 3).is_none());
    assert!(s.newest_mut(8).is_none());
    assert!(s.oldest_mut(8).is_none());
    assert_eq!(*s.get_mut(7, 0).unwrap().get(), 10);
}

#[test]
fn newest_mut_or_else_fills_an_empty_queue() {
    let (mut s, mut input) = storage(RetentionPolicy::KeepAll);
    // Not tracked: nothing is made.
    assert!(s.newest_mut_or_else(&mut input, 8, || 5).is_none());
    assert_eq!(s.count(8), 0);
    // Tracked and empty: the made message is pushed.
    {
        let mut b = s.newest_mut_or_else(&mut input, 7, || 5).unwrap();
        assert_eq!(*b.get(), 5);
        *b.get_mut() = 6;
    }
    assert_eq!(contents(&s, 7), vec![6]);
    // Not empty: the newest is given, nothing is made.
    s.push(&mut input, 7, 9);
    assert_eq!(*s.newest_mut_or_else(&mut input, 7, || 1).unwrap().get(), 9);
    assert_eq!(contents(&s, 7), vec![6, 9]);

    // A buffer that keeps nothing drops the made message.
    let (mut z, mut zinput) = storage(RetentionPolicy::KeepLast(0));
    assert!(z.newest_mut_or_else(&mut zinput, 7, || 5).is_none());
    assert_eq!(z.count(7), 0);
}

#[test]
fn input_routing() {
    let running = SessionState::Running { active: true };
    assert_eq!(route_input(true, SessionState::Missing, true, false, false), InputRoute::Skip);
    assert_eq!(route_input(true, SessionState::Running { active: false }, true, false, false), InputRoute::Skip);
    assert_eq!(route_input(true, SessionState::Dropped { stops_here: true }, true, false, false), InputRoute::CancelSeries);
    assert_eq!(route_input(true, SessionState::Dropped { stops_here: false }, true, false, false), InputRoute::Push);
    assert_eq!(route_input(false, SessionState::Missing, true, false, false), InputRoute::Push);
    assert_eq!(route_input(true, running, false, true, true), InputRoute::Ignore);
    assert_eq!(route_input(true, running, false, false, true), InputRoute::DespawnSession);
    assert_eq!(route_input(true, running, false, false, false), InputRoute::Broken);
    assert!(route_delivers(InputRoute::Push) && route_delivers(InputRoute::Ignore));
    assert!(!route_delivers(InputRoute::Skip) && !route_delivers(InputRoute::Broken));
}

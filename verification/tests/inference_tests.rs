use crossflow::accessor::{is_disjoint, join_results, AccessError, BufferInstanceId};
use crossflow::inference::{find_circular_redirect, Dependents, InferenceState};
use std::collections::HashMap;

#[test]
fn circular_redirects_are_found() {
    let mut m = HashMap::new();
    m.insert(1u64, 2u64);
    m.insert(2, 3);
    assert!(find_circular_redirect(&m).is_none());
    m.insert(3, 1);
    let path = find_circular_redirect(&m).unwrap();
    assert!(path.len() >= 2);
    let last = *path.last().unwrap();
    assert!(path[..path.len() - 1].contains(&last));
    for w in path.windows(2) {
        assert_eq!(m[&w[0]], w[1]);
    }
    let mut self_loop = HashMap::new();
    self_loop.insert(5u64, 5u64);
    assert_eq!(find_circular_redirect(&self_loop), Some(vec![5, 5]));
}

#[test]
fn dependents_invert_dependencies() {
    let d = Dependents::new(&vec![(10, vec![1, 2]), (11, vec![2])]);
    assert_eq!(d.get(1), vec![10]);
    let mut two = d.get(2);
    two.sort();
    assert_eq!(two, vec![10, 11]);
    assert!(d.get(3).is_empty());
}

#[test]
fn inference_queue_propagates() {
    let mut s = InferenceState::new(&vec![1, 2, 3]);
    s.fixed(1, 7);
    assert_eq!(s.next_port(), Some(1));
    // Port 1 keeps its type: nothing is queued again.
    assert!(!s.apply_evaluation(1, Some(7), &vec![2]));
    assert_eq!(s.next_port(), Some(2));
    assert!(s.apply_evaluation(2, Some(7), &vec![3, 1]));
    assert_eq!(s.message_type(2), Some(7));
    // 3 was still queued, 1 is queued again at the back.
    assert_eq!(s.next_port(), Some(3));
    assert!(!s.apply_evaluation(3, None, &vec![]));
    assert_eq!(s.next_port(), Some(1));
    assert_eq!(s.next_port(), None);
    assert_eq!(s.try_infer_types(&vec![1, 2, 3]), Err(3));
    s.fixed(3, 9);
    let types = s.try_infer_types(&vec![1, 2, 3]).unwrap();
    assert_eq!(types[&3], 9);
    assert_eq!(types.len(), 3);
}

#[test]
fn disjoint_accessors() {
    let a = BufferInstanceId { buffer: 1, session: 1 };
    let b = BufferInstanceId { buffer: 1, session: 2 };
    assert!(is_disjoint(&vec![a, b]).is_ok());
    let err = is_disjoint(&vec![a, b, a, a]).unwrap_err();
    assert_eq!(err.duplicates, vec![(a, 3)]);
}

#[test]
fn access_errors_from_list() {
    assert!(AccessError::<u8>::from_list(vec![]).is_ok());
    assert!(matches!(AccessError::from_list(vec![AccessError::Inaccessible(4u8)]), Err(AccessError::Inaccessible(4))));
    match AccessError::from_list(vec![AccessError::Inaccessible(1u8), AccessError::Inaccessible(2u8)]) {
        Err(AccessError::Multiple(list)) => assert_eq!(list.len(), 2),
        _ => panic!("expected multiple errors"),
    }
    let overlap = is_disjoint(&vec![BufferInstanceId { buffer: 1, session: 1 }; 2]).unwrap_err();
    assert!(matches!(AccessError::<u8>::from_list(vec![AccessError::NotDisjoint(overlap)]), Err(AccessError::NotDisjoint(_))));
}

#[test]
fn joining_results() {
    let r = join_results::<u32, u8>(vec![Ok(Some(1)), Ok(Some(2))]);
    assert!(matches!(r, Ok(Some(v)) if v == vec![1, 2]));
    let r = join_results::<u32, u8>(vec![Ok(Some(1)), Err(AccessError::Inaccessible(3)), Ok(None)]);
    assert!(matches!(r, Ok(None)));
    let r = join_results::<u32, u8>(vec![Ok(Some(1)), Err(AccessError::Inaccessible(3))]);
    assert!(matches!(r, Err(AccessError::Inaccessible(3))));
}

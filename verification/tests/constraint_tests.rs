use crossflow::constraints::{
    ConstraintContext, InferenceError, Inferences, MessageOperations, MessageRegistrations,
};
use crossflow::evaluation::Constraint;
use crossflow::gathering::PortNames;
use crossflow::inference::{Dependents, InferenceState};
use crossflow::solving::inference_step;
use std::collections::{HashMap, HashSet};

fn plain() -> MessageOperations {
    MessageOperations {
        deserialize: false,
        serialize: false,
        fork_clone: false,
        fork_result: None,
        unzip: None,
        split: None,
        buffer_access: None,
        listen: false,
        into_impls: HashSet::new(),
        try_into_impls: HashSet::new(),
        from_impls: HashSet::new(),
        try_from_impls: HashSet::new(),
    }
}

/// Types 0..=5 plus JSON at 6; type 7 has no operations.
fn registry() -> MessageRegistrations {
    let mut t0 = plain();
    t0.fork_clone = true;
    t0.serialize = true;
    t0.deserialize = true;
    t0.into_impls.insert(2);
    let mut t1 = plain();
    t1.fork_clone = true;
    t1.serialize = true;
    t1.deserialize = true;
    t1.into_impls.insert(2);
    let mut t2 = plain();
    t2.fork_clone = true;
    t2.unzip = Some(vec![0, 1]);
    let mut t3 = plain();
    t3.fork_result = Some([0, 1]);
    let mut t4 = plain();
    t4.split = Some(1);
    t4.buffer_access = Some(5);
    let t5 = plain();
    let mut json = plain();
    json.fork_clone = true;
    json.serialize = true;
    json.deserialize = true;
    json.split = Some(6);
    let mut lookup = HashMap::new();
    let mut by_err = HashMap::new();
    by_err.insert(1usize, 3usize);
    lookup.insert(0usize, by_err);
    MessageRegistrations {
        operations: vec![Some(t0), Some(t1), Some(t2), Some(t3), Some(t4), Some(t5), Some(json), None],
        json_index: Some(6),
        result_lookup: lookup,
    }
}

fn inferences(
    evals: &[(u64, Option<usize>)],
    conns: &[(u64, Vec<u64>)],
    redirs: &[(u64, Vec<u64>)],
) -> Inferences {
    Inferences {
        evaluations: evals.iter().cloned().collect(),
        connections_into: conns.iter().cloned().collect(),
        redirections_into: redirs.iter().cloned().collect(),
        buffer_hints: HashMap::new(),
        connection_from: HashMap::new(),
        redirected_input: HashMap::new(),
        constraints: HashMap::new(),
        ports: PortNames::new(),
    }
}

#[test]
fn message_types_gathered_through_redirections() {
    let reg = registry();
    let inf = inferences(
        &[(1, Some(3)), (2, Some(1)), (3, None), (4, Some(2)), (5, Some(1))],
        &[(10, vec![1, 2, 3]), (20, vec![4, 5])],
        &[(10, vec![20])],
    );
    let ctx = ConstraintContext { inferences: &inf, registry: &reg };
    let types = ctx.impl_get_message_types_into(10, true).ok().unwrap();
    assert_eq!(types, vec![1, 2, 3]);
}

#[test]
fn circular_and_merging_redirections_fail() {
    let reg = registry();
    let circle = inferences(&[(1, Some(0))], &[(10, vec![1])], &[(10, vec![11]), (11, vec![10])]);
    let ctx = ConstraintContext { inferences: &circle, registry: &reg };
    assert!(matches!(ctx.impl_get_message_types_into(10, false), Err(InferenceError::CircularRedirect(_))));

    let diamond = inferences(
        &[(1, Some(0))],
        &[(13, vec![1])],
        &[(10, vec![11, 12]), (11, vec![13]), (12, vec![13])],
    );
    let ctx = ConstraintContext { inferences: &diamond, registry: &reg };
    match ctx.impl_get_message_types_into(10, false) {
        Err(InferenceError::CircularRedirect(visited)) => assert!(visited.contains(&13)),
        _ => panic!("a merge of redirections is refused"),
    }
}

#[test]
fn circular_redirect_lists_every_visited_operation() {
    let reg = registry();
    let circle = inferences(&[(1, Some(0))], &[(10, vec![1])], &[(10, vec![11]), (11, vec![10])]);
    let ctx = ConstraintContext { inferences: &circle, registry: &reg };
    match ctx.impl_get_message_types_into(10, false) {
        Err(InferenceError::CircularRedirect(visited)) => assert_eq!(visited, vec![10, 11]),
        _ => panic!("a circle of redirections is refused"),
    }
    let diamond = inferences(
        &[(1, Some(0))],
        &[(13, vec![1])],
        &[(10, vec![11, 12]), (11, vec![13]), (12, vec![13])],
    );
    let ctx = ConstraintContext { inferences: &diamond, registry: &reg };
    match ctx.impl_get_message_types_into(10, false) {
        Err(InferenceError::CircularRedirect(visited)) => assert_eq!(visited, vec![10, 12, 13, 11]),
        _ => panic!("a merge of redirections is refused"),
    }
}

#[test]
fn the_walk_reports_the_first_fault_it_meets() {
    let reg = registry();
    // The walk visits 10, then 12 (stacked last), then 11: the unknown port
    // connected into 12 is met before 11, which has nothing connected.
    let inf = inferences(&[], &[(12, vec![7])], &[(10, vec![11, 12])]);
    let ctx = ConstraintContext { inferences: &inf, registry: &reg };
    assert!(matches!(ctx.impl_get_message_types_into(10, true), Err(InferenceError::UnknownPort(7))));
    let inf = inferences(&[(7, None)], &[(12, vec![7])], &[(10, vec![11, 12])]);
    let ctx = ConstraintContext { inferences: &inf, registry: &reg };
    assert!(matches!(ctx.impl_get_message_types_into(10, true), Err(InferenceError::NoConnection(11))));
}

#[test]
fn inference_steps_reach_a_fixpoint() {
    let reg = registry();
    let mut inf = inferences(&[(1, Some(2)), (2, None), (3, None)], &[], &[]);
    inf.constraints.insert(2, Constraint::ExactMatch(1));
    inf.constraints.insert(3, Constraint::ExactMatch(2));
    let dependents = Dependents::new(&vec![(2, vec![1]), (3, vec![2])]);
    let mut state = InferenceState::start(&vec![3, 2, 1], &inf);
    assert_eq!(state.message_type(1), Some(2));
    assert_eq!(state.peek_port(), Some(3));
    // Port 3 waits for port 2.
    assert!(inference_step(&mut state, &mut inf, &reg, &dependents, None).unwrap());
    assert_eq!(state.message_type(3), None);
    // Port 2 takes the type of port 1, and port 3 is queued again.
    assert!(inference_step(&mut state, &mut inf, &reg, &dependents, None).unwrap());
    assert_eq!(state.message_type(2), Some(2));
    assert_eq!(inf.evaluations[&2], Some(2));
    assert_eq!(state.peek_port(), Some(1));
    assert!(inference_step(&mut state, &mut inf, &reg, &dependents, None).unwrap());
    assert!(inference_step(&mut state, &mut inf, &reg, &dependents, None).unwrap());
    assert_eq!(inf.evaluations[&3], Some(2));
    assert!(!inference_step(&mut state, &mut inf, &reg, &dependents, None).unwrap());
    assert_eq!(state.try_infer_types(&vec![1, 2, 3]).unwrap().len(), 3);
}

#[test]
fn inference_step_on_an_unknown_port_fails() {
    let reg = registry();
    let mut inf = inferences(&[(1, Some(2))], &[], &[]);
    let dependents = Dependents::new(&vec![]);
    let mut state = InferenceState::start(&vec![9, 1], &inf);
    assert!(matches!(
        inference_step(&mut state, &mut inf, &reg, &dependents, None),
        Err(InferenceError::UnknownPort(9))
    ));
    assert_eq!(state.peek_port(), Some(1));
    assert!(inference_step(&mut state, &mut inf, &reg, &dependents, None).unwrap());
    assert!(!inference_step(&mut state, &mut inf, &reg, &dependents, None).unwrap());
}

#[test]
fn missing_connections_and_ports_fail() {
    let reg = registry();
    let empty = inferences(&[], &[], &[]);
    let ctx = ConstraintContext { inferences: &empty, registry: &reg };
    assert!(matches!(ctx.impl_get_message_types_into(10, true), Err(InferenceError::NoConnection(10))));
    assert_eq!(ctx.impl_get_message_types_into(10, false).ok().unwrap(), Vec::<usize>::new());

    let unknown = inferences(&[], &[(10, vec![7])], &[]);
    let ctx = ConstraintContext { inferences: &unknown, registry: &reg };
    assert!(matches!(ctx.impl_get_message_types_into(10, true), Err(InferenceError::UnknownPort(7))));
}

#[test]
fn registry_lookups() {
    let reg = registry();
    let inf = inferences(&[], &[], &[]);
    let ctx = ConstraintContext { inferences: &inf, registry: &reg };
    assert!(ctx.operations_of(2).ok().unwrap().unzip.is_some());
    assert!(matches!(ctx.operations_of(7), Err(InferenceError::UnregisteredType(7))));
    assert!(matches!(
        ctx.operations_of(9),
        Err(InferenceError::UnknownMessageTypeIndex { index: 9, limit: 8 })
    ));
    assert_eq!(ctx.type_info_for(7).ok(), Some(7));
    assert_eq!(ctx.type_info_for_slice(&[1, 4]).ok().unwrap(), vec![1, 4]);
    assert!(matches!(
        ctx.type_info_for_slice(&[1, 12, 9]),
        Err(InferenceError::UnknownMessageTypeIndex { index: 12, limit: 8 })
    ));
}

#[test]
fn same_output_type_of_targets() {
    let reg = registry();
    let inf = inferences(&[(30, Some(0)), (31, Some(0)), (32, None), (33, Some(1)), (34, Some(2))], &[], &[]);
    let ctx = ConstraintContext { inferences: &inf, registry: &reg };
    assert_eq!(ctx.same_output_type(&[30, 31, 32]).ok().unwrap(), Some(0));
    assert_eq!(ctx.same_output_type(&[32]).ok().unwrap(), None);
    // Different targets that all deserialize take JSON.
    assert_eq!(ctx.same_output_type(&[30, 33]).ok().unwrap(), Some(6));
    // One of them cannot be deserialized: no clear choice.
    assert_eq!(ctx.same_output_type(&[30, 34]).ok().unwrap(), None);
    assert!(matches!(ctx.same_output_type(&[30, 99]), Err(InferenceError::UnknownPort(99))));
}

#[test]
fn clone_input_evaluation() {
    let reg = registry();
    // One incoming type.
    let inf = inferences(&[(1, Some(0)), (10, None)], &[(10, vec![1])], &[]);
    let ctx = ConstraintContext { inferences: &inf, registry: &reg };
    assert_eq!(ctx.evaluate_clone_input(10, &[]).ok().unwrap(), Some(0));

    // Nothing arrives yet: the targets decide.
    let inf = inferences(&[(1, None), (30, Some(2))], &[(10, vec![1])], &[]);
    let ctx = ConstraintContext { inferences: &inf, registry: &reg };
    assert_eq!(ctx.evaluate_clone_input(10, &[30]).ok().unwrap(), Some(2));
    assert_eq!(ctx.evaluate_clone_input(10, &[]).ok().unwrap(), None);

    // Two incoming types that both convert into what the target takes.
    let inf = inferences(&[(1, Some(0)), (2, Some(1)), (30, Some(2))], &[(10, vec![1, 2])], &[]);
    let ctx = ConstraintContext { inferences: &inf, registry: &reg };
    assert_eq!(ctx.evaluate_clone_input(10, &[30]).ok().unwrap(), Some(2));

    // Two incoming types that do not convert into the target's type.
    let inf = inferences(&[(1, Some(0)), (2, Some(1)), (30, Some(4))], &[(10, vec![1, 2])], &[]);
    let ctx = ConstraintContext { inferences: &inf, registry: &reg };
    match ctx.evaluate_clone_input(10, &[30]) {
        Err(InferenceError::AmbiguousMessageType(types)) => assert_eq!(types, vec![0, 1]),
        _ => panic!("expected an ambiguity"),
    }

    // No clear target type, all serializable: JSON.
    let inf = inferences(&[(1, Some(0)), (2, Some(1))], &[(10, vec![1, 2])], &[]);
    let ctx = ConstraintContext { inferences: &inf, registry: &reg };
    assert_eq!(ctx.evaluate_clone_input(10, &[]).ok().unwrap(), Some(6));

    // Not all serializable: ambiguous.
    let inf = inferences(&[(1, Some(0)), (2, Some(2))], &[(10, vec![1, 2])], &[]);
    let ctx = ConstraintContext { inferences: &inf, registry: &reg };
    match ctx.evaluate_clone_input(10, &[]) {
        Err(InferenceError::AmbiguousMessageType(types)) => assert_eq!(types, vec![0, 2]),
        _ => panic!("expected an ambiguity"),
    }

    // The one incoming type cannot be cloned.
    let inf = inferences(&[(1, Some(4))], &[(10, vec![1])], &[]);
    let ctx = ConstraintContext { inferences: &inf, registry: &reg };
    assert!(matches!(ctx.evaluate_clone_input(10, &[]), Err(InferenceError::NotCloneable(4))));
}

#[test]
fn result_fork_evaluation() {
    let reg = registry();
    let inf = inferences(&[(1, Some(3))], &[(10, vec![1])], &[]);
    let ctx = ConstraintContext { inferences: &inf, registry: &reg };
    assert_eq!(ctx.evaluate_result_input(10, 40, 41).ok().unwrap(), Some(3));

    // Nothing arrives: look the result type up from the branches.
    let inf = inferences(&[(40, Some(0)), (41, Some(1))], &[(10, vec![])], &[(10, vec![11])]);
    let ctx = ConstraintContext { inferences: &inf, registry: &reg };
    assert!(matches!(ctx.evaluate_result_input(10, 40, 41), Err(InferenceError::NoConnection(11))));
    let inf = inferences(&[(1, None), (40, Some(0)), (41, Some(1))], &[(10, vec![1])], &[]);
    let ctx = ConstraintContext { inferences: &inf, registry: &reg };
    assert_eq!(ctx.evaluate_result_input(10, 40, 41).ok().unwrap(), Some(3));
    let inf = inferences(&[(1, None), (40, Some(1)), (41, Some(1))], &[(10, vec![1])], &[]);
    let ctx = ConstraintContext { inferences: &inf, registry: &reg };
    assert_eq!(ctx.evaluate_result_input(10, 40, 41).ok().unwrap(), None);

    let inf = inferences(&[(1, Some(5))], &[(10, vec![1])], &[]);
    let ctx = ConstraintContext { inferences: &inf, registry: &reg };
    assert!(matches!(ctx.evaluate_result_input(10, 40, 41), Err(InferenceError::CannotForkResult(5))));

    let inf = inferences(&[(10, Some(3)), (11, Some(4)), (12, None)], &[], &[]);
    let ctx = ConstraintContext { inferences: &inf, registry: &reg };
    assert_eq!(ctx.evaluate_ok_from(10).ok().unwrap(), Some(0));
    assert_eq!(ctx.evaluate_err_from(10).ok().unwrap(), Some(1));
    assert_eq!(ctx.evaluate_ok_from(12).ok().unwrap(), None);
    assert!(matches!(ctx.evaluate_err_from(11), Err(InferenceError::CannotForkResult(4))));
    assert!(matches!(ctx.evaluate_ok_from(13), Err(InferenceError::UnknownPort(13))));
}

#[test]
fn unzip_evaluation() {
    let reg = registry();
    let inf = inferences(&[(1, Some(2)), (10, Some(2)), (11, Some(0))], &[(10, vec![1])], &[]);
    let ctx = ConstraintContext { inferences: &inf, registry: &reg };
    assert_eq!(ctx.evaluate_unzip_input(10).ok().unwrap(), Some(2));
    assert_eq!(ctx.evaluate_unzip_output(10, 0).ok().unwrap(), Some(0));
    assert_eq!(ctx.evaluate_unzip_output(10, 1).ok().unwrap(), Some(1));
    assert!(matches!(
        ctx.evaluate_unzip_output(10, 2),
        Err(InferenceError::InvalidUnzip { message: 2, element: 2 })
    ));
    assert!(matches!(ctx.evaluate_unzip_output(11, 0), Err(InferenceError::NotUnzippable(0))));

    let inf = inferences(&[(1, Some(2)), (2, Some(0))], &[(10, vec![1, 2])], &[]);
    let ctx = ConstraintContext { inferences: &inf, registry: &reg };
    match ctx.evaluate_unzip_input(10) {
        Err(InferenceError::AmbiguousMessageType(types)) => assert_eq!(types, vec![0, 2]),
        _ => panic!("expected an ambiguity"),
    }
    let inf = inferences(&[(1, Some(7))], &[(10, vec![1])], &[]);
    let ctx = ConstraintContext { inferences: &inf, registry: &reg };
    assert!(matches!(ctx.evaluate_unzip_input(10), Err(InferenceError::UnregisteredType(7))));
}

#[test]
fn buffer_evaluation() {
    let reg = registry();
    let inf = inferences(&[(1, Some(4))], &[(10, vec![1])], &[]);
    let ctx = ConstraintContext { inferences: &inf, registry: &reg };
    assert_eq!(ctx.evaluate_buffer_input(10, None).ok().unwrap(), Some(4));

    // Nothing connects into the buffer: the hints decide.
    let inf = inferences(&[], &[], &[]);
    let ctx = ConstraintContext { inferences: &inf, registry: &reg };
    assert_eq!(ctx.evaluate_buffer_input(10, None).ok().unwrap(), None);
    assert_eq!(ctx.evaluate_buffer_input(10, Some(vec![Ok(None), Ok(Some(5)), Ok(Some(5))])).ok().unwrap(), Some(5));
    match ctx.evaluate_buffer_input(10, Some(vec![Ok(Some(5)), Ok(Some(1))])) {
        Err(InferenceError::AmbiguousMessageType(types)) => assert_eq!(types, vec![1, 5]),
        _ => panic!("expected an ambiguity"),
    }
    assert!(matches!(
        ctx.evaluate_buffer_input(10, Some(vec![Ok(Some(5)), Err(InferenceError::NotSplittable(3)), Err(InferenceError::UnknownPort(2))])),
        Err(InferenceError::NotSplittable(3))
    ));

    let inf = inferences(&[(20, Some(4)), (21, Some(0)), (22, None)], &[], &[]);
    let ctx = ConstraintContext { inferences: &inf, registry: &reg };
    assert_eq!(ctx.evaluate_buffer_access_input(20).ok().unwrap(), Some(5));
    assert_eq!(ctx.evaluate_buffer_access_input(22).ok().unwrap(), None);
    assert!(matches!(ctx.evaluate_buffer_access_input(21), Err(InferenceError::CannotAccessBuffers(0))));
}

#[test]
fn split_evaluation() {
    let reg = registry();
    let inf = inferences(&[(1, Some(4)), (10, Some(4)), (11, Some(6)), (12, Some(0))], &[(10, vec![1])], &[]);
    let ctx = ConstraintContext { inferences: &inf, registry: &reg };
    assert_eq!(ctx.evaluate_split_input(10).ok().unwrap(), Some(4));
    assert_eq!(ctx.evaluate_split_output(10).ok().unwrap(), Some(1));
    assert_eq!(ctx.evaluate_split_output(11).ok().unwrap(), Some(6));
    assert!(matches!(ctx.evaluate_split_output(12), Err(InferenceError::NotSplittable(0))));

    // Not splittable but serializable: take JSON instead.
    let inf = inferences(&[(1, Some(0))], &[(10, vec![1])], &[]);
    let ctx = ConstraintContext { inferences: &inf, registry: &reg };
    assert_eq!(ctx.evaluate_split_input(10).ok().unwrap(), Some(6));
    // Neither: refused.
    let inf = inferences(&[(1, Some(5))], &[(10, vec![1])], &[]);
    let ctx = ConstraintContext { inferences: &inf, registry: &reg };
    assert!(matches!(ctx.evaluate_split_input(10), Err(InferenceError::NotSplittable(5))));
    // Several, all serializable: JSON.
    let inf = inferences(&[(1, Some(0)), (2, Some(1))], &[(10, vec![1, 2])], &[]);
    let ctx = ConstraintContext { inferences: &inf, registry: &reg };
    assert_eq!(ctx.evaluate_split_input(10).ok().unwrap(), Some(6));
    // Several, one not serializable: ambiguous.
    let inf = inferences(&[(1, Some(0)), (2, Some(5))], &[(10, vec![1, 2])], &[]);
    let ctx = ConstraintContext { inferences: &inf, registry: &reg };
    match ctx.evaluate_split_input(10) {
        Err(InferenceError::AmbiguousMessageType(types)) => assert_eq!(types, vec![0, 5]),
        _ => panic!("expected an ambiguity"),
    }
}

#[test]
fn constraint_dependencies_and_dispatch() {
    let reg = registry();
    let mut inf = inferences(
        &[(1, Some(0)), (2, Some(1)), (10, Some(3)), (40, Some(2))],
        &[(10, vec![1]), (20, vec![1, 2])],
        &[],
    );
    inf.buffer_hints.insert(20, vec![50, 51]);
    let ctx = ConstraintContext { inferences: &inf, registry: &reg };

    let clone = Constraint::CloneInput { operation: 20, targets: vec![40] };
    assert_eq!(clone.dependencies(&ctx), vec![40, 1, 2]);
    assert_eq!(clone.evaluate(&ctx, None).ok().unwrap(), Some(2));

    let result = Constraint::ResultInto { operation: 10, ok: 40, err: 41 };
    assert_eq!(result.dependencies(&ctx), vec![1, 40, 41]);
    assert_eq!(Constraint::BufferInput(20).dependencies(&ctx), vec![1, 2, 50, 51]);
    assert_eq!(Constraint::UnzipOutput { op: 40, element: 1 }.dependencies(&ctx), vec![40]);

    assert_eq!(Constraint::ExactMatch(2).evaluate(&ctx, None).ok().unwrap(), Some(1));
    assert!(matches!(Constraint::ExactMatch(3).evaluate(&ctx, None), Err(InferenceError::UnknownPort(3))));
    assert_eq!(Constraint::OkFrom(10).evaluate(&ctx, None).ok().unwrap(), Some(0));
    assert_eq!(Constraint::ErrFrom(10).evaluate(&ctx, None).ok().unwrap(), Some(1));
    assert_eq!(Constraint::UnzipOutput { op: 40, element: 1 }.evaluate(&ctx, None).ok().unwrap(), Some(1));
    // Two types arrive at the buffer: ambiguous, whatever the hints say.
    assert!(matches!(
        Constraint::BufferInput(20).evaluate(&ctx, Some(vec![Ok(Some(0))])),
        Err(InferenceError::AmbiguousMessageType(_))
    ));
}

#[test]
fn strict_gathering_success_implies_lenient() {
    let reg = registry();
    let inf = inferences(&[(1, Some(2))], &[(10, vec![1]), (11, vec![])], &[(10, vec![11])]);
    let ctx = ConstraintContext { inferences: &inf, registry: &reg };
    // Operation 11 has nothing connected: only the lenient gathering succeeds.
    assert!(ctx.impl_get_message_types_into(10, true).is_err());
    assert_eq!(ctx.impl_get_message_types_into(10, false).ok().unwrap(), vec![2]);
    let inf = inferences(&[(1, Some(2))], &[(10, vec![1])], &[]);
    let ctx = ConstraintContext { inferences: &inf, registry: &reg };
    assert_eq!(ctx.impl_get_message_types_into(10, true).ok().unwrap(), vec![2]);
    assert_eq!(ctx.impl_get_message_types_into(10, false).ok().unwrap(), vec![2]);
}

#[test]
fn script_message_support() {
    let reg = registry();
    let mut ops = plain();
    assert!(!ops.supports_into_script_message(&reg, Some(7)));
    ops.try_into_impls.insert(7);
    assert!(ops.supports_into_script_message(&reg, Some(7)));
    assert!(!ops.supports_into_script_message(&reg, None));
    // A buffer access whose request (type 0) serializes and deserializes.
    let mut access = plain();
    access.buffer_access = Some(0);
    assert!(access.supports_into_script_message(&reg, None));
    assert!(access.supports_from_script_message(&reg, None));
    // A request without operations does not help.
    access.buffer_access = Some(7);
    assert!(!access.supports_from_script_message(&reg, None));
    access.listen = true;
    assert!(access.supports_from_script_message(&reg, None));
    let supported = access.supported(&reg, None);
    assert!(supported.into_script_message && supported.from_script_message && !supported.serialize);
}

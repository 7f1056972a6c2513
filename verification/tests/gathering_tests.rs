use crossflow::constraints::Inferences;
use crossflow::evaluation::Constraint;
use crossflow::gathering::{
    apply_constraints, DiagramContext, DiagramOperation, GatherError, NodeError, NodeMetadata, NodeRegistrations,
    NodeSchema, PortKey, Registrations, ScopeSchema,
    set_boundary_conditions, section_constraints, ChildOperation, NextOperation, PortKind,
    SectionError, SectionInterface, SectionProvider, SectionRegistrations, SectionSchema,
    SectionTemplate, Templates,
};

fn s(x: &str) -> String {
    x.to_string()
}

/// The id of the port with the given kind and path, if it has one.
fn id_of(inf: &Inferences, kind: PortKind, path: &[&str]) -> Option<u64> {
    inf.ports
        .keys
        .iter()
        .position(|k| k.kind == kind && k.path.iter().map(|p| p.as_str()).eq(path.iter().copied()))
        .map(|i| i as u64)
}

fn redirected_into(inf: &Inferences, from: u64) -> Option<u64> {
    inf.redirected_input.get(&from).copied()
}

#[test]
fn recording_primitives() {
    let mut inf = Inferences::new();
    inf.fixed(1, 4);
    assert_eq!(inf.evaluations.get(&1), Some(&Some(4)));
    inf.connect(2, 3);
    inf.connect(2, 3);
    assert_eq!(inf.connections_into.get(&3), Some(&vec![2]));
    assert_eq!(inf.connection_from.get(&2), Some(&3));
    inf.redirect(5, 6);
    assert_eq!(inf.redirected_input.get(&5), Some(&6));
    assert_eq!(inf.redirections_into.get(&6), Some(&vec![5]));
    assert!(matches!(inf.constraints.get(&5), Some(Constraint::ExactMatch(6))));
    assert_eq!(inf.evaluations.get(&5), Some(&None));
    inf.infer_from_downstream(7, 8);
    assert!(matches!(inf.constraints.get(&7), Some(Constraint::ExactMatch(8))));
    assert_eq!(inf.connections_into.get(&8), Some(&vec![7]));
}

#[test]
fn boundary_conditions() {
    let mut inf = Inferences::new();
    set_boundary_conditions(&mut inf, 1, 2, 3, 10, 11, &vec![(4, 12), (5, 13), (4, 14)]);
    assert_eq!(inf.evaluations.get(&1), Some(&Some(10)));
    assert_eq!(inf.evaluations.get(&3), Some(&Some(11)));
    assert_eq!(inf.evaluations.get(&4), Some(&Some(14)));
    assert_eq!(inf.evaluations.get(&5), Some(&Some(13)));
    assert_eq!(inf.connections_into.get(&2), Some(&vec![1]));
    assert_eq!(inf.connection_from.get(&1), Some(&2));
}

fn template() -> Templates {
    Templates {
        templates: vec![(
            s("doubler"),
            SectionTemplate {
                ops: vec![
                    (s("double"), DiagramOperation::Transform(NextOperation::Name(s("out")))),
                    (s("out"), DiagramOperation::Buffer { serialize: false }),
                ],
                inputs: vec![(s("in"), NextOperation::Name(s("double")))],
                buffers: vec![(s("buf"), NextOperation::Name(s("store")))],
                outputs: vec![s("out")],
            },
        )],
    }
}

#[test]
fn template_section_redirects() {
    let mut inf = Inferences::new();
    let mut children: Vec<ChildOperation> = Vec::new();
    let schema = SectionSchema {
        provider: SectionProvider::Template(s("doubler")),
        connect: vec![(s("out"), NextOperation::Name(s("after")))],
    };
    let sections = SectionRegistrations { sections: vec![] };
    let r = section_constraints(&mut inf, &mut children, &s("sec"), &schema, &template(), &sections, &vec![s("outer")]);
    assert!(r.is_ok());
    let exposed = id_of(&inf, PortKind::ExposedInput, &["outer", "sec", "in"]).unwrap();
    let double = id_of(&inf, PortKind::Input, &["outer", "sec", "double"]).unwrap();
    assert_eq!(redirected_into(&inf, exposed), Some(double));
    let buf = id_of(&inf, PortKind::ExposedInput, &["outer", "sec", "buf"]).unwrap();
    let store = id_of(&inf, PortKind::Input, &["outer", "sec", "store"]).unwrap();
    assert_eq!(redirected_into(&inf, buf), Some(store));
    let out = id_of(&inf, PortKind::Input, &["outer", "sec", "out"]).unwrap();
    let after = id_of(&inf, PortKind::Input, &["outer", "after"]).unwrap();
    assert_eq!(redirected_into(&inf, out), Some(after));
    let inner_term = id_of(&inf, PortKind::Terminate, &["outer", "sec"]).unwrap();
    let outer_term = id_of(&inf, PortKind::Terminate, &["outer"]).unwrap();
    assert_eq!(redirected_into(&inf, inner_term), Some(outer_term));
    let kids: Vec<(Vec<String>, String)> = children.iter().map(|c| (c.namespaces.clone(), c.id.clone())).collect();
    assert_eq!(kids, vec![
        (vec![s("outer"), s("sec")], s("double")),
        (vec![s("outer"), s("sec")], s("out")),
    ]);
}

#[test]
fn template_section_refuses_unknown_output() {
    let mut inf = Inferences::new();
    let mut children: Vec<ChildOperation> = Vec::new();
    let schema = SectionSchema {
        provider: SectionProvider::Template(s("doubler")),
        connect: vec![(s("nope"), NextOperation::Terminate)],
    };
    let sections = SectionRegistrations { sections: vec![] };
    match section_constraints(&mut inf, &mut children, &s("sec"), &schema, &template(), &sections, &vec![]) {
        Err(SectionError::UnknownOutput(o)) => assert_eq!(o, "nope"),
        _ => panic!("an unknown output is refused"),
    }
    let missing = SectionSchema { provider: SectionProvider::Template(s("other")), connect: vec![] };
    assert!(matches!(
        section_constraints(&mut inf, &mut children, &s("sec2"), &missing, &template(), &sections, &vec![]),
        Err(SectionError::UnknownTemplate(_))
    ));
}

#[test]
fn builder_section_fixes_and_connects() {
    let mut inf = Inferences::new();
    let mut children: Vec<ChildOperation> = Vec::new();
    let sections = SectionRegistrations {
        sections: vec![(
            s("adder"),
            SectionInterface {
                inputs: vec![(s("a"), 1)],
                buffers: vec![(s("b"), Some(2)), (s("c"), None)],
                outputs: vec![(s("sum"), 3)],
            },
        )],
    };
    let schema = SectionSchema {
        provider: SectionProvider::Builder(s("adder")),
        connect: vec![(s("sum"), NextOperation::Namespace { namespace: s("other"), operation: s("x") })],
    };
    let r = section_constraints(&mut inf, &mut children, &s("sec"), &schema, &Templates { templates: vec![] }, &sections, &vec![]);
    assert!(r.is_ok());
    assert!(children.is_empty());
    let a = id_of(&inf, PortKind::ExposedInput, &["sec", "a"]).unwrap();
    assert_eq!(inf.evaluations.get(&a), Some(&Some(1)));
    let b = id_of(&inf, PortKind::ExposedInput, &["sec", "b"]).unwrap();
    assert_eq!(inf.evaluations.get(&b), Some(&Some(2)));
    assert!(id_of(&inf, PortKind::ExposedInput, &["sec", "c"]).is_none());
    let sum = id_of(&inf, PortKind::Output, &["sec", "connect", "sum"]).unwrap();
    assert_eq!(inf.evaluations.get(&sum), Some(&Some(3)));
    let x = id_of(&inf, PortKind::ExposedInput, &["other", "x"]).unwrap();
    assert_eq!(inf.connection_from.get(&sum), Some(&x));
    let inner_term = id_of(&inf, PortKind::Terminate, &["sec"]).unwrap();
    let outer_term = id_of(&inf, PortKind::Terminate, &[]).unwrap();
    assert_eq!(redirected_into(&inf, inner_term), Some(outer_term));

    let missing = SectionSchema { provider: SectionProvider::Builder(s("none")), connect: vec![] };
    assert!(matches!(
        section_constraints(&mut inf, &mut children, &s("sec2"), &missing, &Templates { templates: vec![] }, &sections, &vec![]),
        Err(SectionError::UnknownSectionBuilder(_))
    ));
}

#[test]
fn node_and_simple_operations() {
    let regs = Registrations {
        nodes: NodeRegistrations {
            nodes: vec![(s("mul"), NodeMetadata { request: 1, response: 2, streams: vec![(s("log"), 3)] })],
        },
        sections: SectionRegistrations { sections: vec![] },
        templates: Templates { templates: vec![] },
        json_index: Some(9),
    };
    let mut inf = Inferences::new();
    let mut children: Vec<ChildOperation> = Vec::new();
    let node = DiagramOperation::Node(NodeSchema {
        builder: s("mul"),
        next: NextOperation::Name(s("sum")),
        stream_out: vec![(s("log"), NextOperation::Dispose)],
    });
    assert!(apply_constraints(&mut inf, &mut children, &s("x10"), &node, &regs, &vec![]).is_ok());
    let input = id_of(&inf, PortKind::Input, &["x10"]).unwrap();
    assert_eq!(inf.evaluations.get(&input), Some(&Some(1)));
    let next = id_of(&inf, PortKind::Output, &["x10", "next"]).unwrap();
    assert_eq!(inf.evaluations.get(&next), Some(&Some(2)));
    let sum = id_of(&inf, PortKind::Input, &["sum"]).unwrap();
    assert_eq!(inf.connection_from.get(&next), Some(&sum));
    let log = id_of(&inf, PortKind::Output, &["x10", "stream_out", "log"]).unwrap();
    assert_eq!(inf.evaluations.get(&log), Some(&Some(3)));
    let dispose = id_of(&inf, PortKind::Dispose, &[]).unwrap();
    assert_eq!(inf.connection_from.get(&log), Some(&dispose));

    let missing = DiagramOperation::Node(NodeSchema { builder: s("none"), next: NextOperation::Terminate, stream_out: vec![] });
    assert!(matches!(
        apply_constraints(&mut inf, &mut children, &s("y"), &missing, &regs, &vec![]),
        Err(GatherError::Node(NodeError::BuilderNotFound(_)))
    ));

    let transform = DiagramOperation::Transform(NextOperation::Name(s("sum")));
    assert!(apply_constraints(&mut inf, &mut children, &s("t"), &transform, &regs, &vec![]).is_ok());
    let t_in = id_of(&inf, PortKind::Input, &["t"]).unwrap();
    assert_eq!(inf.evaluations.get(&t_in), Some(&Some(9)));

    let buffer = DiagramOperation::Buffer { serialize: false };
    assert!(apply_constraints(&mut inf, &mut children, &s("b"), &buffer, &regs, &vec![]).is_ok());
    let b = id_of(&inf, PortKind::Input, &["b"]).unwrap();
    assert!(matches!(inf.constraints.get(&b), Some(Constraint::BufferInput(x)) if *x == b));

    let no_json = Registrations { json_index: None, ..regs };
    assert!(matches!(
        apply_constraints(&mut inf, &mut children, &s("t2"), &transform, &no_json, &vec![]),
        Err(GatherError::JsonNotRegistered)
    ));
    assert!(children.is_empty());
}

#[test]
fn implicit_errors_default_to_cancel() {
    assert!(matches!(scope(None).on_implicit_error(), NextOperation::Cancel));
    assert!(matches!(
        scope(Some(NextOperation::Name(s("handler")))).on_implicit_error(),
        NextOperation::Name(n) if n == "handler"
    ));
    let ctx = DiagramContext {
        namespaces: vec![s("outer")],
        on_implicit_error: PortKey { kind: PortKind::Cancel, path: vec![s("outer")] },
    };
    let k = ctx.into_operation_ref(&NextOperation::Name(s("a")));
    assert!(k.kind == PortKind::Input && k.path == vec![s("outer"), s("a")]);
    let c = ctx.into_child_operation_ref(&s("sec"), &NextOperation::Name(s("b")));
    assert!(c.kind == PortKind::Input && c.path == vec![s("outer"), s("sec"), s("b")]);
    let e = ctx.get_implicit_error_target();
    assert!(e.kind == PortKind::Cancel && e.path == vec![s("outer")]);
}

fn scope(on_implicit_error: Option<NextOperation>) -> ScopeSchema {
    ScopeSchema {
        start: NextOperation::Name(s("first")),
        stream_out: vec![(s("progress"), NextOperation::Name(s("monitor")))],
        next: NextOperation::Name(s("after")),
        ops: vec![(s("first"), DiagramOperation::Buffer { serialize: false })],
        on_implicit_error,
    }
}

fn plain_registrations() -> Registrations {
    Registrations {
        nodes: NodeRegistrations { nodes: vec![] },
        sections: SectionRegistrations { sections: vec![] },
        templates: Templates { templates: vec![] },
        json_index: Some(9),
    }
}

#[test]
fn scope_constraints_redirect_through_the_scope() {
    let regs = plain_registrations();
    let mut inf = Inferences::new();
    let mut children: Vec<ChildOperation> = Vec::new();
    let op = DiagramOperation::Scope(scope(None));
    assert!(apply_constraints(&mut inf, &mut children, &s("sc"), &op, &regs, &vec![s("top")]).is_ok());
    let input = id_of(&inf, PortKind::Input, &["top", "sc"]).unwrap();
    let start = id_of(&inf, PortKind::Input, &["top", "sc", "first"]).unwrap();
    assert_eq!(redirected_into(&inf, input), Some(start));
    let stream = id_of(&inf, PortKind::StreamOut, &["top", "sc", "progress"]).unwrap();
    let monitor = id_of(&inf, PortKind::Input, &["top", "monitor"]).unwrap();
    assert_eq!(redirected_into(&inf, stream), Some(monitor));
    let term = id_of(&inf, PortKind::Terminate, &["top", "sc"]).unwrap();
    let after = id_of(&inf, PortKind::Input, &["top", "after"]).unwrap();
    assert_eq!(redirected_into(&inf, term), Some(after));
    assert_eq!(children.len(), 1);
    assert_eq!(children[0].namespaces, vec![s("top"), s("sc")]);
    assert_eq!(children[0].id, s("first"));
}

#[test]
fn routing_constraints() {
    let regs = plain_registrations();
    let mut inf = Inferences::new();
    let mut children: Vec<ChildOperation> = Vec::new();

    let clone = DiagramOperation::ForkClone(vec![NextOperation::Name(s("a")), NextOperation::Name(s("b"))]);
    assert!(apply_constraints(&mut inf, &mut children, &s("c"), &clone, &regs, &vec![]).is_ok());
    let c = id_of(&inf, PortKind::Input, &["c"]).unwrap();
    let a = id_of(&inf, PortKind::Input, &["a"]).unwrap();
    let b = id_of(&inf, PortKind::Input, &["b"]).unwrap();
    assert!(matches!(inf.constraints.get(&c), Some(Constraint::CloneInput { operation, targets }) if *operation == c && *targets == vec![a, b]));
    let out1 = id_of(&inf, PortKind::Element(1), &["c", "next"]).unwrap();
    assert!(matches!(inf.constraints.get(&out1), Some(Constraint::ExactMatch(x)) if *x == c));
    assert_eq!(inf.connection_from.get(&out1), Some(&b));

    let result = DiagramOperation::ForkResult { ok: NextOperation::Name(s("a")), err: NextOperation::Terminate };
    assert!(apply_constraints(&mut inf, &mut children, &s("r"), &result, &regs, &vec![]).is_ok());
    let r = id_of(&inf, PortKind::Input, &["r"]).unwrap();
    let term = id_of(&inf, PortKind::Terminate, &[]).unwrap();
    assert!(matches!(inf.constraints.get(&r), Some(Constraint::ResultInto { operation, ok, err }) if *operation == r && *ok == a && *err == term));
    let ok = id_of(&inf, PortKind::Output, &["r", "ok"]).unwrap();
    let err = id_of(&inf, PortKind::Output, &["r", "err"]).unwrap();
    assert!(matches!(inf.constraints.get(&ok), Some(Constraint::OkFrom(x)) if *x == r));
    assert!(matches!(inf.constraints.get(&err), Some(Constraint::ErrFrom(x)) if *x == r));
    assert_eq!(inf.connection_from.get(&err), Some(&term));

    let unzip = DiagramOperation::Unzip(vec![NextOperation::Name(s("a")), NextOperation::Name(s("b"))]);
    assert!(apply_constraints(&mut inf, &mut children, &s("u"), &unzip, &regs, &vec![]).is_ok());
    let u = id_of(&inf, PortKind::Input, &["u"]).unwrap();
    assert!(matches!(inf.constraints.get(&u), Some(Constraint::UnzipInput(x)) if *x == u));
    let e1 = id_of(&inf, PortKind::Element(1), &["u", "next"]).unwrap();
    assert!(matches!(inf.constraints.get(&e1), Some(Constraint::UnzipOutput { op, element: 1 }) if *op == u));

    let split = DiagramOperation::Split {
        sequential: vec![NextOperation::Name(s("a"))],
        keyed: vec![(s("k"), NextOperation::Name(s("b")))],
        remaining: Some(NextOperation::Dispose),
    };
    assert!(apply_constraints(&mut inf, &mut children, &s("sp"), &split, &regs, &vec![]).is_ok());
    let sp = id_of(&inf, PortKind::Input, &["sp"]).unwrap();
    assert!(matches!(inf.constraints.get(&sp), Some(Constraint::SplitInput(x)) if *x == sp));
    let keyed = id_of(&inf, PortKind::Output, &["sp", "keyed", "k"]).unwrap();
    assert!(matches!(inf.constraints.get(&keyed), Some(Constraint::SplitOutput(x)) if *x == sp));
    assert_eq!(inf.connection_from.get(&keyed), Some(&b));
    let rest = id_of(&inf, PortKind::Output, &["sp", "remaining"]).unwrap();
    let dispose = id_of(&inf, PortKind::Dispose, &[]).unwrap();
    assert_eq!(inf.connection_from.get(&rest), Some(&dispose));

    let stream = DiagramOperation::StreamOut(s("log"));
    assert!(apply_constraints(&mut inf, &mut children, &s("so"), &stream, &regs, &vec![]).is_ok());
    let so = id_of(&inf, PortKind::Input, &["so"]).unwrap();
    let log = id_of(&inf, PortKind::StreamOut, &["log"]).unwrap();
    assert!(matches!(inf.constraints.get(&so), Some(Constraint::ExactMatch(x)) if *x == log));
    assert!(children.is_empty());
}

#[test]
fn buffer_users_hint_at_their_buffers() {
    let regs = plain_registrations();
    let mut inf = Inferences::new();
    let mut children: Vec<ChildOperation> = Vec::new();
    let buffers = vec![NextOperation::Name(s("b1")), NextOperation::Name(s("b2"))];

    let listen = DiagramOperation::Listen { selection: names(&buffers), next: NextOperation::Name(s("t")) };
    assert!(apply_constraints(&mut inf, &mut children, &s("l"), &listen, &regs, &vec![]).is_ok());
    let l_out = id_of(&inf, PortKind::Output, &["l", "next"]).unwrap();
    let t = id_of(&inf, PortKind::Input, &["t"]).unwrap();
    let b1 = id_of(&inf, PortKind::Input, &["b1"]).unwrap();
    let b2 = id_of(&inf, PortKind::Input, &["b2"]).unwrap();
    assert_eq!(inf.buffer_hints.get(&b1), Some(&vec![l_out]));
    assert_eq!(inf.buffer_hints.get(&b2), Some(&vec![l_out]));
    assert!(matches!(inf.constraints.get(&l_out), Some(Constraint::ExactMatch(x)) if *x == t));

    let access = DiagramOperation::BufferAccess { selection: names(&buffers), next: NextOperation::Name(s("t")) };
    assert!(apply_constraints(&mut inf, &mut children, &s("ba"), &access, &regs, &vec![]).is_ok());
    let ba = id_of(&inf, PortKind::Input, &["ba"]).unwrap();
    let ba_out = id_of(&inf, PortKind::Output, &["ba", "next"]).unwrap();
    assert!(matches!(inf.constraints.get(&ba), Some(Constraint::BufferAccessInput { target }) if *target == t));
    assert_eq!(inf.buffer_hints.get(&b1), Some(&vec![l_out, ba_out]));

    let join = DiagramOperation::Join { selection: names(&buffers), next: NextOperation::Name(s("t")), serialize: true };
    assert!(apply_constraints(&mut inf, &mut children, &s("j"), &join, &regs, &vec![]).is_ok());
    let j_out = id_of(&inf, PortKind::Output, &["j", "next"]).unwrap();
    assert_eq!(inf.evaluations.get(&j_out), Some(&Some(9)));
    assert_eq!(inf.connection_from.get(&j_out), Some(&t));
    let no_json = Registrations { json_index: None, ..plain_registrations() };
    assert!(matches!(
        apply_constraints(&mut inf, &mut children, &s("j2"), &join, &no_json, &vec![]),
        Err(GatherError::JsonNotRegistered)
    ));
}

fn names(v: &[NextOperation]) -> Vec<NextOperation> {
    v.iter()
        .map(|n| match n {
            NextOperation::Name(x) => NextOperation::Name(x.clone()),
            _ => panic!("only names are used here"),
        })
        .collect()
}

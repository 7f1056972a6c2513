//! The message type constraints of the operations that route messages: a
//! stream out of a scope, a result fork, a clone fork, an unzip and a split.
//! Each names its ports, connects its outputs to their targets, and ties
//! the message types of its ports together by constraints.

use vstd::prelude::*;
use crate::constraints::{list_at, Inferences};
use crate::evaluation::Constraint;
use crate::gathering::{
    list_added, add_children, children_of, children_view, connect_keys, connected, constrained_named, entry_names, fixed_at,
    fixed_key, key_view, keeps, lemma_fixed_kept, lemma_keeps, list_add, names_view, next_key, next_port, redirect_keys, redirected, section_port, unconstrained, ChildOperation,
    GatherError, NextOperation, PortKey, PortKind, ScopeSchema,
};

verus! {

broadcast use vstd::std_specs::hash::group_hash_axioms;

/// How a constraint ties the message type of a port to another port.
#[derive(Clone, Copy, PartialEq, Eq, Structural)]
pub enum Link {
    /// Exactly the type of the other port.
    Exact,
    /// The ok branch of the result fork at the other port.
    OkFrom,
    /// The err branch of the result fork at the other port.
    ErrFrom,
    /// Element `0` of the unzip at the other port.
    UnzipOutput(usize),
    /// An output of the split at the other port.
    SplitOutput,
    /// The input of a buffer access whose output goes to the other port.
    BufferAccess,
}

/// The constraint that `link` puts on a port, with `t` the other port.
pub open spec fn link_constraint(link: Link, t: u64) -> Constraint {
    match link {
        Link::Exact => Constraint::ExactMatch(t),
        Link::OkFrom => Constraint::OkFrom(t),
        Link::ErrFrom => Constraint::ErrFrom(t),
        Link::UnzipOutput(e) => Constraint::UnzipOutput { op: t, element: e },
        Link::SplitOutput => Constraint::SplitOutput(t),
        Link::BufferAccess => Constraint::BufferAccessInput { target: t },
    }
}

/// The port named `k` carries constraint `c`.
pub open spec fn constrained_to(inf: &Inferences, k: (PortKind, Seq<Seq<char>>), c: Constraint) -> bool {
    exists|f: u64| #[trigger] inf.ports.named(f, k) && inf.constraints@.contains_key(f) && inf.constraints@[f] == c
}

/// The port named `from` is tied by `link` to the port named `to`.
pub open spec fn linked(inf: &Inferences, from: (PortKind, Seq<Seq<char>>), to: (PortKind, Seq<Seq<char>>), link: Link) -> bool {
    exists|t: u64| #[trigger] inf.ports.named(t, to) && constrained_to(inf, from, link_constraint(link, t))
}

/// Names survive a step that keeps the port table's earlier entries.
proof fn lemma_names_kept(old: &Inferences, new: &Inferences)
    requires
        old.ports.keys@.len() <= new.ports.keys@.len(),
        forall|i: int| 0 <= i < old.ports.keys@.len() ==> key_view(&new.ports.keys@[i]) == key_view(&old.ports.keys@[i]),
    ensures
        forall|id: u64, a: (PortKind, Seq<Seq<char>>)| #[trigger] old.ports.named(id, a) ==> new.ports.named(id, a),
{
    assert forall|id: u64, a: (PortKind, Seq<Seq<char>>)| #[trigger] old.ports.named(id, a) implies new.ports.named(id, a) by {
        assert(key_view(&new.ports.keys@[id as int]) == key_view(&old.ports.keys@[id as int]));
    }
}

/// Constraints survive a step that touched only the port `f` named `k`, on
/// every port not named `k`; and all of them survive where no constraint
/// changed.
proof fn lemma_constraints_kept(old: &Inferences, new: &Inferences, f: u64, k: (PortKind, Seq<Seq<char>>))
    requires
        keeps(old, new, f),
        new.ports.named(f, k),
        new.ports.wf(),
        constrained_named(old),
    ensures
        forall|a: (PortKind, Seq<Seq<char>>), c: Constraint| (a != k || new.constraints@ == old.constraints@)
            && #[trigger] constrained_to(old, a, c) ==> constrained_to(new, a, c),
        forall|a: (PortKind, Seq<Seq<char>>), b: (PortKind, Seq<Seq<char>>), l: Link| (a != k || new.constraints@ == old.constraints@)
            && #[trigger] linked(old, a, b, l) ==> linked(new, a, b, l),
        forall|id: u64, a: (PortKind, Seq<Seq<char>>)| #[trigger] old.ports.named(id, a) ==> new.ports.named(id, a),
{
    lemma_names_kept(old, new);
    assert forall|a: (PortKind, Seq<Seq<char>>), c: Constraint| (a != k || new.constraints@ == old.constraints@)
        && #[trigger] constrained_to(old, a, c) implies constrained_to(new, a, c) by {
        let x = choose|x: u64| #[trigger] old.ports.named(x, a) && old.constraints@.contains_key(x) && old.constraints@[x] == c;
        assert(new.ports.named(x, a));
        if new.constraints@ != old.constraints@ {
            assert(x != f);
        }
    }
    assert forall|a: (PortKind, Seq<Seq<char>>), b: (PortKind, Seq<Seq<char>>), l: Link| (a != k || new.constraints@ == old.constraints@)
        && #[trigger] linked(old, a, b, l) implies linked(new, a, b, l) by {
        let t = choose|t: u64| #[trigger] old.ports.named(t, b) && constrained_to(old, a, link_constraint(l, t));
        assert(new.ports.named(t, b));
        assert(constrained_to(new, a, link_constraint(l, t)));
    }
}

/// Two steps that each touched only port `f` touched only port `f`.
proof fn lemma_keeps_trans(a: &Inferences, b: &Inferences, c: &Inferences, f: u64)
    requires
        keeps(a, b, f),
        keeps(b, c, f),
    ensures
        keeps(a, c, f),
{
    assert forall|i: int| 0 <= i < a.ports.keys@.len() implies key_view(&c.ports.keys@[i]) == key_view(&a.ports.keys@[i]) by {
        assert(key_view(&b.ports.keys@[i]) == key_view(&a.ports.keys@[i]));
    }
}

/// The constraint that `link` puts on a port, with `t` the other port.
fn make_constraint(link: Link, t: u64) -> (c: Constraint)
    ensures
        c == link_constraint(link, t),
{
    match link {
        Link::Exact => Constraint::ExactMatch(t),
        Link::OkFrom => Constraint::OkFrom(t),
        Link::ErrFrom => Constraint::ErrFrom(t),
        Link::UnzipOutput(e) => Constraint::UnzipOutput { op: t, element: e },
        Link::SplitOutput => Constraint::SplitOutput(t),
        Link::BufferAccess => Constraint::BufferAccessInput { target: t },
    }
}

/// Put `c` on the port named `from`, naming it as needed. Returns its id.
fn constrain_key(inf: &mut Inferences, from: PortKey, c: Constraint) -> (f: u64)
    requires
        old(inf).wf(),
        constrained_named(old(inf)),
        unconstrained(old(inf), key_view(&from)),
    ensures
        final(inf).wf(),
        constrained_named(final(inf)),
        final(inf).ports.named(f, key_view(&from)),
        constrained_to(final(inf), key_view(&from), c),
        keeps(old(inf), final(inf), f),
        final(inf).connection_from@ == old(inf).connection_from@,
        final(inf).connections_into@ == old(inf).connections_into@,
        final(inf).constraints@ == old(inf).constraints@.insert(f, c),
        final(inf).buffer_hints@ == old(inf).buffer_hints@,
        final(inf).evaluations@.dom() == old(inf).evaluations@.dom().insert(f),
        forall|x: u64| x != f && #[trigger] old(inf).evaluations@.contains_key(x) ==> final(inf).evaluations@[x] == old(inf).evaluations@[x],
{
    let ghost fk = key_view(&from);
    let f = inf.ports.port(from);
    proof {
        if f < old(inf).ports.keys@.len() {
            assert(key_view(&inf.ports.keys@[f as int]) == key_view(&old(inf).ports.keys@[f as int]));
            assert(old(inf).ports.named(f, fk));
        }
        assert(inf.ports.named(f, fk));
    }
    inf.constrain(f, c);
    proof {
        assert(inf.ports.named(f, fk));
        assert forall|i: int| 0 <= i < old(inf).ports.keys@.len() implies key_view(&inf.ports.keys@[i]) == key_view(&old(inf).ports.keys@[i]) by {
            assert(inf.ports.keys@[i] == old(inf).ports.keys@[i]);
        }
    }
    f
}

/// Tie the port named `from` by `link` to the port named `to`, naming them
/// as needed. Returns the id of `from`.
fn link_keys(inf: &mut Inferences, from: PortKey, to: PortKey, link: Link) -> (f: u64)
    requires
        old(inf).wf(),
        constrained_named(old(inf)),
        unconstrained(old(inf), key_view(&from)),
    ensures
        final(inf).wf(),
        constrained_named(final(inf)),
        final(inf).ports.named(f, key_view(&from)),
        linked(final(inf), key_view(&from), key_view(&to), link),
        keeps(old(inf), final(inf), f),
        final(inf).connection_from@ == old(inf).connection_from@,
        final(inf).connections_into@ == old(inf).connections_into@,
        final(inf).buffer_hints@ == old(inf).buffer_hints@,
{
    let ghost tk = key_view(&to);
    let ghost s0 = *inf;
    let t = inf.ports.port(to);
    proof {
        lemma_names_kept(&s0, inf);
        assert(keeps(&s0, inf, t));
        assert forall|id: u64| #[trigger] inf.ports.named(id, key_view(&from)) implies !inf.constraints@.contains_key(id) by {
            if id < s0.ports.keys@.len() {
                assert(key_view(&inf.ports.keys@[id as int]) == key_view(&s0.ports.keys@[id as int]));
                assert(s0.ports.named(id, key_view(&from)));
            }
        }
    }
    let c = make_constraint(link, t);
    let ghost s1 = *inf;
    let f = constrain_key(inf, from, c);
    proof {
        lemma_names_kept(&s1, inf);
        assert(inf.ports.named(t, tk));
        assert(linked(&*inf, key_view(&from), tk, link));
        assert(keeps(&s0, &s1, f));
        lemma_keeps_trans(&s0, &s1, inf, f);
    }
    f
}

/// The id of the port named `key`, naming it as needed.
fn name_port(inf: &mut Inferences, key: PortKey) -> (id: u64)
    requires
        old(inf).wf(),
        constrained_named(old(inf)),
    ensures
        final(inf).wf(),
        constrained_named(final(inf)),
        final(inf).ports.named(id, key_view(&key)),
        forall|x: u64| keeps(old(inf), final(inf), x),
        final(inf).connection_from@ == old(inf).connection_from@,
        final(inf).connections_into@ == old(inf).connections_into@,
        final(inf).constraints@ == old(inf).constraints@,
        final(inf).buffer_hints@ == old(inf).buffer_hints@,
        final(inf).evaluations@ == old(inf).evaluations@,
        forall|a: (PortKind, Seq<Seq<char>>)| #[trigger] unconstrained(old(inf), a) ==> unconstrained(final(inf), a),
{
    let id = inf.ports.port(key);
    proof {
        lemma_names_kept(old(inf), inf);
        assert forall|x: u64| keeps(old(inf), inf, x) by {
            assert forall|i: int| 0 <= i < old(inf).ports.keys@.len() implies key_view(&inf.ports.keys@[i]) == key_view(&old(inf).ports.keys@[i]) by {
                assert(inf.ports.keys@[i] == old(inf).ports.keys@[i]);
            }
        }
        assert forall|a: (PortKind, Seq<Seq<char>>)| #[trigger] unconstrained(old(inf), a) implies unconstrained(&*inf, a) by {
            assert forall|j: u64| #[trigger] inf.ports.named(j, a) implies !inf.constraints@.contains_key(j) by {
                if inf.constraints@.contains_key(j) {
                    assert(j < old(inf).ports.keys@.len());
                    assert(inf.ports.keys@[j as int] == old(inf).ports.keys@[j as int]);
                    assert(old(inf).ports.named(j, a));
                }
            }
        }
    }
    id
}

/// Operation `id` is a result fork whose branches go to the ports named
/// `ok` and `err`.
pub open spec fn result_into(inf: &Inferences, op: (PortKind, Seq<Seq<char>>), ok: (PortKind, Seq<Seq<char>>), err: (PortKind, Seq<Seq<char>>)) -> bool {
    exists|o: u64, a: u64, b: u64|
        #![trigger inf.ports.named(o, op), inf.ports.named(a, ok), inf.ports.named(b, err)]
        inf.ports.named(o, op) && inf.ports.named(a, ok) && inf.ports.named(b, err)
        && constrained_to(inf, op, Constraint::ResultInto { operation: o, ok: a, err: b })
}

/// The name of output `key` of operation `id` in namespaces `ns`.
pub open spec fn output_key(ns: Seq<Seq<char>>, id: Seq<char>, key: Seq<char>) -> (PortKind, Seq<Seq<char>>) {
    (PortKind::Output, ns.push(id).push(key))
}

/// The name of the input of operation `id` in namespaces `ns`.
pub open spec fn input_key(ns: Seq<Seq<char>>, id: Seq<char>) -> (PortKind, Seq<Seq<char>>) {
    (PortKind::Input, ns.push(id))
}

/// The port of output `key` of operation `id` in namespaces `ns`.
fn output_port(ns: &Vec<String>, id: &String, key: &str) -> (k: PortKey)
    ensures
        key_view(&k) == output_key(names_view(ns@), id@, key@),
{
    let k = section_port(ns, id, PortKind::Output, vec![key.to_string()]);
    proof {
        assert(names_view(k.path@) =~= names_view(ns@).push(id@).push(key@));
    }
    k
}

/// The port of the input of operation `id` in namespaces `ns`.
fn input_port(ns: &Vec<String>, id: &String) -> (k: PortKey)
    ensures
        key_view(&k) == input_key(names_view(ns@), id@),
{
    let k = section_port(ns, id, PortKind::Input, Vec::new());
    proof {
        assert(names_view(k.path@) =~= names_view(ns@).push(id@));
    }
    k
}

/// The constraints of result fork `id` in namespaces `ns` whose branches go
/// to `ok` and `err`: each branch carries the ok or err type of the fork's
/// input, the input is a result of what the branches take, and each branch
/// connects to its target.
pub fn result_constraints(inferences: &mut Inferences, id: &String, ok: &NextOperation, err: &NextOperation, namespaces: &Vec<String>)
    requires
        old(inferences).wf(),
        constrained_named(old(inferences)),
        unconstrained(old(inferences), input_key(names_view(namespaces@), id@)),
        unconstrained(old(inferences), output_key(names_view(namespaces@), id@, "ok"@)),
        unconstrained(old(inferences), output_key(names_view(namespaces@), id@, "err"@)),
    ensures
        final(inferences).wf(),
        constrained_named(final(inferences)),
        ({
            let nsv = names_view(namespaces@);
            let op = input_key(nsv, id@);
            let ok_out = output_key(nsv, id@, "ok"@);
            let err_out = output_key(nsv, id@, "err"@);
            &&& linked(final(inferences), ok_out, op, Link::OkFrom)
            &&& linked(final(inferences), err_out, op, Link::ErrFrom)
            &&& result_into(final(inferences), op, next_key(nsv, *ok), next_key(nsv, *err))
            &&& connected(final(inferences), ok_out, next_key(nsv, *ok))
            &&& connected(final(inferences), err_out, next_key(nsv, *err))
        }),
{
    let ghost nsv = names_view(namespaces@);
    let ghost op = input_key(nsv, id@);
    let ghost ok_out = output_key(nsv, id@, "ok"@);
    let ghost err_out = output_key(nsv, id@, "err"@);
    proof {
        reveal_strlit("ok");
        reveal_strlit("err");
        assert("ok"@.len() != "err"@.len());
        assert(ok_out.1.last() != err_out.1.last());
        assert(ok_out != err_out);
        assert(op != ok_out && op != err_out);
    }
    let ghost s0 = *inferences;
    let f1 = link_keys(inferences, output_port(namespaces, id, "ok"), input_port(namespaces, id), Link::OkFrom);
    proof {
        lemma_keeps(&s0, inferences, f1, ok_out);
    }
    let ghost s1 = *inferences;
    let f2 = link_keys(inferences, output_port(namespaces, id, "err"), input_port(namespaces, id), Link::ErrFrom);
    proof {
        lemma_keeps(&s1, inferences, f2, err_out);
        lemma_constraints_kept(&s1, inferences, f2, err_out);
    }
    let ghost s2 = *inferences;
    let o = name_port(inferences, input_port(namespaces, id));
    let ghost sa = *inferences;
    let a = name_port(inferences, next_port(namespaces, ok));
    let ghost sb = *inferences;
    let b = name_port(inferences, next_port(namespaces, err));
    proof {
        assert(keeps(&s2, &sa, o) && keeps(&sa, &sb, o) && keeps(&sb, inferences, o));
        lemma_keeps_trans(&s2, &sa, &sb, o);
        lemma_keeps_trans(&s2, &sb, inferences, o);
        assert(inferences.ports.named(o, op)) by {
            lemma_names_kept(&sa, &sb);
            lemma_names_kept(&sb, inferences);
        }
        lemma_names_kept(&sb, inferences);
        lemma_constraints_kept(&s2, inferences, o, op);
        assert(unconstrained(&*inferences, op));
    }
    let ghost s3 = *inferences;
    let f3 = constrain_key(inferences, input_port(namespaces, id), Constraint::ResultInto { operation: o, ok: a, err: b });
    proof {
        lemma_keeps(&s3, inferences, f3, op);
        lemma_constraints_kept(&s3, inferences, f3, op);
        assert(inferences.ports.named(o, op) && inferences.ports.named(a, next_key(nsv, *ok)) && inferences.ports.named(b, next_key(nsv, *err)));
        assert(result_into(&*inferences, op, next_key(nsv, *ok), next_key(nsv, *err)));
    }
    let ghost s4 = *inferences;
    let f4 = connect_keys(inferences, output_port(namespaces, id, "ok"), next_port(namespaces, ok));
    proof {
        lemma_keeps(&s4, inferences, f4, ok_out);
        lemma_constraints_kept(&s4, inferences, f4, ok_out);
        assert(result_into(&*inferences, op, next_key(nsv, *ok), next_key(nsv, *err))) by {
            let (x, y, z) = choose|x: u64, y: u64, z: u64|
                #![trigger s4.ports.named(x, op), s4.ports.named(y, next_key(nsv, *ok)), s4.ports.named(z, next_key(nsv, *err))]
                s4.ports.named(x, op) && s4.ports.named(y, next_key(nsv, *ok)) && s4.ports.named(z, next_key(nsv, *err))
                && constrained_to(&s4, op, Constraint::ResultInto { operation: x, ok: y, err: z });
            assert(inferences.ports.named(x, op) && inferences.ports.named(y, next_key(nsv, *ok)) && inferences.ports.named(z, next_key(nsv, *err)));
        }
    }
    let ghost s5 = *inferences;
    let f5 = connect_keys(inferences, output_port(namespaces, id, "err"), next_port(namespaces, err));
    proof {
        lemma_keeps(&s5, inferences, f5, err_out);
        lemma_constraints_kept(&s5, inferences, f5, err_out);
        assert(result_into(&*inferences, op, next_key(nsv, *ok), next_key(nsv, *err))) by {
            let (x, y, z) = choose|x: u64, y: u64, z: u64|
                #![trigger s5.ports.named(x, op), s5.ports.named(y, next_key(nsv, *ok)), s5.ports.named(z, next_key(nsv, *err))]
                s5.ports.named(x, op) && s5.ports.named(y, next_key(nsv, *ok)) && s5.ports.named(z, next_key(nsv, *err))
                && constrained_to(&s5, op, Constraint::ResultInto { operation: x, ok: y, err: z });
            assert(inferences.ports.named(x, op) && inferences.ports.named(y, next_key(nsv, *ok)) && inferences.ports.named(z, next_key(nsv, *err)));
        }
    }
}

/// The name of output number `i` of operation `id` in namespaces `ns`.
pub open spec fn element_key(ns: Seq<Seq<char>>, id: Seq<char>, i: usize) -> (PortKind, Seq<Seq<char>>) {
    (PortKind::Element(i), ns.push(id).push("next"@))
}

/// The port of output number `i` of operation `id` in namespaces `ns`.
fn element_port(ns: &Vec<String>, id: &String, i: usize) -> (k: PortKey)
    ensures
        key_view(&k) == element_key(names_view(ns@), id@, i),
{
    let k = section_port(ns, id, PortKind::Element(i), vec!["next".to_string()]);
    proof {
        assert(names_view(k.path@) =~= names_view(ns@).push(id@).push("next"@));
    }
    k
}

/// The names that each of `next` refers to from namespaces `ns`.
pub open spec fn next_keys(ns: Seq<Seq<char>>, next: Seq<NextOperation>) -> Seq<(PortKind, Seq<Seq<char>>)> {
    next.map_values(|n: NextOperation| next_key(ns, n))
}

/// Operation `op` is a clone whose copies go to the ports named `targets`,
/// in order.
pub open spec fn clone_into(inf: &Inferences, op: (PortKind, Seq<Seq<char>>), targets: Seq<(PortKind, Seq<Seq<char>>)>) -> bool {
    exists|o: u64| #[trigger] inf.ports.named(o, op) && inf.constraints@.contains_key(o) && clones_to(inf, o, targets)
}

/// The constraint on port `o` is a clone of `o` whose copies go to the
/// ports named `targets`, in order.
pub open spec fn clones_to(inf: &Inferences, o: u64, targets: Seq<(PortKind, Seq<Seq<char>>)>) -> bool {
    &&& inf.constraints@[o] is CloneInput
    &&& inf.constraints@[o]->CloneInput_operation == o
    &&& inf.constraints@[o]->CloneInput_targets@.len() == targets.len()
    &&& forall|j: int| 0 <= j < targets.len() ==> inf.ports.named(#[trigger] inf.constraints@[o]->CloneInput_targets@[j], targets[j])
}

/// What the numbered outputs of a routing operation carry.
#[derive(Clone, Copy, PartialEq, Eq, Structural)]
pub enum Route {
    /// A copy of what the operation takes.
    Copy,
    /// Element number `j` of what the operation takes.
    Unzip,
    /// An item of what the operation takes.
    Split,
}

/// How output number `j` of a routing operation is tied to its input.
pub open spec fn route_link(route: Route, j: usize) -> Link {
    match route {
        Route::Copy => Link::Exact,
        Route::Unzip => Link::UnzipOutput(j),
        Route::Split => Link::SplitOutput,
    }
}

fn make_route_link(route: Route, j: usize) -> (l: Link)
    ensures
        l == route_link(route, j),
{
    match route {
        Route::Copy => Link::Exact,
        Route::Unzip => Link::UnzipOutput(j),
        Route::Split => Link::SplitOutput,
    }
}

/// Every output number `j` of operation `id` connects into the port named
/// `targets[j]` and is tied to the operation's input as `route` says.
pub open spec fn routed_out(inf: &Inferences, ns: Seq<Seq<char>>, id: Seq<char>, targets: Seq<(PortKind, Seq<Seq<char>>)>, route: Route) -> bool {
    forall|j: int| 0 <= j < targets.len() ==> connected(inf, #[trigger] element_key(ns, id, j as usize), targets[j])
        && linked(inf, element_key(ns, id, j as usize), input_key(ns, id), route_link(route, j as usize))
}

/// Connect each numbered output of operation `id` to its target in `next`
/// and tie it to the operation's input as `route` says. Returns the ids of
/// the targets.
fn route_outputs(inferences: &mut Inferences, id: &String, next: &Vec<NextOperation>, namespaces: &Vec<String>, route: Route) -> (targets: Vec<u64>)
    requires
        old(inferences).wf(),
        constrained_named(old(inferences)),
        forall|j: int| 0 <= j < next@.len() ==> unconstrained(old(inferences), #[trigger] element_key(names_view(namespaces@), id@, j as usize)),
    ensures
        final(inferences).wf(),
        constrained_named(final(inferences)),
        routed_out(final(inferences), names_view(namespaces@), id@, next_keys(names_view(namespaces@), next@), route),
        targets@.len() == next@.len(),
        forall|j: int| 0 <= j < next@.len() ==> final(inferences).ports.named(#[trigger] targets@[j], next_keys(names_view(namespaces@), next@)[j]),
        forall|a: (PortKind, Seq<Seq<char>>)| !(a.0 is Element) && #[trigger] unconstrained(old(inferences), a) ==> unconstrained(final(inferences), a),
        forall|a: (PortKind, Seq<Seq<char>>), b: (PortKind, Seq<Seq<char>>)| !(a.0 is Element) && #[trigger] connected(old(inferences), a, b) ==> connected(final(inferences), a, b),
        forall|a: (PortKind, Seq<Seq<char>>), b: (PortKind, Seq<Seq<char>>), l: Link| !(a.0 is Element) && #[trigger] linked(old(inferences), a, b, l) ==> linked(final(inferences), a, b, l),
        forall|id: u64, a: (PortKind, Seq<Seq<char>>)| #[trigger] old(inferences).ports.named(id, a) ==> final(inferences).ports.named(id, a),
{
    let ghost nsv = names_view(namespaces@);
    let ghost op = input_key(nsv, id@);
    let ghost tks = next_keys(nsv, next@);
    let mut targets: Vec<u64> = Vec::new();
    let mut i: usize = 0;
    while i < next.len()
        invariant
            i <= next@.len(),
            inferences.wf(),
            constrained_named(&*inferences),
            nsv == names_view(namespaces@),
            op == input_key(nsv, id@),
            tks == next_keys(nsv, next@),
            targets@.len() == i,
            forall|j: int| 0 <= j < i ==> inferences.ports.named(#[trigger] targets@[j], tks[j]),
            forall|j: int| 0 <= j < i ==> connected(&*inferences, #[trigger] element_key(nsv, id@, j as usize), tks[j])
                && linked(&*inferences, element_key(nsv, id@, j as usize), op, route_link(route, j as usize)),
            forall|j: int| i <= j < next@.len() ==> unconstrained(&*inferences, #[trigger] element_key(nsv, id@, j as usize)),
            forall|a: (PortKind, Seq<Seq<char>>)| !(a.0 is Element) && #[trigger] unconstrained(old(inferences), a) ==> unconstrained(&*inferences, a),
            forall|a: (PortKind, Seq<Seq<char>>), b: (PortKind, Seq<Seq<char>>)| !(a.0 is Element) && #[trigger] connected(old(inferences), a, b) ==> connected(&*inferences, a, b),
            forall|a: (PortKind, Seq<Seq<char>>), b: (PortKind, Seq<Seq<char>>), l: Link| !(a.0 is Element) && #[trigger] linked(old(inferences), a, b, l) ==> linked(&*inferences, a, b, l),
            forall|x: u64, a: (PortKind, Seq<Seq<char>>)| #[trigger] old(inferences).ports.named(x, a) ==> inferences.ports.named(x, a),
        decreases next@.len() - i,
    {
        let ghost ek = element_key(nsv, id@, i);
        let ghost tk = tks[i as int];
        let ghost s0 = *inferences;
        assert(unconstrained(&s0, element_key(nsv, id@, (i as int) as usize)));
        assert(unconstrained(&s0, ek));
        let t = name_port(inferences, next_port(namespaces, &next[i]));
        proof {
            lemma_keeps(&s0, inferences, t, tk);
            lemma_constraints_kept(&s0, inferences, t, tk);
            assert(unconstrained(&*inferences, ek));
        }
        let ghost s1 = *inferences;
        let link = make_route_link(route, i);
        let f1 = link_keys(inferences, element_port(namespaces, id, i), input_port(namespaces, id), link);
        proof {
            lemma_keeps(&s1, inferences, f1, ek);
            lemma_constraints_kept(&s1, inferences, f1, ek);
        }
        let ghost s2 = *inferences;
        let f2 = connect_keys(inferences, element_port(namespaces, id, i), next_port(namespaces, &next[i]));
        proof {
            lemma_keeps(&s2, inferences, f2, ek);
            lemma_constraints_kept(&s2, inferences, f2, ek);
        }
        targets.push(t);
        proof {
            assert forall|j: int| 0 <= j < i + 1 implies inferences.ports.named(#[trigger] targets@[j], tks[j]) by {
                if j < i {
                    assert(s0.ports.named(targets@[j], tks[j]));
                }
            }
            assert forall|j: int| 0 <= j < i + 1 implies connected(&*inferences, #[trigger] element_key(nsv, id@, j as usize), tks[j])
                && linked(&*inferences, element_key(nsv, id@, j as usize), op, route_link(route, j as usize)) by {
                if j < i {
                    assert(element_key(nsv, id@, j as usize) != ek);
                    assert(connected(&s0, element_key(nsv, id@, j as usize), tks[j]));
                }
            }
        }
        i += 1;
    }
    targets
}

/// The constraints of clone fork `id` in namespaces `ns` whose copies go to
/// `next`, in order: each copy connects to its target and carries what the
/// fork takes, and the fork takes what its inputs and targets settle on.
pub fn fork_clone_constraints(inferences: &mut Inferences, id: &String, next: &Vec<NextOperation>, namespaces: &Vec<String>)
    requires
        old(inferences).wf(),
        constrained_named(old(inferences)),
        unconstrained(old(inferences), input_key(names_view(namespaces@), id@)),
        forall|j: int| 0 <= j < next@.len() ==> unconstrained(old(inferences), #[trigger] element_key(names_view(namespaces@), id@, j as usize)),
    ensures
        final(inferences).wf(),
        constrained_named(final(inferences)),
        routed_out(final(inferences), names_view(namespaces@), id@, next_keys(names_view(namespaces@), next@), Route::Copy),
        clone_into(final(inferences), input_key(names_view(namespaces@), id@), next_keys(names_view(namespaces@), next@)),
{
    let ghost nsv = names_view(namespaces@);
    let ghost op = input_key(nsv, id@);
    let ghost tks = next_keys(nsv, next@);
    let targets = route_outputs(inferences, id, next, namespaces, Route::Copy);
    let ghost s3 = *inferences;
    let o = name_port(inferences, input_port(namespaces, id));
    proof {
        lemma_keeps(&s3, inferences, o, op);
        lemma_constraints_kept(&s3, inferences, o, op);
    }
    let ghost s4 = *inferences;
    let f = constrain_key(inferences, input_port(namespaces, id), Constraint::CloneInput { operation: o, targets });
    proof {
        lemma_keeps(&s4, inferences, f, op);
        lemma_constraints_kept(&s4, inferences, f, op);
        assert(o == f);
        assert(clone_into(&*inferences, op, tks));
        assert forall|j: int| 0 <= j < tks.len() implies connected(&*inferences, #[trigger] element_key(nsv, id@, j as usize), tks[j])
            && linked(&*inferences, element_key(nsv, id@, j as usize), op, route_link(Route::Copy, j as usize)) by {
            assert(element_key(nsv, id@, j as usize) != op);
            assert(connected(&s3, element_key(nsv, id@, j as usize), tks[j]));
        }
    }
}

/// The port named `op` is an unzip or a split of what it takes itself.
pub open spec fn self_constrained(inf: &Inferences, op: (PortKind, Seq<Seq<char>>), unzip: bool) -> bool {
    exists|o: u64| #[trigger] inf.ports.named(o, op) && inf.constraints@.contains_key(o)
        && inf.constraints@[o] == (if unzip { Constraint::UnzipInput(o) } else { Constraint::SplitInput(o) })
}

/// Put on operation `id` the constraint that it unzips (or splits) what it
/// takes.
fn constrain_self(inferences: &mut Inferences, id: &String, namespaces: &Vec<String>, unzip: bool)
    requires
        old(inferences).wf(),
        constrained_named(old(inferences)),
        unconstrained(old(inferences), input_key(names_view(namespaces@), id@)),
    ensures
        final(inferences).wf(),
        constrained_named(final(inferences)),
        self_constrained(final(inferences), input_key(names_view(namespaces@), id@), unzip),
        forall|a: (PortKind, Seq<Seq<char>>)| a != input_key(names_view(namespaces@), id@) && #[trigger] unconstrained(old(inferences), a) ==> unconstrained(final(inferences), a),
        forall|a: (PortKind, Seq<Seq<char>>), b: (PortKind, Seq<Seq<char>>)| #[trigger] connected(old(inferences), a, b) ==> connected(final(inferences), a, b),
        forall|a: (PortKind, Seq<Seq<char>>), b: (PortKind, Seq<Seq<char>>), l: Link| a != input_key(names_view(namespaces@), id@) && #[trigger] linked(old(inferences), a, b, l) ==> linked(final(inferences), a, b, l),
{
    let ghost op = input_key(names_view(namespaces@), id@);
    let ghost s3 = *inferences;
    let o = name_port(inferences, input_port(namespaces, id));
    proof {
        lemma_keeps(&s3, inferences, o, op);
        lemma_constraints_kept(&s3, inferences, o, op);
    }
    let ghost s4 = *inferences;
    let c = if unzip { Constraint::UnzipInput(o) } else { Constraint::SplitInput(o) };
    let f = constrain_key(inferences, input_port(namespaces, id), c);
    proof {
        lemma_keeps(&s4, inferences, f, op);
        lemma_constraints_kept(&s4, inferences, f, op);
        assert(o == f);
        assert(self_constrained(&*inferences, op, unzip));
        assert forall|a: (PortKind, Seq<Seq<char>>), b: (PortKind, Seq<Seq<char>>)| #[trigger] connected(&s3, a, b) implies connected(&*inferences, a, b) by {
            let (x, y) = choose|x: u64, y: u64|
                #![trigger s3.ports.named(x, a), s3.ports.named(y, b)]
                s3.ports.named(x, a) && s3.ports.named(y, b)
                && s3.connection_from@.contains_key(x) && s3.connection_from@[x] == y
                && crate::constraints::list_at(s3.connections_into@, y).contains(x);
            assert(inferences.ports.named(x, a) && inferences.ports.named(y, b));
        }
    }
}

/// The constraints of unzip `id` in namespaces `ns` whose elements go to
/// `next`, in order: element `j` connects to its target and carries element
/// `j` of what the unzip takes, which its inputs settle.
pub fn unzip_constraints(inferences: &mut Inferences, id: &String, next: &Vec<NextOperation>, namespaces: &Vec<String>)
    requires
        old(inferences).wf(),
        constrained_named(old(inferences)),
        unconstrained(old(inferences), input_key(names_view(namespaces@), id@)),
        forall|j: int| 0 <= j < next@.len() ==> unconstrained(old(inferences), #[trigger] element_key(names_view(namespaces@), id@, j as usize)),
    ensures
        final(inferences).wf(),
        constrained_named(final(inferences)),
        routed_out(final(inferences), names_view(namespaces@), id@, next_keys(names_view(namespaces@), next@), Route::Unzip),
        self_constrained(final(inferences), input_key(names_view(namespaces@), id@), true),
{
    let ghost nsv = names_view(namespaces@);
    let ghost op = input_key(nsv, id@);
    let ghost tks = next_keys(nsv, next@);
    let _ = route_outputs(inferences, id, next, namespaces, Route::Unzip);
    let ghost s = *inferences;
    constrain_self(inferences, id, namespaces, true);
    proof {
        assert forall|j: int| 0 <= j < tks.len() implies connected(&*inferences, #[trigger] element_key(nsv, id@, j as usize), tks[j])
            && linked(&*inferences, element_key(nsv, id@, j as usize), op, route_link(Route::Unzip, j as usize)) by {
            assert(element_key(nsv, id@, j as usize) != op);
            assert(connected(&s, element_key(nsv, id@, j as usize), tks[j]));
            assert(linked(&s, element_key(nsv, id@, j as usize), op, route_link(Route::Unzip, j as usize)));
        }
    }
}

/// Tie output `out` by `link` to the port named `to`, and connect it into
/// the port named `target`.
fn route_one(inferences: &mut Inferences, out: PortKey, out2: PortKey, to: PortKey, target: PortKey, link: Link)
    requires
        old(inferences).wf(),
        constrained_named(old(inferences)),
        key_view(&out) == key_view(&out2),
        unconstrained(old(inferences), key_view(&out)),
    ensures
        final(inferences).wf(),
        constrained_named(final(inferences)),
        connected(final(inferences), key_view(&out), key_view(&target)),
        linked(final(inferences), key_view(&out), key_view(&to), link),
        forall|a: (PortKind, Seq<Seq<char>>)| a != key_view(&out) && #[trigger] unconstrained(old(inferences), a) ==> unconstrained(final(inferences), a),
        forall|a: (PortKind, Seq<Seq<char>>), b: (PortKind, Seq<Seq<char>>)| a != key_view(&out) && #[trigger] connected(old(inferences), a, b) ==> connected(final(inferences), a, b),
        forall|a: (PortKind, Seq<Seq<char>>), b: (PortKind, Seq<Seq<char>>), l: Link| a != key_view(&out) && #[trigger] linked(old(inferences), a, b, l) ==> linked(final(inferences), a, b, l),
        final(inferences).buffer_hints@ == old(inferences).buffer_hints@,
        forall|x: u64, a: (PortKind, Seq<Seq<char>>)| #[trigger] old(inferences).ports.named(x, a) ==> final(inferences).ports.named(x, a),
{
    let ghost ek = key_view(&out);
    let ghost s1 = *inferences;
    let f1 = link_keys(inferences, out, to, link);
    proof {
        lemma_keeps(&s1, inferences, f1, ek);
        lemma_constraints_kept(&s1, inferences, f1, ek);
    }
    let ghost s2 = *inferences;
    let f2 = connect_keys(inferences, out2, target);
    proof {
        lemma_keeps(&s2, inferences, f2, ek);
        lemma_constraints_kept(&s2, inferences, f2, ek);
    }
}

/// The name of output `key` among the keyed outputs of split `id` in
/// namespaces `ns`.
pub open spec fn keyed_key(ns: Seq<Seq<char>>, id: Seq<char>, key: Seq<char>) -> (PortKind, Seq<Seq<char>>) {
    (PortKind::Output, ns.push(id).push("keyed"@).push(key))
}

fn keyed_port(ns: &Vec<String>, id: &String, key: &String) -> (k: PortKey)
    ensures
        key_view(&k) == keyed_key(names_view(ns@), id@, key@),
{
    let k = section_port(ns, id, PortKind::Output, vec!["keyed".to_string(), key.clone()]);
    proof {
        assert(names_view(k.path@) =~= names_view(ns@).push(id@).push("keyed"@).push(key@));
    }
    k
}

/// The keyed outputs of split `id` connect into their targets and carry
/// items of what the split takes.
pub open spec fn keyed_out(inf: &Inferences, ns: Seq<Seq<char>>, id: Seq<char>, keyed: Seq<(String, NextOperation)>) -> bool {
    forall|j: int| 0 <= j < keyed.len() ==> connected(inf, keyed_key(ns, id, (#[trigger] keyed[j]).0@), next_key(ns, keyed[j].1))
        && linked(inf, keyed_key(ns, id, keyed[j].0@), input_key(ns, id), Link::SplitOutput)
}

/// The constraints of split `id` in namespaces `ns`: its sequential outputs
/// go to `sequential` in order, its keyed outputs to their targets in
/// `keyed`, and what remains to `remaining`, if anything; each carries an
/// item of what the split takes, which its inputs settle.
pub fn split_constraints(
    inferences: &mut Inferences,
    id: &String,
    sequential: &Vec<NextOperation>,
    keyed: &Vec<(String, NextOperation)>,
    remaining: &Option<NextOperation>,
    namespaces: &Vec<String>,
)
    requires
        old(inferences).wf(),
        constrained_named(old(inferences)),
        entry_names(keyed@).no_duplicates(),
        unconstrained(old(inferences), input_key(names_view(namespaces@), id@)),
        forall|j: int| 0 <= j < sequential@.len() ==> unconstrained(old(inferences), #[trigger] element_key(names_view(namespaces@), id@, j as usize)),
        forall|j: int| 0 <= j < keyed@.len() ==> unconstrained(old(inferences), keyed_key(names_view(namespaces@), id@, (#[trigger] keyed@[j]).0@)),
        remaining is Some ==> unconstrained(old(inferences), output_key(names_view(namespaces@), id@, "remaining"@)),
    ensures
        final(inferences).wf(),
        constrained_named(final(inferences)),
        ({
            let nsv = names_view(namespaces@);
            &&& routed_out(final(inferences), nsv, id@, next_keys(nsv, sequential@), Route::Split)
            &&& keyed_out(final(inferences), nsv, id@, keyed@)
            &&& remaining matches Some(t) ==> connected(final(inferences), output_key(nsv, id@, "remaining"@), next_key(nsv, *t))
                && linked(final(inferences), output_key(nsv, id@, "remaining"@), input_key(nsv, id@), Link::SplitOutput)
            &&& self_constrained(final(inferences), input_key(nsv, id@), false)
        }),
{
    let ghost nsv = names_view(namespaces@);
    let ghost op = input_key(nsv, id@);
    let ghost tks = next_keys(nsv, sequential@);
    let ghost rk = output_key(nsv, id@, "remaining"@);
    proof {
        reveal_strlit("remaining");
        reveal_strlit("keyed");
        assert forall|j: int| 0 <= j < keyed@.len() implies keyed_key(nsv, id@, (#[trigger] keyed@[j]).0@) != rk by {
            assert(keyed_key(nsv, id@, keyed@[j].0@).1.len() != rk.1.len());
        }
    }
    let _ = route_outputs(inferences, id, sequential, namespaces, Route::Split);
    let ghost s0 = *inferences;
    proof {
        assert forall|j: int| 0 <= j < keyed@.len() implies unconstrained(&s0, keyed_key(nsv, id@, (#[trigger] keyed@[j]).0@)) by {
            assert(unconstrained(old(inferences), keyed_key(nsv, id@, keyed@[j].0@)));
        }
    }
    let mut i: usize = 0;
    while i < keyed.len()
        invariant
            i <= keyed@.len(),
            inferences.wf(),
            constrained_named(&*inferences),
            nsv == names_view(namespaces@),
            op == input_key(nsv, id@),
            tks == next_keys(nsv, sequential@),
            rk == output_key(nsv, id@, "remaining"@),
            entry_names(keyed@).no_duplicates(),
            forall|j: int| 0 <= j < keyed@.len() ==> keyed_key(nsv, id@, (#[trigger] keyed@[j]).0@) != rk,
            routed_out(&*inferences, nsv, id@, tks, Route::Split),
            forall|j: int| 0 <= j < i ==> connected(&*inferences, keyed_key(nsv, id@, (#[trigger] keyed@[j]).0@), next_key(nsv, keyed@[j].1))
                && linked(&*inferences, keyed_key(nsv, id@, keyed@[j].0@), op, Link::SplitOutput),
            forall|j: int| i <= j < keyed@.len() ==> unconstrained(&*inferences, keyed_key(nsv, id@, (#[trigger] keyed@[j]).0@)),
            unconstrained(&*inferences, op),
            remaining is Some ==> unconstrained(&*inferences, rk),
        decreases keyed@.len() - i,
    {
        let ghost kk = keyed_key(nsv, id@, keyed@[i as int].0@);
        let ghost s = *inferences;
        route_one(inferences, keyed_port(namespaces, id, &keyed[i].0), keyed_port(namespaces, id, &keyed[i].0),
            input_port(namespaces, id), next_port(namespaces, &keyed[i].1), Link::SplitOutput);
        proof {
            assert forall|j: int| 0 <= j < sequential@.len() implies connected(&*inferences, #[trigger] element_key(nsv, id@, j as usize), tks[j])
                && linked(&*inferences, element_key(nsv, id@, j as usize), op, route_link(Route::Split, j as usize)) by {
                assert(connected(&s, element_key(nsv, id@, j as usize), tks[j]));
                assert(linked(&s, element_key(nsv, id@, j as usize), op, route_link(Route::Split, j as usize)));
            }
            assert forall|j: int| 0 <= j < i + 1 implies connected(&*inferences, keyed_key(nsv, id@, (#[trigger] keyed@[j]).0@), next_key(nsv, keyed@[j].1))
                && linked(&*inferences, keyed_key(nsv, id@, keyed@[j].0@), op, Link::SplitOutput) by {
                if j < i {
                    assert(entry_names(keyed@)[j] != entry_names(keyed@)[i as int]);
                    assert(keyed_key(nsv, id@, keyed@[j].0@) != kk);
                    assert(connected(&s, keyed_key(nsv, id@, keyed@[j].0@), next_key(nsv, keyed@[j].1)));
                    assert(linked(&s, keyed_key(nsv, id@, keyed@[j].0@), op, Link::SplitOutput));
                }
            }
            assert forall|j: int| i + 1 <= j < keyed@.len() implies unconstrained(&*inferences, keyed_key(nsv, id@, (#[trigger] keyed@[j]).0@)) by {
                assert(entry_names(keyed@)[j] != entry_names(keyed@)[i as int]);
                assert(keyed@[j].0@ != keyed@[i as int].0@);
                assert(keyed_key(nsv, id@, keyed@[j].0@).1.last() != kk.1.last());
                assert(keyed_key(nsv, id@, keyed@[j].0@) != kk);
                assert(unconstrained(&s, keyed_key(nsv, id@, keyed@[j].0@)));
            }
        }
        i += 1;
    }
    let ghost s1 = *inferences;
    match remaining {
        Some(t) => {
            route_one(inferences, output_port(namespaces, id, "remaining"), output_port(namespaces, id, "remaining"),
                input_port(namespaces, id), next_port(namespaces, t), Link::SplitOutput);
            proof {
                assert forall|j: int| 0 <= j < sequential@.len() implies connected(&*inferences, #[trigger] element_key(nsv, id@, j as usize), tks[j])
                    && linked(&*inferences, element_key(nsv, id@, j as usize), op, route_link(Route::Split, j as usize)) by {
                    assert(connected(&s1, element_key(nsv, id@, j as usize), tks[j]));
                    assert(linked(&s1, element_key(nsv, id@, j as usize), op, route_link(Route::Split, j as usize)));
                }
                assert forall|j: int| 0 <= j < keyed@.len() implies connected(&*inferences, keyed_key(nsv, id@, (#[trigger] keyed@[j]).0@), next_key(nsv, keyed@[j].1))
                    && linked(&*inferences, keyed_key(nsv, id@, keyed@[j].0@), op, Link::SplitOutput) by {
                    assert(connected(&s1, keyed_key(nsv, id@, keyed@[j].0@), next_key(nsv, keyed@[j].1)));
                    assert(linked(&s1, keyed_key(nsv, id@, keyed@[j].0@), op, Link::SplitOutput));
                }
            }
        },
        None => {},
    }
    let ghost s2 = *inferences;
    constrain_self(inferences, id, namespaces, false);
    proof {
        assert forall|j: int| 0 <= j < sequential@.len() implies connected(&*inferences, #[trigger] element_key(nsv, id@, j as usize), tks[j])
            && linked(&*inferences, element_key(nsv, id@, j as usize), op, route_link(Route::Split, j as usize)) by {
            assert(connected(&s2, element_key(nsv, id@, j as usize), tks[j]));
            assert(linked(&s2, element_key(nsv, id@, j as usize), op, route_link(Route::Split, j as usize)));
        }
        assert forall|j: int| 0 <= j < keyed@.len() implies connected(&*inferences, keyed_key(nsv, id@, (#[trigger] keyed@[j]).0@), next_key(nsv, keyed@[j].1))
            && linked(&*inferences, keyed_key(nsv, id@, keyed@[j].0@), op, Link::SplitOutput) by {
            assert(connected(&s2, keyed_key(nsv, id@, keyed@[j].0@), next_key(nsv, keyed@[j].1)));
            assert(linked(&s2, keyed_key(nsv, id@, keyed@[j].0@), op, Link::SplitOutput));
        }
    }
}

/// The name of stream `name` leaving scope `id` in namespaces `ns`.
pub open spec fn scope_stream_key(ns: Seq<Seq<char>>, id: Seq<char>, name: Seq<char>) -> (PortKind, Seq<Seq<char>>) {
    (PortKind::StreamOut, ns.push(id).push(name))
}

/// The constraints of scope `id` in namespaces `ns`: it takes what its
/// start takes, each stream leaving it carries what its target takes, and
/// its result is what the operation after it takes. The operations inside
/// it are queued on `children`.
pub fn scope_constraints(
    inferences: &mut Inferences,
    children: &mut Vec<ChildOperation>,
    id: &String,
    schema: &ScopeSchema,
    namespaces: &Vec<String>,
)
    requires
        old(inferences).wf(),
        constrained_named(old(inferences)),
        entry_names(schema.stream_out@).no_duplicates(),
        unconstrained(old(inferences), input_key(names_view(namespaces@), id@)),
        unconstrained(old(inferences), (PortKind::Terminate, names_view(namespaces@).push(id@))),
        forall|j: int| 0 <= j < schema.stream_out@.len() ==> unconstrained(old(inferences),
            scope_stream_key(names_view(namespaces@), id@, (#[trigger] schema.stream_out@[j]).0@)),
    ensures
        final(inferences).wf(),
        constrained_named(final(inferences)),
        ({
            let nsv = names_view(namespaces@);
            &&& redirected(final(inferences), input_key(nsv, id@), next_key(nsv.push(id@), schema.start))
            &&& forall|j: int| 0 <= j < schema.stream_out@.len() ==> redirected(final(inferences),
                    scope_stream_key(nsv, id@, (#[trigger] schema.stream_out@[j]).0@), next_key(nsv, schema.stream_out@[j].1))
            &&& redirected(final(inferences), (PortKind::Terminate, nsv.push(id@)), next_key(nsv, schema.next))
        }),
        children_view(final(children)@) == children_view(old(children)@) + children_of(names_view(namespaces@), id@, schema.ops@),
{
    let ghost nsv = names_view(namespaces@);
    let ghost op = input_key(nsv, id@);
    let ghost term = (PortKind::Terminate, nsv.push(id@));
    let ghost streams = schema.stream_out@;
    let inner = crate::gathering::inner_namespaces(namespaces, id);
    let ghost s0 = *inferences;
    let f0 = redirect_keys(inferences, input_port(namespaces, id), next_port(&inner, &schema.start));
    proof {
        lemma_keeps(&s0, inferences, f0, op);
        assert forall|j: int| 0 <= j < streams.len() implies unconstrained(&*inferences, scope_stream_key(nsv, id@, (#[trigger] streams[j]).0@)) by {
            assert(unconstrained(&s0, scope_stream_key(nsv, id@, streams[j].0@)));
        }
    }
    let mut i: usize = 0;
    while i < schema.stream_out.len()
        invariant
            i <= streams.len(),
            streams == schema.stream_out@,
            inferences.wf(),
            constrained_named(&*inferences),
            nsv == names_view(namespaces@),
            op == input_key(nsv, id@),
            term == (PortKind::Terminate, nsv.push(id@)),
            names_view(inner@) == nsv.push(id@),
            entry_names(streams).no_duplicates(),
            redirected(&*inferences, op, next_key(nsv.push(id@), schema.start)),
            unconstrained(&*inferences, term),
            forall|j: int| 0 <= j < i ==> redirected(&*inferences, scope_stream_key(nsv, id@, (#[trigger] streams[j]).0@), next_key(nsv, streams[j].1)),
            forall|j: int| i <= j < streams.len() ==> unconstrained(&*inferences, scope_stream_key(nsv, id@, (#[trigger] streams[j]).0@)),
        decreases streams.len() - i,
    {
        let ghost sk = scope_stream_key(nsv, id@, streams[i as int].0@);
        let ghost s = *inferences;
        let stream = section_port(namespaces, id, PortKind::StreamOut, vec![schema.stream_out[i].0.clone()]);
        proof {
            assert(names_view(stream.path@) =~= nsv.push(id@).push(streams[i as int].0@));
        }
        let f = redirect_keys(inferences, stream, next_port(namespaces, &schema.stream_out[i].1));
        proof {
            lemma_keeps(&s, inferences, f, sk);
            assert forall|j: int| 0 <= j < i + 1 implies redirected(&*inferences, scope_stream_key(nsv, id@, (#[trigger] streams[j]).0@), next_key(nsv, streams[j].1)) by {
                if j < i {
                    assert(entry_names(streams)[j] != entry_names(streams)[i as int]);
                    assert(scope_stream_key(nsv, id@, streams[j].0@).1.last() != sk.1.last());
                    assert(redirected(&s, scope_stream_key(nsv, id@, streams[j].0@), next_key(nsv, streams[j].1)));
                }
            }
            assert forall|j: int| i + 1 <= j < streams.len() implies unconstrained(&*inferences, scope_stream_key(nsv, id@, (#[trigger] streams[j]).0@)) by {
                assert(entry_names(streams)[j] != entry_names(streams)[i as int]);
                assert(scope_stream_key(nsv, id@, streams[j].0@).1.last() != sk.1.last());
                assert(unconstrained(&s, scope_stream_key(nsv, id@, streams[j].0@)));
            }
        }
        i += 1;
    }
    let ghost s1 = *inferences;
    let terminate = section_port(namespaces, id, PortKind::Terminate, Vec::new());
    proof {
        assert(names_view(terminate.path@) =~= nsv.push(id@));
    }
    let f1 = redirect_keys(inferences, terminate, next_port(namespaces, &schema.next));
    proof {
        lemma_keeps(&s1, inferences, f1, term);
        assert forall|j: int| 0 <= j < streams.len() implies redirected(&*inferences, scope_stream_key(nsv, id@, (#[trigger] streams[j]).0@), next_key(nsv, streams[j].1)) by {
            assert(redirected(&s1, scope_stream_key(nsv, id@, streams[j].0@), next_key(nsv, streams[j].1)));
        }
    }
    add_children(children, namespaces, id, &schema.ops);
}

/// The operation whose output is named `user` hints at what the buffer
/// named `buffer` holds.
pub open spec fn hinted_by(inf: &Inferences, buffer: (PortKind, Seq<Seq<char>>), user: (PortKind, Seq<Seq<char>>)) -> bool {
    exists|b: u64, o: u64|
        #![trigger inf.ports.named(b, buffer), inf.ports.named(o, user)]
        inf.ports.named(b, buffer) && inf.ports.named(o, user) && list_at(inf.buffer_hints@, b).contains(o)
}

/// Every buffer of `selection` has the operation whose output is named
/// `user` among those that hint at what it holds.
pub open spec fn hints_all(inf: &Inferences, ns: Seq<Seq<char>>, selection: Seq<NextOperation>, user: (PortKind, Seq<Seq<char>>)) -> bool {
    forall|j: int| 0 <= j < selection.len() ==> hinted_by(inf, next_key(ns, #[trigger] selection[j]), user)
}

/// Record, for every buffer of `selection`, that the operation whose output
/// is named `user` hints at what it holds.
fn hint_buffers(inferences: &mut Inferences, selection: &Vec<NextOperation>, user: PortKey, namespaces: &Vec<String>)
    requires
        old(inferences).wf(),
        constrained_named(old(inferences)),
    ensures
        final(inferences).wf(),
        constrained_named(final(inferences)),
        hints_all(final(inferences), names_view(namespaces@), selection@, key_view(&user)),
        forall|x: u64| keeps(old(inferences), final(inferences), x),
        final(inferences).connection_from@ == old(inferences).connection_from@,
        final(inferences).connections_into@ == old(inferences).connections_into@,
        final(inferences).constraints@ == old(inferences).constraints@,
        final(inferences).evaluations@ == old(inferences).evaluations@,
        forall|a: (PortKind, Seq<Seq<char>>)| #[trigger] unconstrained(old(inferences), a) ==> unconstrained(final(inferences), a),
{
    let ghost nsv = names_view(namespaces@);
    let ghost uk = key_view(&user);
    let o = name_port(inferences, user);
    let mut i: usize = 0;
    while i < selection.len()
        invariant
            i <= selection@.len(),
            inferences.wf(),
            constrained_named(&*inferences),
            nsv == names_view(namespaces@),
            inferences.ports.named(o, uk),
            forall|j: int| 0 <= j < i ==> hinted_by(&*inferences, next_key(nsv, #[trigger] selection@[j]), uk),
            forall|x: u64| keeps(old(inferences), &*inferences, x),
            inferences.connection_from@ == old(inferences).connection_from@,
            inferences.connections_into@ == old(inferences).connections_into@,
            inferences.constraints@ == old(inferences).constraints@,
            inferences.evaluations@ == old(inferences).evaluations@,
            forall|a: (PortKind, Seq<Seq<char>>)| #[trigger] unconstrained(old(inferences), a) ==> unconstrained(&*inferences, a),
        decreases selection@.len() - i,
    {
        let ghost s = *inferences;
        let b = name_port(inferences, next_port(namespaces, &selection[i]));
        let ghost s1 = *inferences;
        list_add(&mut inferences.buffer_hints, b, o);
        proof {
            assert(keeps(&s, &s1, 0));
            lemma_names_kept(&s, &s1);
            assert forall|x: u64| keeps(old(inferences), &*inferences, x) by {
                assert(keeps(old(inferences), &s, x));
                assert(keeps(&s, &s1, x));
                lemma_keeps_trans(old(inferences), &s, &s1, x);
            }
            assert(list_added(s1.buffer_hints@, b, o).contains(o)) by {
                if !list_at(s1.buffer_hints@, b).contains(o) {
                    assert(list_at(s1.buffer_hints@, b).push(o).last() == o);
                }
            }
            assert(inferences.ports.named(b, next_key(nsv, selection@[i as int])) && inferences.ports.named(o, uk));
            assert forall|j: int| 0 <= j < i + 1 implies hinted_by(&*inferences, next_key(nsv, #[trigger] selection@[j]), uk) by {
                if j < i {
                    let (x, y) = choose|x: u64, y: u64|
                        #![trigger s.ports.named(x, next_key(nsv, selection@[j])), s.ports.named(y, uk)]
                        s.ports.named(x, next_key(nsv, selection@[j])) && s.ports.named(y, uk) && list_at(s.buffer_hints@, x).contains(y);
                    assert(inferences.ports.named(x, next_key(nsv, selection@[j])) && inferences.ports.named(y, uk));
                    if x == b && !list_at(s1.buffer_hints@, b).contains(o) {
                        let k = choose|k: int| 0 <= k < list_at(s.buffer_hints@, x).len() && list_at(s.buffer_hints@, x)[k] == y;
                        assert(list_at(inferences.buffer_hints@, x)[k] == y);
                    }
                }
            }
            assert forall|a: (PortKind, Seq<Seq<char>>)| #[trigger] unconstrained(old(inferences), a) implies unconstrained(&*inferences, a) by {
                assert(unconstrained(&s1, a));
            }
        }
        i += 1;
    }
}

/// Output `out` carries exactly what the port named `target` takes, and
/// connects into it.
pub open spec fn infers_from_downstream(inf: &Inferences, out: (PortKind, Seq<Seq<char>>), target: (PortKind, Seq<Seq<char>>)) -> bool {
    linked(inf, out, target, Link::Exact) && connected(inf, out, target)
}

/// Tie output `out` to the port named `target` that it connects into.
fn infer_keys(inferences: &mut Inferences, out: PortKey, out2: PortKey, target: PortKey, target2: PortKey)
    requires
        old(inferences).wf(),
        constrained_named(old(inferences)),
        key_view(&out) == key_view(&out2),
        key_view(&target) == key_view(&target2),
        unconstrained(old(inferences), key_view(&out)),
    ensures
        final(inferences).wf(),
        constrained_named(final(inferences)),
        infers_from_downstream(final(inferences), key_view(&out), key_view(&target)),
        forall|a: (PortKind, Seq<Seq<char>>)| a != key_view(&out) && #[trigger] unconstrained(old(inferences), a) ==> unconstrained(final(inferences), a),
        forall|a: (PortKind, Seq<Seq<char>>), b: (PortKind, Seq<Seq<char>>)| #[trigger] hinted_by(old(inferences), a, b) ==> hinted_by(final(inferences), a, b),
{
    let ghost s = *inferences;
    route_one(inferences, out, out2, target, target2, Link::Exact);
    proof {
        lemma_hints_kept(&s, inferences);
    }
}

/// Hints survive a step that changed no hint and kept every name.
proof fn lemma_hints_kept(old: &Inferences, new: &Inferences)
    requires
        new.buffer_hints@ == old.buffer_hints@,
        forall|x: u64, a: (PortKind, Seq<Seq<char>>)| #[trigger] old.ports.named(x, a) ==> new.ports.named(x, a),
    ensures
        forall|a: (PortKind, Seq<Seq<char>>), b: (PortKind, Seq<Seq<char>>)| #[trigger] hinted_by(old, a, b) ==> hinted_by(new, a, b),
{
    assert forall|a: (PortKind, Seq<Seq<char>>), b: (PortKind, Seq<Seq<char>>)| #[trigger] hinted_by(old, a, b) implies hinted_by(new, a, b) by {
        let (x, y) = choose|x: u64, y: u64|
            #![trigger old.ports.named(x, a), old.ports.named(y, b)]
            old.ports.named(x, a) && old.ports.named(y, b) && list_at(old.buffer_hints@, x).contains(y);
        assert(new.ports.named(x, a) && new.ports.named(y, b));
    }
}

/// The constraints of listen `id` in namespaces `ns` on the buffers of
/// `selection`: its output carries what `next` takes, and it hints at what
/// each buffer holds.
pub fn listen_constraints(inferences: &mut Inferences, id: &String, selection: &Vec<NextOperation>, next: &NextOperation, namespaces: &Vec<String>)
    requires
        old(inferences).wf(),
        constrained_named(old(inferences)),
        unconstrained(old(inferences), output_key(names_view(namespaces@), id@, "next"@)),
    ensures
        final(inferences).wf(),
        constrained_named(final(inferences)),
        ({
            let nsv = names_view(namespaces@);
            let out = output_key(nsv, id@, "next"@);
            &&& hints_all(final(inferences), nsv, selection@, out)
            &&& infers_from_downstream(final(inferences), out, next_key(nsv, *next))
        }),
{
    let ghost nsv = names_view(namespaces@);
    let ghost out = output_key(nsv, id@, "next"@);
    hint_buffers(inferences, selection, output_port(namespaces, id, "next"), namespaces);
    let ghost s = *inferences;
    infer_keys(inferences, output_port(namespaces, id, "next"), output_port(namespaces, id, "next"),
        next_port(namespaces, next), next_port(namespaces, next));
    proof {
        assert forall|j: int| 0 <= j < selection@.len() implies hinted_by(&*inferences, next_key(nsv, #[trigger] selection@[j]), out) by {
            assert(hinted_by(&s, next_key(nsv, selection@[j]), out));
        }
    }
}

/// The constraints of join `id` in namespaces `ns` on the buffers of
/// `selection`: it hints at what each buffer holds, and its output connects
/// into `next`; a serializing join gives JSON, any other gives what `next`
/// takes.
pub fn join_constraints(
    inferences: &mut Inferences,
    id: &String,
    selection: &Vec<NextOperation>,
    next: &NextOperation,
    serialize: bool,
    json_index: Option<usize>,
    namespaces: &Vec<String>,
) -> (r: Result<(), GatherError>)
    requires
        old(inferences).wf(),
        constrained_named(old(inferences)),
        !serialize ==> unconstrained(old(inferences), output_key(names_view(namespaces@), id@, "next"@)),
    ensures
        final(inferences).wf(),
        constrained_named(final(inferences)),
        serialize && json_index is None <==> (r matches Err(e) && e is JsonNotRegistered),
        r is Err ==> serialize && json_index is None,
        ({
            let nsv = names_view(namespaces@);
            let out = output_key(nsv, id@, "next"@);
            &&& hints_all(final(inferences), nsv, selection@, out)
            &&& serialize ==> (json_index matches Some(json) ==> fixed_at(final(inferences), out, json)
                && connected(final(inferences), out, next_key(nsv, *next)))
            &&& !serialize ==> infers_from_downstream(final(inferences), out, next_key(nsv, *next))
        }),
{
    let ghost nsv = names_view(namespaces@);
    let ghost out = output_key(nsv, id@, "next"@);
    hint_buffers(inferences, selection, output_port(namespaces, id, "next"), namespaces);
    let ghost s = *inferences;
    if serialize {
        match json_index {
            None => {
                return Err(GatherError::JsonNotRegistered);
            },
            Some(json) => {
                let f1 = fixed_key(inferences, output_port(namespaces, id, "next"), json);
                let ghost s1 = *inferences;
                proof {
                    lemma_names_kept(&s, &s1);
                    lemma_hints_kept(&s, &s1);
                }
                let f2 = connect_keys(inferences, output_port(namespaces, id, "next"), next_port(namespaces, next));
                proof {
                    lemma_fixed_kept(&s1, inferences, f2);
                    lemma_names_kept(&s1, inferences);
                    lemma_hints_kept(&s1, inferences);
                    assert forall|j: int| 0 <= j < selection@.len() implies hinted_by(&*inferences, next_key(nsv, #[trigger] selection@[j]), out) by {
                        assert(hinted_by(&s, next_key(nsv, selection@[j]), out));
                        assert(hinted_by(&s1, next_key(nsv, selection@[j]), out));
                    }
                }
            },
        }
    } else {
        infer_keys(inferences, output_port(namespaces, id, "next"), output_port(namespaces, id, "next"),
            next_port(namespaces, next), next_port(namespaces, next));
        proof {
            assert forall|j: int| 0 <= j < selection@.len() implies hinted_by(&*inferences, next_key(nsv, #[trigger] selection@[j]), out) by {
                assert(hinted_by(&s, next_key(nsv, selection@[j]), out));
            }
        }
    }
    Ok(())
}

/// The constraints of buffer access `id` in namespaces `ns` on the buffers
/// of `selection`: it hints at what each buffer holds, its output carries
/// what `next` takes, and it takes the request message of what `next` takes.
pub fn buffer_access_constraints(inferences: &mut Inferences, id: &String, selection: &Vec<NextOperation>, next: &NextOperation, namespaces: &Vec<String>)
    requires
        old(inferences).wf(),
        constrained_named(old(inferences)),
        unconstrained(old(inferences), input_key(names_view(namespaces@), id@)),
        unconstrained(old(inferences), output_key(names_view(namespaces@), id@, "next"@)),
    ensures
        final(inferences).wf(),
        constrained_named(final(inferences)),
        ({
            let nsv = names_view(namespaces@);
            let out = output_key(nsv, id@, "next"@);
            &&& hints_all(final(inferences), nsv, selection@, out)
            &&& infers_from_downstream(final(inferences), out, next_key(nsv, *next))
            &&& linked(final(inferences), input_key(nsv, id@), next_key(nsv, *next), Link::BufferAccess)
        }),
{
    let ghost nsv = names_view(namespaces@);
    let ghost out = output_key(nsv, id@, "next"@);
    let ghost op = input_key(nsv, id@);
    proof {
        reveal_strlit("next");
        assert(out.0 != op.0);
    }
    hint_buffers(inferences, selection, output_port(namespaces, id, "next"), namespaces);
    let ghost s = *inferences;
    infer_keys(inferences, output_port(namespaces, id, "next"), output_port(namespaces, id, "next"),
        next_port(namespaces, next), next_port(namespaces, next));
    let ghost s1 = *inferences;
    let f = link_keys(inferences, input_port(namespaces, id), next_port(namespaces, next), Link::BufferAccess);
    proof {
        lemma_keeps(&s1, inferences, f, op);
        lemma_constraints_kept(&s1, inferences, f, op);
        lemma_hints_kept(&s1, inferences);
        assert forall|j: int| 0 <= j < selection@.len() implies hinted_by(&*inferences, next_key(nsv, #[trigger] selection@[j]), out) by {
            assert(hinted_by(&s, next_key(nsv, selection@[j]), out));
            assert(hinted_by(&s1, next_key(nsv, selection@[j]), out));
        }
    }
}

/// The constraints of a stream out of scope `stream` used by operation `id`
/// in namespaces `ns`: the operation takes what the stream carries.
pub fn stream_out_constraints(inferences: &mut Inferences, id: &String, stream: &String, namespaces: &Vec<String>)
    requires
        old(inferences).wf(),
        constrained_named(old(inferences)),
        unconstrained(old(inferences), (PortKind::Input, names_view(namespaces@).push(id@))),
    ensures
        final(inferences).wf(),
        constrained_named(final(inferences)),
        linked(final(inferences), (PortKind::Input, names_view(namespaces@).push(id@)),
            (PortKind::StreamOut, names_view(namespaces@).push(stream@)), Link::Exact),
{
    let operation = section_port(namespaces, id, PortKind::Input, Vec::new());
    let target = section_port(namespaces, stream, PortKind::StreamOut, Vec::new());
    proof {
        assert(names_view(operation.path@) =~= names_view(namespaces@).push(id@));
        assert(names_view(target.path@) =~= names_view(namespaces@).push(stream@));
    }
    link_keys(inferences, operation, target, Link::Exact);
}

} // verus!

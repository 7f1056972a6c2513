//! Gathering the message type constraints of a diagram: naming its ports,
//! and recording what each operation fixes, connects and redirects.
//!
//! A port is named by its kind and a path of names: the namespaces of its
//! operation, then the operation, then (for an output) the output's key.
//! The port table gives each name one integer id, which is how the rest of
//! inference knows the port.

use vstd::prelude::*;
use std::collections::HashMap;
use crate::constraints::{list_at, Inferences};
use crate::evaluation::Constraint;
use crate::inference::vec_contains;
use crate::flow::{
    buffer_access_constraints, clone_into, element_key, fork_clone_constraints, hints_all, infers_from_downstream,
    input_key, join_constraints, keyed_key, keyed_out, linked, listen_constraints, next_keys, output_key, result_constraints,
    result_into, routed_out, scope_constraints, scope_stream_key, self_constrained, split_constraints, stream_out_constraints,
    unzip_constraints, Link, Route,
};

verus! {

broadcast use vstd::std_specs::hash::group_hash_axioms;

/// The kind of a port.
#[derive(Debug, Clone, Copy, PartialEq, Eq, Structural)]
pub enum PortKind {
    /// The input of an operation.
    Input,
    /// An input that a section exposes to the operations around it.
    ExposedInput,
    /// An output of an operation.
    Output,
    /// The terminate operation of a scope.
    Terminate,
    /// The cancel operation of a scope.
    Cancel,
    /// The dispose operation of a scope.
    Dispose,
    /// A stream that leaves a scope.
    StreamOut,
    /// Output number `0` among those under its path.
    Element(usize),
}

/// The name of a port.
pub struct PortKey {
    pub kind: PortKind,
    pub path: Vec<String>,
}

/// A list of names, taken as character sequences.
pub open spec fn names_view(v: Seq<String>) -> Seq<Seq<char>> {
    v.map_values(|s: String| s@)
}

/// The name of a port, taken as plain values.
pub open spec fn key_view(k: &PortKey) -> (PortKind, Seq<Seq<char>>) {
    (k.kind, names_view(k.path@))
}

/// Whether two lists of names are equal.
fn same_names(a: &Vec<String>, b: &Vec<String>) -> (r: bool)
    ensures
        r == (names_view(a@) == names_view(b@)),
{
    if a.len() != b.len() {
        proof {
            assert(names_view(a@).len() != names_view(b@).len());
        }
        return false;
    }
    let mut i: usize = 0;
    while i < a.len()
        invariant
            i <= a.len(),
            a.len() == b.len(),
            forall|j: int| 0 <= j < i ==> a@[j]@ == b@[j]@,
        decreases a.len() - i,
    {
        if !a[i].eq(&b[i]) {
            proof {
                assert(names_view(a@)[i as int] != names_view(b@)[i as int]);
            }
            return false;
        }
        i += 1;
    }
    assert(names_view(a@) =~= names_view(b@));
    true
}

/// The ports of a diagram, each known by its index.
pub struct PortNames {
    pub keys: Vec<PortKey>,
}

impl PortNames {
    /// No name is given to two ports.
    pub open spec fn wf(&self) -> bool {
        forall|i: int, j: int|
            0 <= i < j < self.keys@.len() ==> key_view(&self.keys@[i]) != key_view(&self.keys@[j])
    }

    /// Port `id` has name `k`.
    pub open spec fn named(&self, id: u64, k: (PortKind, Seq<Seq<char>>)) -> bool {
        id < self.keys@.len() && key_view(&self.keys@[id as int]) == k
    }

    /// Some port has name `k`.
    pub open spec fn has(&self, k: (PortKind, Seq<Seq<char>>)) -> bool {
        exists|i: int| 0 <= i < self.keys@.len() && #[trigger] key_view(&self.keys@[i]) == k
    }

    /// A table without ports.
    pub fn new() -> (r: Self)
        ensures
            r.wf(),
            r.keys@.len() == 0,
    {
        PortNames { keys: Vec::new() }
    }

    /// The id of the port named `key`, giving it the next id if it has none.
    pub fn port(&mut self, key: PortKey) -> (id: u64)
        requires
            old(self).wf(),
        ensures
            final(self).wf(),
            final(self).named(id, key_view(&key)),
            old(self).has(key_view(&key)) ==> final(self).keys@ == old(self).keys@,
            !old(self).has(key_view(&key)) ==> final(self).keys@ == old(self).keys@.push(key)
                && id == old(self).keys@.len(),
    {
        let mut i: usize = 0;
        while i < self.keys.len()
            invariant
                self.wf(),
                self.keys@ == old(self).keys@,
                i <= self.keys@.len(),
                forall|j: int| 0 <= j < i ==> key_view(&self.keys@[j]) != key_view(&key),
            decreases self.keys.len() - i,
        {
            if self.keys[i].kind == key.kind && same_names(&self.keys[i].path, &key.path) {
                return i as u64;
            }
            i += 1;
        }
        let ghost before = self.keys@;
        let n = self.keys.len();
        self.keys.push(key);
        proof {
            assert(self.keys@[n as int] == key);
            assert forall|a: int, b: int| 0 <= a < b < self.keys@.len()
                implies key_view(&self.keys@[a]) != key_view(&self.keys@[b]) by {
                assert(self.keys@[a] == before[a]);
                if b < n {
                    assert(self.keys@[b] == before[b]);
                }
            }
            if old(self).has(key_view(&key)) {
                let j = choose|j: int| 0 <= j < before.len() && #[trigger] key_view(&before[j]) == key_view(&key);
                assert(false);
            }
        }
        n as u64
    }
}


/// The list of `m` at `k` after adding `x` to it, unless it holds `x` already.
pub open spec fn list_added(m: Map<u64, Vec<u64>>, k: u64, x: u64) -> Seq<u64> {
    if list_at(m, k).contains(x) {
        list_at(m, k)
    } else {
        list_at(m, k).push(x)
    }
}

/// Add `x` to the list of `k` in `m`, unless it holds `x` already.
pub(crate) fn list_add(m: &mut HashMap<u64, Vec<u64>>, k: u64, x: u64)
    ensures
        list_at(final(m)@, k) == list_added(old(m)@, k, x),
        forall|j: u64| j != k ==> #[trigger] list_at(final(m)@, j) == list_at(old(m)@, j),
        list_at(old(m)@, k).no_duplicates() ==> list_at(final(m)@, k).no_duplicates(),
{
    let mut list = match m.remove(&k) {
        Some(l) => l,
        None => Vec::new(),
    };
    assert(list@ == list_at(old(m)@, k));
    if !vec_contains(&list, x) {
        let ghost before = list@;
        list.push(x);
        proof {
            assert forall|a: int, b: int| 0 <= a < b < list@.len() && before.no_duplicates() implies list@[a] != list@[b] by {
                if b == before.len() {
                    assert(before.contains(before[a]));
                } else {
                    assert(list@[a] == before[a] && list@[b] == before[b]);
                }
            }
        }
    }
    m.insert(k, list);
    proof {
        assert forall|j: u64| j != k implies #[trigger] list_at(m@, j) == list_at(old(m)@, j) by {
            if old(m)@.contains_key(j) {
                assert(m@[j] == old(m)@[j]);
            }
        }
    }
}

impl Inferences {
    /// Nothing known yet.
    pub fn new() -> (r: Self)
        ensures
            r.wf(),
            r.evaluations@ == Map::<u64, Option<usize>>::empty(),
            r.connections_into@ == Map::<u64, Vec<u64>>::empty(),
            r.redirections_into@ == Map::<u64, Vec<u64>>::empty(),
            r.buffer_hints@ == Map::<u64, Vec<u64>>::empty(),
            r.connection_from@ == Map::<u64, u64>::empty(),
            r.redirected_input@ == Map::<u64, u64>::empty(),
            r.constraints@ == Map::<u64, Constraint>::empty(),
            r.ports.keys@.len() == 0,
    {
        Inferences {
            evaluations: HashMap::new(),
            connections_into: HashMap::new(),
            redirections_into: HashMap::new(),
            buffer_hints: HashMap::new(),
            connection_from: HashMap::new(),
            redirected_input: HashMap::new(),
            constraints: HashMap::new(),
            ports: PortNames::new(),
        }
    }

    /// Specify exactly what message type `port` has, whatever it connects
    /// to.
    pub fn fixed(&mut self, port: u64, message_type: usize)
        requires
            old(self).wf(),
        ensures
            final(self).wf(),
            final(self).evaluations@ == old(self).evaluations@.insert(port, Some(message_type)),
            final(self).connections_into@ == old(self).connections_into@,
            final(self).redirections_into@ == old(self).redirections_into@,
            final(self).buffer_hints@ == old(self).buffer_hints@,
            final(self).connection_from@ == old(self).connection_from@,
            final(self).redirected_input@ == old(self).redirected_input@,
            final(self).constraints@ == old(self).constraints@,
            final(self).ports.keys@ == old(self).ports.keys@,
    {
        self.evaluations.insert(port, Some(message_type));
    }

    /// Put `constraint` on `port`, which becomes known if it was not.
    pub fn constrain(&mut self, port: u64, constraint: Constraint)
        requires
            old(self).wf(),
            !old(self).constraints@.contains_key(port),
        ensures
            final(self).wf(),
            final(self).constraints@ == old(self).constraints@.insert(port, constraint),
            old(self).evaluations@.contains_key(port) ==> final(self).evaluations@ == old(self).evaluations@,
            !old(self).evaluations@.contains_key(port) ==> final(self).evaluations@ == old(self).evaluations@.insert(port, None),
            final(self).connections_into@ == old(self).connections_into@,
            final(self).redirections_into@ == old(self).redirections_into@,
            final(self).buffer_hints@ == old(self).buffer_hints@,
            final(self).connection_from@ == old(self).connection_from@,
            final(self).redirected_input@ == old(self).redirected_input@,
            final(self).ports.keys@ == old(self).ports.keys@,
    {
        if !self.evaluations.contains_key(&port) {
            self.evaluations.insert(port, None);
        }
        self.constraints.insert(port, constraint);
    }

    /// Specify that `output` connects into `input`.
    pub fn connect(&mut self, output: u64, input: u64)
        requires
            old(self).wf(),
        ensures
            final(self).wf(),
            final(self).connection_from@ == old(self).connection_from@.insert(output, input),
            list_at(final(self).connections_into@, input) == list_added(old(self).connections_into@, input, output),
            forall|j: u64| j != input ==> #[trigger] list_at(final(self).connections_into@, j) == list_at(old(self).connections_into@, j),
            final(self).evaluations@ == old(self).evaluations@,
            final(self).redirections_into@ == old(self).redirections_into@,
            final(self).buffer_hints@ == old(self).buffer_hints@,
            final(self).redirected_input@ == old(self).redirected_input@,
            final(self).constraints@ == old(self).constraints@,
            final(self).ports.keys@ == old(self).ports.keys@,
    {
        self.connection_from.insert(output, input);
        proof {
            assert(list_at(self.connections_into@, input).no_duplicates());
        }
        list_add(&mut self.connections_into, input, output);
        proof {
            assert forall|k: u64| #[trigger] list_at(self.connections_into@, k).no_duplicates() by {
                if k != input {
                    assert(list_at(old(self).connections_into@, k).no_duplicates());
                }
            }
        }
    }

    /// Specify that `from` passes its inputs on to `into`: it carries what
    /// `into` takes.
    pub fn redirect(&mut self, from: u64, into: u64)
        requires
            old(self).wf(),
            !old(self).constraints@.contains_key(from),
        ensures
            final(self).wf(),
            final(self).constraints@ == old(self).constraints@.insert(from, Constraint::ExactMatch(into)),
            old(self).evaluations@.contains_key(from) ==> final(self).evaluations@ == old(self).evaluations@,
            !old(self).evaluations@.contains_key(from) ==> final(self).evaluations@ == old(self).evaluations@.insert(from, None),
            final(self).redirected_input@ == old(self).redirected_input@.insert(from, into),
            list_at(final(self).redirections_into@, into) == list_added(old(self).redirections_into@, into, from),
            forall|j: u64| j != into ==> #[trigger] list_at(final(self).redirections_into@, j) == list_at(old(self).redirections_into@, j),
            final(self).connections_into@ == old(self).connections_into@,
            final(self).buffer_hints@ == old(self).buffer_hints@,
            final(self).connection_from@ == old(self).connection_from@,
            final(self).ports.keys@ == old(self).ports.keys@,
    {
        self.constrain(from, Constraint::ExactMatch(into));
        self.redirected_input.insert(from, into);
        proof {
            assert(list_at(self.redirections_into@, into).no_duplicates());
        }
        list_add(&mut self.redirections_into, into, from);
        proof {
            assert forall|k: u64| #[trigger] list_at(self.redirections_into@, k).no_duplicates() by {
                if k != into {
                    assert(list_at(old(self).redirections_into@, k).no_duplicates());
                }
            }
        }
    }

    /// Specify that `output` carries exactly what `input`, which it
    /// connects into, takes.
    pub fn infer_from_downstream(&mut self, output: u64, input: u64)
        requires
            old(self).wf(),
            !old(self).constraints@.contains_key(output),
        ensures
            final(self).wf(),
            final(self).constraints@ == old(self).constraints@.insert(output, Constraint::ExactMatch(input)),
            old(self).evaluations@.contains_key(output) ==> final(self).evaluations@ == old(self).evaluations@,
            !old(self).evaluations@.contains_key(output) ==> final(self).evaluations@ == old(self).evaluations@.insert(output, None),
            final(self).connection_from@ == old(self).connection_from@.insert(output, input),
            list_at(final(self).connections_into@, input) == list_added(old(self).connections_into@, input, output),
            forall|j: u64| j != input ==> #[trigger] list_at(final(self).connections_into@, j) == list_at(old(self).connections_into@, j),
            final(self).redirections_into@ == old(self).redirections_into@,
            final(self).buffer_hints@ == old(self).buffer_hints@,
            final(self).redirected_input@ == old(self).redirected_input@,
            final(self).ports.keys@ == old(self).ports.keys@,
    {
        self.constrain(output, Constraint::ExactMatch(input));
        self.connect(output, input);
    }
}


/// `m` with each port of `fixed` given its message type, in order.
pub open spec fn fixed_all(m: Map<u64, Option<usize>>, fixed: Seq<(u64, usize)>) -> Map<u64, Option<usize>>
    decreases fixed.len(),
{
    if fixed.len() == 0 {
        m
    } else {
        fixed_all(m, fixed.drop_last()).insert(fixed.last().0, Some(fixed.last().1))
    }
}

/// The conditions at the boundary of a diagram: its start output connects
/// into `start_target` and carries the `request` type, its terminate takes
/// the `response` type, and each stream output carries its stream's type.
pub fn set_boundary_conditions(
    inf: &mut Inferences,
    start: u64,
    start_target: u64,
    terminate: u64,
    request: usize,
    response: usize,
    streams: &Vec<(u64, usize)>,
)
    requires
        old(inf).wf(),
    ensures
        final(inf).wf(),
        final(inf).evaluations@ == fixed_all(
            old(inf).evaluations@.insert(start, Some(request)).insert(terminate, Some(response)),
            streams@,
        ),
        final(inf).connection_from@ == old(inf).connection_from@.insert(start, start_target),
        list_at(final(inf).connections_into@, start_target) == list_added(old(inf).connections_into@, start_target, start),
        forall|j: u64| j != start_target ==> #[trigger] list_at(final(inf).connections_into@, j) == list_at(old(inf).connections_into@, j),
        final(inf).redirections_into@ == old(inf).redirections_into@,
        final(inf).redirected_input@ == old(inf).redirected_input@,
        final(inf).constraints@ == old(inf).constraints@,
        final(inf).ports.keys@ == old(inf).ports.keys@,
{
    inf.connect(start, start_target);
    inf.fixed(start, request);
    inf.fixed(terminate, response);
    let ghost base = inf.evaluations@;
    let ghost conns = inf.connections_into@;
    let mut i: usize = 0;
    proof {
        assert(streams@.take(0) =~= Seq::<(u64, usize)>::empty());
    }
    while i < streams.len()
        invariant
            inf.wf(),
            i <= streams@.len(),
            inf.evaluations@ == fixed_all(base, streams@.take(i as int)),
            inf.connections_into@ == conns,
            inf.connection_from@ == old(inf).connection_from@.insert(start, start_target),
            inf.redirections_into@ == old(inf).redirections_into@,
            inf.redirected_input@ == old(inf).redirected_input@,
            inf.constraints@ == old(inf).constraints@,
            inf.ports.keys@ == old(inf).ports.keys@,
        decreases streams.len() - i,
    {
        let (port, message_type) = streams[i];
        inf.fixed(port, message_type);
        proof {
            assert(streams@.take(i + 1).drop_last() =~= streams@.take(i as int));
        }
        i += 1;
    }
    proof {
        assert(streams@.take(streams@.len() as int) =~= streams@);
    }
}


/// Every constrained port has a name.
pub open spec fn constrained_named(inf: &Inferences) -> bool {
    forall|id: u64| #[trigger] inf.constraints@.contains_key(id) ==> id < inf.ports.keys@.len()
}

/// No port named `k` carries a constraint yet.
pub open spec fn unconstrained(inf: &Inferences, k: (PortKind, Seq<Seq<char>>)) -> bool {
    forall|id: u64| #[trigger] inf.ports.named(id, k) ==> !inf.constraints@.contains_key(id)
}

/// The port named `from` passes its inputs on to the port named `into`.
pub open spec fn redirected(inf: &Inferences, from: (PortKind, Seq<Seq<char>>), into: (PortKind, Seq<Seq<char>>)) -> bool {
    exists|f: u64, t: u64|
        #![trigger inf.ports.named(f, from), inf.ports.named(t, into)]
        inf.ports.named(f, from) && inf.ports.named(t, into)
        && inf.redirected_input@.contains_key(f) && inf.redirected_input@[f] == t
        && inf.constraints@.contains_key(f) && inf.constraints@[f] == Constraint::ExactMatch(t)
        && list_at(inf.redirections_into@, t).contains(f)
}

/// The output named `from` connects into the port named `into`.
pub open spec fn connected(inf: &Inferences, from: (PortKind, Seq<Seq<char>>), into: (PortKind, Seq<Seq<char>>)) -> bool {
    exists|f: u64, t: u64|
        #![trigger inf.ports.named(f, from), inf.ports.named(t, into)]
        inf.ports.named(f, from) && inf.ports.named(t, into)
        && inf.connection_from@.contains_key(f) && inf.connection_from@[f] == t
        && list_at(inf.connections_into@, t).contains(f)
}

/// The port named `k` has exactly message type `message_type`.
pub open spec fn fixed_at(inf: &Inferences, k: (PortKind, Seq<Seq<char>>), message_type: usize) -> bool {
    exists|f: u64| #[trigger] inf.ports.named(f, k) && inf.evaluations@.contains_key(f)
        && inf.evaluations@[f] == Some(message_type)
}

/// `new` holds all that `old` held, except perhaps at port `f`: names stay,
/// recorded facts stay, lists only grow, and no port other than `f` gains
/// a constraint.
pub open spec fn keeps(old: &Inferences, new: &Inferences, f: u64) -> bool {
    &&& old.ports.keys@.len() <= new.ports.keys@.len()
    &&& forall|i: int| 0 <= i < old.ports.keys@.len() ==> key_view(&new.ports.keys@[i]) == key_view(&old.ports.keys@[i])
    &&& forall|id: u64| id != f && #[trigger] old.redirected_input@.contains_key(id)
            ==> new.redirected_input@.contains_key(id) && new.redirected_input@[id] == old.redirected_input@[id]
    &&& forall|id: u64| id != f && #[trigger] old.connection_from@.contains_key(id)
            ==> new.connection_from@.contains_key(id) && new.connection_from@[id] == old.connection_from@[id]
    &&& forall|id: u64| id != f && #[trigger] old.evaluations@.contains_key(id)
            ==> new.evaluations@.contains_key(id) && new.evaluations@[id] == old.evaluations@[id]
    &&& forall|id: u64| id != f && #[trigger] old.constraints@.contains_key(id)
            ==> new.constraints@.contains_key(id) && new.constraints@[id] == old.constraints@[id]
    &&& forall|id: u64| id != f && #[trigger] new.constraints@.contains_key(id) ==> old.constraints@.contains_key(id)
    &&& forall|t: u64, x: u64| #[trigger] list_at(old.redirections_into@, t).contains(x) ==> list_at(new.redirections_into@, t).contains(x)
    &&& forall|t: u64, x: u64| #[trigger] list_at(old.connections_into@, t).contains(x) ==> list_at(new.connections_into@, t).contains(x)
}

/// What was recorded of ports not named `k` survives a step that touched
/// only the port `f` named `k`.
pub(crate) proof fn lemma_keeps(old: &Inferences, new: &Inferences, f: u64, k: (PortKind, Seq<Seq<char>>))
    requires
        keeps(old, new, f),
        new.ports.named(f, k),
        new.ports.wf(),
        constrained_named(old),
    ensures
        forall|a: (PortKind, Seq<Seq<char>>), b: (PortKind, Seq<Seq<char>>)| a != k && #[trigger] redirected(old, a, b) ==> redirected(new, a, b),
        forall|a: (PortKind, Seq<Seq<char>>), b: (PortKind, Seq<Seq<char>>)| a != k && #[trigger] connected(old, a, b) ==> connected(new, a, b),
        forall|a: (PortKind, Seq<Seq<char>>), t: usize| a != k && #[trigger] fixed_at(old, a, t) ==> fixed_at(new, a, t),
        forall|a: (PortKind, Seq<Seq<char>>)| a != k && #[trigger] unconstrained(old, a) ==> unconstrained(new, a),
{
    assert forall|id: u64, a: (PortKind, Seq<Seq<char>>)| #[trigger] old.ports.named(id, a) implies new.ports.named(id, a) by {
        assert(key_view(&new.ports.keys@[id as int]) == key_view(&old.ports.keys@[id as int]));
    }
    assert forall|id: u64, a: (PortKind, Seq<Seq<char>>)| a != k && #[trigger] new.ports.named(id, a) implies id != f by {
    }
    assert forall|a: (PortKind, Seq<Seq<char>>), b: (PortKind, Seq<Seq<char>>)| a != k && #[trigger] redirected(old, a, b) implies redirected(new, a, b) by {
        let (x, y) = choose|x: u64, y: u64|
            #![trigger old.ports.named(x, a), old.ports.named(y, b)]
            old.ports.named(x, a) && old.ports.named(y, b)
            && old.redirected_input@.contains_key(x) && old.redirected_input@[x] == y
            && old.constraints@.contains_key(x) && old.constraints@[x] == Constraint::ExactMatch(y)
            && list_at(old.redirections_into@, y).contains(x);
        assert(new.ports.named(x, a) && new.ports.named(y, b));
    }
    assert forall|a: (PortKind, Seq<Seq<char>>), b: (PortKind, Seq<Seq<char>>)| a != k && #[trigger] connected(old, a, b) implies connected(new, a, b) by {
        let (x, y) = choose|x: u64, y: u64|
            #![trigger old.ports.named(x, a), old.ports.named(y, b)]
            old.ports.named(x, a) && old.ports.named(y, b)
            && old.connection_from@.contains_key(x) && old.connection_from@[x] == y
            && list_at(old.connections_into@, y).contains(x);
        assert(new.ports.named(x, a) && new.ports.named(y, b));
    }
    assert forall|a: (PortKind, Seq<Seq<char>>), t: usize| a != k && #[trigger] fixed_at(old, a, t) implies fixed_at(new, a, t) by {
        let x = choose|x: u64| #[trigger] old.ports.named(x, a) && old.evaluations@.contains_key(x)
            && old.evaluations@[x] == Some(t);
        assert(new.ports.named(x, a));
    }
    assert forall|a: (PortKind, Seq<Seq<char>>)| a != k && #[trigger] unconstrained(old, a) implies unconstrained(new, a) by {
        assert forall|id: u64| #[trigger] new.ports.named(id, a) implies !new.constraints@.contains_key(id) by {
            assert(id != f);
            if new.constraints@.contains_key(id) {
                assert(old.constraints@.contains_key(id));
                assert(id < old.ports.keys@.len());
                assert(key_view(&new.ports.keys@[id as int]) == key_view(&old.ports.keys@[id as int]));
                assert(old.ports.named(id, a));
            }
        }
    }
}

/// Redirect the port named `from` into the port named `into`, naming them
/// as needed. Returns the id of `from`.
pub(crate) fn redirect_keys(inf: &mut Inferences, from: PortKey, into: PortKey) -> (f: u64)
    requires
        old(inf).wf(),
        constrained_named(old(inf)),
        unconstrained(old(inf), key_view(&from)),
    ensures
        final(inf).wf(),
        constrained_named(final(inf)),
        final(inf).ports.named(f, key_view(&from)),
        redirected(final(inf), key_view(&from), key_view(&into)),
        keeps(old(inf), final(inf), f),
{
    let ghost fk = key_view(&from);
    let ghost ik = key_view(&into);
    let f = inf.ports.port(from);
    let t = inf.ports.port(into);
    proof {
        if f < old(inf).ports.keys@.len() {
            assert(key_view(&inf.ports.keys@[f as int]) == key_view(&old(inf).ports.keys@[f as int]));
            assert(old(inf).ports.named(f, fk));
        }
        assert(!inf.constraints@.contains_key(f));
        assert(inf.ports.named(f, fk));
    }
    let ghost mid = *inf;
    inf.redirect(f, t);
    proof {
        assert(inf.ports.named(t, ik));
        assert(list_added(mid.redirections_into@, t, f).contains(f)) by {
            if !list_at(mid.redirections_into@, t).contains(f) {
                assert(list_at(mid.redirections_into@, t).push(f).last() == f);
            }
        }
        assert forall|x: u64, y: u64| #[trigger] list_at(old(inf).redirections_into@, x).contains(y)
            implies list_at(inf.redirections_into@, x).contains(y) by {
            if x == t && !list_at(old(inf).redirections_into@, t).contains(f) {
                let k = choose|k: int| 0 <= k < list_at(old(inf).redirections_into@, x).len() && list_at(old(inf).redirections_into@, x)[k] == y;
                assert(list_at(inf.redirections_into@, x)[k] == y);
            }
        }
        assert forall|i: int| 0 <= i < old(inf).ports.keys@.len() implies key_view(&inf.ports.keys@[i]) == key_view(&old(inf).ports.keys@[i]) by {
            assert(inf.ports.keys@[i] == old(inf).ports.keys@[i]);
        }
        assert(redirected(&*inf, fk, ik)) by {
            assert(inf.ports.named(f, fk) && inf.ports.named(t, ik));
        }
    }
    f
}


/// Connect the output named `from` into the port named `into`, naming them
/// as needed. Returns the id of `from`.
pub(crate) fn connect_keys(inf: &mut Inferences, from: PortKey, into: PortKey) -> (f: u64)
    requires
        old(inf).wf(),
        constrained_named(old(inf)),
    ensures
        final(inf).wf(),
        constrained_named(final(inf)),
        final(inf).ports.named(f, key_view(&from)),
        connected(final(inf), key_view(&from), key_view(&into)),
        keeps(old(inf), final(inf), f),
        final(inf).evaluations@ == old(inf).evaluations@,
        final(inf).constraints@ == old(inf).constraints@,
        final(inf).buffer_hints@ == old(inf).buffer_hints@,
{
    let ghost fk = key_view(&from);
    let ghost ik = key_view(&into);
    let f = inf.ports.port(from);
    let t = inf.ports.port(into);
    let ghost mid = *inf;
    inf.connect(f, t);
    proof {
        assert(inf.ports.named(t, ik));
        assert(list_added(mid.connections_into@, t, f).contains(f)) by {
            if !list_at(mid.connections_into@, t).contains(f) {
                assert(list_at(mid.connections_into@, t).push(f).last() == f);
            }
        }
        assert forall|x: u64, y: u64| #[trigger] list_at(old(inf).connections_into@, x).contains(y)
            implies list_at(inf.connections_into@, x).contains(y) by {
            if x == t && !list_at(old(inf).connections_into@, t).contains(f) {
                let k = choose|k: int| 0 <= k < list_at(old(inf).connections_into@, x).len() && list_at(old(inf).connections_into@, x)[k] == y;
                assert(list_at(inf.connections_into@, x)[k] == y);
            }
        }
        assert forall|i: int| 0 <= i < old(inf).ports.keys@.len() implies key_view(&inf.ports.keys@[i]) == key_view(&old(inf).ports.keys@[i]) by {
            assert(inf.ports.keys@[i] == old(inf).ports.keys@[i]);
        }
        assert(connected(&*inf, fk, ik)) by {
            assert(inf.ports.named(f, fk) && inf.ports.named(t, ik));
        }
    }
    f
}

/// Give the port named `k` exactly message type `message_type`, naming it
/// as needed. Returns its id.
pub(crate) fn fixed_key(inf: &mut Inferences, k: PortKey, message_type: usize) -> (f: u64)
    requires
        old(inf).wf(),
        constrained_named(old(inf)),
    ensures
        final(inf).wf(),
        constrained_named(final(inf)),
        final(inf).ports.named(f, key_view(&k)),
        fixed_at(final(inf), key_view(&k), message_type),
        keeps(old(inf), final(inf), f),
        final(inf).buffer_hints@ == old(inf).buffer_hints@,
        final(inf).constraints@ == old(inf).constraints@,
        final(inf).connection_from@ == old(inf).connection_from@,
        final(inf).connections_into@ == old(inf).connections_into@,
{
    let ghost kv = key_view(&k);
    let f = inf.ports.port(k);
    inf.fixed(f, message_type);
    proof {
        assert forall|i: int| 0 <= i < old(inf).ports.keys@.len() implies key_view(&inf.ports.keys@[i]) == key_view(&old(inf).ports.keys@[i]) by {
            assert(inf.ports.keys@[i] == old(inf).ports.keys@[i]);
        }
        assert(inf.ports.named(f, kv));
    }
    f
}


/// Facts about fixed types survive a step that changes no evaluation.
pub(crate) proof fn lemma_fixed_kept(old: &Inferences, new: &Inferences, f: u64)
    requires
        keeps(old, new, f),
        new.evaluations@ == old.evaluations@,
    ensures
        forall|a: (PortKind, Seq<Seq<char>>), t: usize| #[trigger] fixed_at(old, a, t) ==> fixed_at(new, a, t),
{
    assert forall|a: (PortKind, Seq<Seq<char>>), t: usize| #[trigger] fixed_at(old, a, t) implies fixed_at(new, a, t) by {
        let x = choose|x: u64| #[trigger] old.ports.named(x, a) && old.evaluations@.contains_key(x)
            && old.evaluations@[x] == Some(t);
        assert(key_view(&new.ports.keys@[x as int]) == key_view(&old.ports.keys@[x as int]));
        assert(new.ports.named(x, a));
    }
}

/// Where a connection goes: an operation by its name, an input that a
/// section exposes, or the terminate, cancel or dispose of the scope.
pub enum NextOperation {
    Name(String),
    Namespace { namespace: String, operation: String },
    Terminate,
    Cancel,
    Dispose,
}

/// The ports that a section builder exposes, each with its message type.
pub struct SectionInterface {
    pub inputs: Vec<(String, usize)>,
    pub buffers: Vec<(String, Option<usize>)>,
    pub outputs: Vec<(String, usize)>,
}

/// The registered section builders, by name.
pub struct SectionRegistrations {
    pub sections: Vec<(String, SectionInterface)>,
}

/// A section made from a template: the operations inside it, the operation
/// inside it that each exposed input and buffer goes to, and the names of
/// its outputs.
pub struct SectionTemplate {
    /// The operations inside the template, by name.
    pub ops: Vec<(String, DiagramOperation)>,
    pub inputs: Vec<(String, NextOperation)>,
    pub buffers: Vec<(String, NextOperation)>,
    pub outputs: Vec<String>,
}

/// The section templates of a diagram, by name.
pub struct Templates {
    pub templates: Vec<(String, SectionTemplate)>,
}

/// Where a section comes from.
pub enum SectionProvider {
    Builder(String),
    Template(String),
}

/// A section operation: its provider, and where each of its outputs
/// connects.
pub struct SectionSchema {
    pub provider: SectionProvider,
    pub connect: Vec<(String, NextOperation)>,
}

/// Why the constraints of a section could not be gathered.
#[derive(Debug)]
pub enum SectionError {
    UnknownSectionBuilder(String),
    UnknownTemplate(String),
    UnknownOutput(String),
}

/// An operation that lives inside another: its namespaces and its name.
pub struct ChildOperation {
    pub namespaces: Vec<String>,
    pub id: String,
}

/// A child operation, taken as plain values.
pub open spec fn child_view(c: ChildOperation) -> (Seq<Seq<char>>, Seq<char>) {
    (names_view(c.namespaces@), c.id@)
}

/// A list of child operations, taken as plain values.
pub open spec fn children_view(s: Seq<ChildOperation>) -> Seq<(Seq<Seq<char>>, Seq<char>)> {
    s.map_values(|c: ChildOperation| child_view(c))
}

/// The operations inside a template section `id` in namespaces `ns`, as
/// children of the section.
pub open spec fn children_of(ns: Seq<Seq<char>>, id: Seq<char>, ops: Seq<(String, DiagramOperation)>) -> Seq<(Seq<Seq<char>>, Seq<char>)> {
    Seq::new(ops.len(), |j: int| (ns.push(id), ops[j].0@))
}

/// Queue each operation of `ops` as a child of section `id`.
pub(crate) fn add_children(children: &mut Vec<ChildOperation>, ns: &Vec<String>, id: &String, ops: &Vec<(String, DiagramOperation)>)
    ensures
        children_view(final(children)@)
            == children_view(old(children)@) + children_of(names_view(ns@), id@, ops@),
{
    let ghost base = children@;
    let mut i: usize = 0;
    while i < ops.len()
        invariant
            i <= ops@.len(),
            children@.len() == base.len() + i,
            forall|k: int| 0 <= k < base.len() ==> (#[trigger] children@[k]) == base[k],
            forall|k: int| 0 <= k < i ==> child_view(children@[base.len() + k]) == (names_view(ns@).push(id@), (#[trigger] ops@[k]).0@),
        decreases ops.len() - i,
    {
        let inner = inner_namespaces(ns, id);
        children.push(ChildOperation { namespaces: inner, id: ops[i].0.clone() });
        i += 1;
    }
    assert(children_view(children@)
        =~= children_view(base) + children_of(names_view(ns@), id@, ops@)) by {
        assert forall|k: int| 0 <= k < children@.len() implies #[trigger] children_view(children@)[k]
            == (children_view(base) + children_of(names_view(ns@), id@, ops@))[k] by {
            if k >= base.len() {
                let m = k - base.len();
                assert(child_view(children@[base.len() + m]) == (names_view(ns@).push(id@), ops@[m].0@));
            }
        }
    }
}

/// The name of the port that `next` refers to from within namespaces `ns`.
pub open spec fn next_key(ns: Seq<Seq<char>>, next: NextOperation) -> (PortKind, Seq<Seq<char>>) {
    match next {
        NextOperation::Name(n) => (PortKind::Input, ns.push(n@)),
        NextOperation::Namespace { namespace, operation } => (PortKind::ExposedInput, ns.push(namespace@).push(operation@)),
        NextOperation::Terminate => (PortKind::Terminate, ns),
        NextOperation::Cancel => (PortKind::Cancel, ns),
        NextOperation::Dispose => (PortKind::Dispose, ns),
    }
}

/// The input `name` that section `id` in namespaces `ns` exposes.
pub open spec fn exposed_key(ns: Seq<Seq<char>>, id: Seq<char>, name: Seq<char>) -> (PortKind, Seq<Seq<char>>) {
    (PortKind::ExposedInput, ns.push(id).push(name))
}

/// Output `name` under `label` of operation `id` in namespaces `ns`, such
/// as a section's `connect` outputs and a node's `stream_out` outputs.
pub open spec fn labelled_output_key(ns: Seq<Seq<char>>, id: Seq<char>, label: Seq<char>, name: Seq<char>) -> (PortKind, Seq<Seq<char>>) {
    (PortKind::Output, ns.push(id).push(label).push(name))
}

/// Output `name` of section `id` in namespaces `ns`.
pub open spec fn section_output_key(ns: Seq<Seq<char>>, id: Seq<char>, name: Seq<char>) -> (PortKind, Seq<Seq<char>>) {
    labelled_output_key(ns, id, "connect"@, name)
}

/// The operation inside section `id` that collects its output `name`.
pub open spec fn inner_output_key(ns: Seq<Seq<char>>, id: Seq<char>, name: Seq<char>) -> (PortKind, Seq<Seq<char>>) {
    (PortKind::Input, ns.push(id).push(name))
}

/// The first entry of `v` named `name` is at `i`.
pub open spec fn first_named<X>(v: Seq<(String, X)>, name: Seq<char>, i: int) -> bool {
    0 <= i < v.len() && v[i].0@ == name && forall|j: int| 0 <= j < i ==> v[j].0@ != name
}

/// Some entry of `v` is named `name`.
pub open spec fn has_named<X>(v: Seq<(String, X)>, name: Seq<char>) -> bool {
    exists|i: int| 0 <= i < v.len() && v[i].0@ == name
}

/// The names of the entries of `v`.
pub open spec fn entry_names<X>(v: Seq<(String, X)>) -> Seq<Seq<char>> {
    v.map_values(|p: (String, X)| p.0@)
}

/// The first template named `name`.
pub open spec fn template_named(templates: &Templates, name: Seq<char>) -> SectionTemplate {
    templates.templates@[choose|i: int| first_named(templates.templates@, name, i)].1
}

/// The interface of the first section builder named `name`.
pub open spec fn interface_named(sections: &SectionRegistrations, name: Seq<char>) -> SectionInterface {
    sections.sections@[choose|i: int| first_named(sections.sections@, name, i)].1
}

/// The ports that a template redirects are told apart by their names, and
/// none is constrained yet.
pub open spec fn template_ready(inf: &Inferences, ns: Seq<Seq<char>>, id: Seq<char>, t: SectionTemplate) -> bool {
    &&& (entry_names(t.inputs@) + entry_names(t.buffers@)).no_duplicates()
    &&& names_view(t.outputs@).no_duplicates()
    &&& forall|j: int| 0 <= j < t.inputs@.len() ==> unconstrained(inf, exposed_key(ns, id, (#[trigger] t.inputs@[j]).0@))
    &&& forall|j: int| 0 <= j < t.buffers@.len() ==> unconstrained(inf, exposed_key(ns, id, (#[trigger] t.buffers@[j]).0@))
    &&& forall|j: int| 0 <= j < t.outputs@.len() ==> unconstrained(inf, inner_output_key(ns, id, (#[trigger] t.outputs@[j])@))
}

/// The ports of an interface are told apart by their names.
pub open spec fn interface_ready(i: SectionInterface) -> bool {
    &&& (entry_names(i.inputs@) + entry_names(i.buffers@)).no_duplicates()
    &&& entry_names(i.outputs@).no_duplicates()
}

/// The names `ns` followed by the names `tail`.
pub(crate) fn names_then(ns: &Vec<String>, tail: Vec<String>) -> (p: Vec<String>)
    ensures
        names_view(p@) == names_view(ns@) + names_view(tail@),
{
    let mut p: Vec<String> = Vec::new();
    let mut i: usize = 0;
    while i < ns.len()
        invariant
            i <= ns@.len(),
            p@.len() == i,
            forall|k: int| 0 <= k < i ==> (#[trigger] p@[k])@ == ns@[k]@,
        decreases ns.len() - i,
    {
        let n = ns[i].clone();
        p.push(n);
        i += 1;
    }
    let mut j: usize = 0;
    let ghost base = p@;
    while j < tail.len()
        invariant
            j <= tail@.len(),
            base.len() == ns@.len(),
            p@.len() == base.len() + j,
            forall|k: int| 0 <= k < base.len() ==> (#[trigger] p@[k])@ == ns@[k]@,
            forall|k: int| 0 <= k < j ==> p@[base.len() + k]@ == (#[trigger] tail@[k])@,
        decreases tail.len() - j,
    {
        let n = tail[j].clone();
        p.push(n);
        j += 1;
    }
    assert(names_view(p@) =~= names_view(ns@) + names_view(tail@)) by {
        assert forall|k: int| 0 <= k < p@.len() implies names_view(p@)[k] == (names_view(ns@) + names_view(tail@))[k] by {
            if k < base.len() {
                assert(p@[k]@ == ns@[k]@);
            } else {
                let m = k - base.len();
                assert(p@[base.len() + m]@ == tail@[m]@);
            }
        }
    }
    p
}

/// The port that `next` refers to from within namespaces `ns`.
pub(crate) fn next_port(ns: &Vec<String>, next: &NextOperation) -> (k: PortKey)
    ensures
        key_view(&k) == next_key(names_view(ns@), *next),
{
    match next {
        NextOperation::Name(n) => {
            let p = names_then(ns, vec![n.clone()]);
            assert(names_view(p@) =~= names_view(ns@).push(n@));
            PortKey { kind: PortKind::Input, path: p }
        },
        NextOperation::Namespace { namespace, operation } => {
            let p = names_then(ns, vec![namespace.clone(), operation.clone()]);
            assert(names_view(p@) =~= names_view(ns@).push(namespace@).push(operation@));
            PortKey { kind: PortKind::ExposedInput, path: p }
        },
        NextOperation::Terminate => {
            let p = names_then(ns, Vec::new());
            assert(names_view(p@) =~= names_view(ns@));
            PortKey { kind: PortKind::Terminate, path: p }
        },
        NextOperation::Cancel => {
            let p = names_then(ns, Vec::new());
            assert(names_view(p@) =~= names_view(ns@));
            PortKey { kind: PortKind::Cancel, path: p }
        },
        NextOperation::Dispose => {
            let p = names_then(ns, Vec::new());
            assert(names_view(p@) =~= names_view(ns@));
            PortKey { kind: PortKind::Dispose, path: p }
        },
    }
}

/// A port of section `id` in namespaces `ns`, of kind `kind`, named by
/// `tail` after the section.
pub(crate) fn section_port(ns: &Vec<String>, id: &String, kind: PortKind, tail: Vec<String>) -> (k: PortKey)
    ensures
        k.kind == kind,
        names_view(k.path@) == names_view(ns@).push(id@) + names_view(tail@),
{
    let mut t = vec![id.clone()];
    let ghost first = t@;
    let mut rest = tail;
    t.append(&mut rest);
    let p = names_then(ns, t);
    proof {
        assert(names_view(t@) =~= seq![id@] + names_view(tail@));
        assert(names_view(p@) =~= names_view(ns@).push(id@) + names_view(tail@));
    }
    PortKey { kind, path: p }
}

/// The index of the first entry of `v` named `name`.
fn find_named<X>(v: &Vec<(String, X)>, name: &String) -> (r: Option<usize>)
    ensures
        r matches Some(i) ==> first_named(v@, name@, i as int),
        r is None ==> !has_named(v@, name@),
{
    let mut i: usize = 0;
    while i < v.len()
        invariant
            i <= v@.len(),
            forall|j: int| 0 <= j < i ==> v@[j].0@ != name@,
        decreases v.len() - i,
    {
        if v[i].0.eq(name) {
            return Some(i);
        }
        i += 1;
    }
    None
}

/// Whether `v` holds `name`.
fn holds_name(v: &Vec<String>, name: &String) -> (r: bool)
    ensures
        r == names_view(v@).contains(name@),
{
    let mut i: usize = 0;
    while i < v.len()
        invariant
            i <= v@.len(),
            forall|j: int| 0 <= j < i ==> v@[j]@ != name@,
        decreases v.len() - i,
    {
        if v[i].eq(name) {
            assert(names_view(v@)[i as int] == name@);
            return true;
        }
        i += 1;
    }
    proof {
        if names_view(v@).contains(name@) {
            let j = choose|j: int| 0 <= j < names_view(v@).len() && names_view(v@)[j] == name@;
            assert(v@[j]@ == name@);
        }
    }
    false
}


/// The redirections that a template section makes: each exposed input and
/// buffer into the operation inside the section that it goes to, and each
/// output that `connect` names into where it connects.
pub open spec fn template_redirects(inf: &Inferences, ns: Seq<Seq<char>>, id: Seq<char>, t: SectionTemplate, connect: Seq<(String, NextOperation)>) -> bool {
    &&& forall|j: int| 0 <= j < t.inputs@.len() ==> redirected(inf,
            exposed_key(ns, id, (#[trigger] t.inputs@[j]).0@), next_key(ns.push(id), t.inputs@[j].1))
    &&& forall|j: int| 0 <= j < t.buffers@.len() ==> redirected(inf,
            exposed_key(ns, id, (#[trigger] t.buffers@[j]).0@), next_key(ns.push(id), t.buffers@[j].1))
    &&& forall|j: int, k: int| 0 <= j < t.outputs@.len() && 0 <= k < connect.len()
            && (#[trigger] connect[k]).0@ == (#[trigger] t.outputs@[j])@
            ==> redirected(inf, inner_output_key(ns, id, t.outputs@[j]@), next_key(ns, connect[k].1))
}

/// Some name that `connect` gives is not an output of `t`.
pub open spec fn unknown_output(t: SectionTemplate, connect: Seq<(String, NextOperation)>) -> bool {
    exists|k: int| 0 <= k < connect.len() && !names_view(t.outputs@).contains((#[trigger] connect[k]).0@)
}

proof fn lemma_push_differs(x: Seq<Seq<char>>, a: Seq<char>, b: Seq<char>)
    requires
        a != b,
    ensures
        x.push(a) != x.push(b),
{
    assert(x.push(a)[x.len() as int] == a);
    assert(x.push(b)[x.len() as int] == b);
}

/// The namespaces `ns` with section `id` added.
pub(crate) fn inner_namespaces(ns: &Vec<String>, id: &String) -> (p: Vec<String>)
    ensures
        names_view(p@) == names_view(ns@).push(id@),
{
    let p = names_then(ns, vec![id.clone()]);
    assert(names_view(p@) =~= names_view(ns@).push(id@));
    p
}

/// Redirect each exposed entry of `entries` (the inputs or the buffers of a
/// template) into the operation inside the section that it goes to.
fn redirect_exposed(inf: &mut Inferences, ns: &Vec<String>, id: &String, entries: &Vec<(String, NextOperation)>, others: Ghost<Seq<(PortKind, Seq<Seq<char>>)>>)
    requires
        old(inf).wf(),
        constrained_named(old(inf)),
        entry_names(entries@).no_duplicates(),
        forall|j: int| 0 <= j < entries@.len() ==> unconstrained(old(inf), exposed_key(names_view(ns@), id@, (#[trigger] entries@[j]).0@)),
        forall|m: int| 0 <= m < others@.len() ==> unconstrained(old(inf), #[trigger] others@[m]),
        forall|m: int, j: int| 0 <= m < others@.len() && 0 <= j < entries@.len()
            ==> #[trigger] others@[m] != exposed_key(names_view(ns@), id@, (#[trigger] entries@[j]).0@),
    ensures
        final(inf).wf(),
        constrained_named(final(inf)),
        forall|j: int| 0 <= j < entries@.len() ==> redirected(final(inf),
            exposed_key(names_view(ns@), id@, (#[trigger] entries@[j]).0@), next_key(names_view(ns@).push(id@), entries@[j].1)),
        forall|m: int| 0 <= m < others@.len() ==> unconstrained(final(inf), #[trigger] others@[m]),
        forall|a: (PortKind, Seq<Seq<char>>), b: (PortKind, Seq<Seq<char>>)|
            (forall|j: int| 0 <= j < entries@.len() ==> a != exposed_key(names_view(ns@), id@, (#[trigger] entries@[j]).0@))
            && #[trigger] redirected(old(inf), a, b) ==> redirected(final(inf), a, b),
{
    let ghost nsv = names_view(ns@);
    let inner = inner_namespaces(ns, id);
    let mut i: usize = 0;
    while i < entries.len()
        invariant
            inf.wf(),
            constrained_named(inf),
            i <= entries@.len(),
            nsv == names_view(ns@),
            names_view(inner@) == nsv.push(id@),
            entry_names(entries@).no_duplicates(),
            forall|j: int| 0 <= j < i ==> redirected(inf,
                exposed_key(nsv, id@, (#[trigger] entries@[j]).0@), next_key(nsv.push(id@), entries@[j].1)),
            forall|j: int| i <= j < entries@.len() ==> unconstrained(inf, exposed_key(nsv, id@, (#[trigger] entries@[j]).0@)),
            forall|m: int| 0 <= m < others@.len() ==> unconstrained(inf, #[trigger] others@[m]),
            forall|m: int, j: int| 0 <= m < others@.len() && 0 <= j < entries@.len()
                ==> #[trigger] others@[m] != exposed_key(nsv, id@, (#[trigger] entries@[j]).0@),
            forall|a: (PortKind, Seq<Seq<char>>), b: (PortKind, Seq<Seq<char>>)|
                (forall|j: int| 0 <= j < entries@.len() ==> a != exposed_key(nsv, id@, (#[trigger] entries@[j]).0@))
                && #[trigger] redirected(old(inf), a, b) ==> redirected(inf, a, b),
        decreases entries.len() - i,
    {
        let ghost before = *inf;
        let ghost ki = exposed_key(nsv, id@, entries@[i as int].0@);
        let from = section_port(ns, id, PortKind::ExposedInput, vec![entries[i].0.clone()]);
        let into = next_port(&inner, &entries[i].1);
        proof {
            assert(names_view(from.path@) =~= nsv.push(id@).push(entries@[i as int].0@));
            assert(key_view(&from) == ki);
        }
        let f = redirect_keys(inf, from, into);
        proof {
            lemma_keeps(&before, inf, f, ki);
            assert forall|j: int| 0 <= j < entries@.len() && j != i implies
                exposed_key(nsv, id@, (#[trigger] entries@[j]).0@) != ki by {
                assert(entry_names(entries@)[j] == entries@[j].0@);
                assert(entry_names(entries@)[i as int] == entries@[i as int].0@);
                lemma_push_differs(nsv.push(id@), entries@[j].0@, entries@[i as int].0@);
            }
            assert forall|j: int| 0 <= j < i + 1 implies redirected(&*inf,
                exposed_key(nsv, id@, (#[trigger] entries@[j]).0@), next_key(nsv.push(id@), entries@[j].1)) by {
                if j < i {
                    assert(redirected(&before, exposed_key(nsv, id@, entries@[j].0@), next_key(nsv.push(id@), entries@[j].1)));
                }
            }
            assert forall|j: int| i + 1 <= j < entries@.len() implies unconstrained(&*inf, exposed_key(nsv, id@, (#[trigger] entries@[j]).0@)) by {
                assert(unconstrained(&before, exposed_key(nsv, id@, entries@[j].0@)));
            }
            assert forall|m: int| 0 <= m < others@.len() implies unconstrained(&*inf, #[trigger] others@[m]) by {
                assert(unconstrained(&before, others@[m]));
                assert(others@[m] != exposed_key(nsv, id@, entries@[i as int].0@));
            }
            assert forall|a: (PortKind, Seq<Seq<char>>), b: (PortKind, Seq<Seq<char>>)|
                (forall|j: int| 0 <= j < entries@.len() ==> a != exposed_key(nsv, id@, (#[trigger] entries@[j]).0@))
                && #[trigger] redirected(old(inf), a, b) implies redirected(&*inf, a, b) by {
                assert(a != exposed_key(nsv, id@, entries@[i as int].0@));
                assert(redirected(&before, a, b));
            }
        }
        i += 1;
    }
}


/// Redirect the operation inside section `id` that collects each output of
/// `outputs` into where `connect` says that output goes, if it says.
fn redirect_outputs(inf: &mut Inferences, ns: &Vec<String>, id: &String, outputs: &Vec<String>, connect: &Vec<(String, NextOperation)>, others: Ghost<Seq<(PortKind, Seq<Seq<char>>)>>)
    requires
        old(inf).wf(),
        constrained_named(old(inf)),
        names_view(outputs@).no_duplicates(),
        entry_names(connect@).no_duplicates(),
        forall|j: int| 0 <= j < outputs@.len() ==> unconstrained(old(inf), inner_output_key(names_view(ns@), id@, (#[trigger] outputs@[j])@)),
        forall|m: int| 0 <= m < others@.len() ==> unconstrained(old(inf), #[trigger] others@[m]),
        forall|m: int| 0 <= m < others@.len() ==> (#[trigger] others@[m]).0 != PortKind::Input,
    ensures
        final(inf).wf(),
        constrained_named(final(inf)),
        forall|j: int, k: int| 0 <= j < outputs@.len() && 0 <= k < connect@.len()
            && (#[trigger] connect@[k]).0@ == (#[trigger] outputs@[j])@
            ==> redirected(final(inf), inner_output_key(names_view(ns@), id@, outputs@[j]@), next_key(names_view(ns@), connect@[k].1)),
        forall|m: int| 0 <= m < others@.len() ==> unconstrained(final(inf), #[trigger] others@[m]),
        forall|a: (PortKind, Seq<Seq<char>>), b: (PortKind, Seq<Seq<char>>)|
            a.0 != PortKind::Input && #[trigger] redirected(old(inf), a, b) ==> redirected(final(inf), a, b),
{
    let ghost nsv = names_view(ns@);
    let mut i: usize = 0;
    while i < outputs.len()
        invariant
            inf.wf(),
            constrained_named(inf),
            i <= outputs@.len(),
            nsv == names_view(ns@),
            names_view(outputs@).no_duplicates(),
            entry_names(connect@).no_duplicates(),
            forall|j: int, k: int| 0 <= j < i && 0 <= k < connect@.len()
                && (#[trigger] connect@[k]).0@ == (#[trigger] outputs@[j])@
                ==> redirected(inf, inner_output_key(nsv, id@, outputs@[j]@), next_key(nsv, connect@[k].1)),
            forall|j: int| i <= j < outputs@.len() ==> unconstrained(inf, inner_output_key(nsv, id@, (#[trigger] outputs@[j])@)),
            forall|m: int| 0 <= m < others@.len() ==> unconstrained(inf, #[trigger] others@[m]),
            forall|m: int| 0 <= m < others@.len() ==> (#[trigger] others@[m]).0 != PortKind::Input,
            forall|a: (PortKind, Seq<Seq<char>>), b: (PortKind, Seq<Seq<char>>)|
                a.0 != PortKind::Input && #[trigger] redirected(old(inf), a, b) ==> redirected(inf, a, b),
        decreases outputs.len() - i,
    {
        match find_named(connect, &outputs[i]) {
            None => {
                proof {
                    assert forall|j: int, k: int| 0 <= j < i + 1 && 0 <= k < connect@.len()
                        && (#[trigger] connect@[k]).0@ == (#[trigger] outputs@[j])@
                        implies redirected(&*inf, inner_output_key(nsv, id@, outputs@[j]@), next_key(nsv, connect@[k].1)) by {
                        if j == i {
                            assert(!has_named(connect@, outputs@[i as int]@));
                        }
                    }
                }
            },
            Some(k0) => {
                let ghost before = *inf;
                let ghost ki = inner_output_key(nsv, id@, outputs@[i as int]@);
                let from = section_port(ns, id, PortKind::Input, vec![outputs[i].clone()]);
                let into = next_port(ns, &connect[k0].1);
                proof {
                    assert(names_view(from.path@) =~= nsv.push(id@).push(outputs@[i as int]@));
                    assert(key_view(&from) == ki);
                }
                let f = redirect_keys(inf, from, into);
                proof {
                    lemma_keeps(&before, inf, f, ki);
                    assert forall|j: int| 0 <= j < outputs@.len() && j != i implies
                        inner_output_key(nsv, id@, (#[trigger] outputs@[j])@) != ki by {
                        assert(names_view(outputs@)[j] == outputs@[j]@);
                        assert(names_view(outputs@)[i as int] == outputs@[i as int]@);
                        lemma_push_differs(nsv.push(id@), outputs@[j]@, outputs@[i as int]@);
                    }
                    assert forall|j: int, k: int| 0 <= j < i + 1 && 0 <= k < connect@.len()
                        && (#[trigger] connect@[k]).0@ == (#[trigger] outputs@[j])@
                        implies redirected(&*inf, inner_output_key(nsv, id@, outputs@[j]@), next_key(nsv, connect@[k].1)) by {
                        if j < i {
                            assert(redirected(&before, inner_output_key(nsv, id@, outputs@[j]@), next_key(nsv, connect@[k].1)));
                        } else {
                            if k != k0 {
                                assert(entry_names(connect@)[k] == connect@[k].0@);
                                assert(entry_names(connect@)[k0 as int] == connect@[k0 as int].0@);
                            }
                        }
                    }
                    assert forall|j: int| i + 1 <= j < outputs@.len() implies unconstrained(&*inf, inner_output_key(nsv, id@, (#[trigger] outputs@[j])@)) by {
                        assert(unconstrained(&before, inner_output_key(nsv, id@, outputs@[j]@)));
                    }
                    assert forall|m: int| 0 <= m < others@.len() implies unconstrained(&*inf, #[trigger] others@[m]) by {
                        assert(unconstrained(&before, others@[m]));
                    }
                    assert forall|a: (PortKind, Seq<Seq<char>>), b: (PortKind, Seq<Seq<char>>)|
                        a.0 != PortKind::Input && #[trigger] redirected(old(inf), a, b) implies redirected(&*inf, a, b) by {
                        assert(redirected(&before, a, b));
                    }
                }
            },
        }
        i += 1;
    }
}

/// The constraints of a section made from template `t`.
fn template_section(inf: &mut Inferences, children: &mut Vec<ChildOperation>, ns: &Vec<String>, id: &String, t: &SectionTemplate, connect: &Vec<(String, NextOperation)>) -> (r: Result<(), SectionError>)
    requires
        old(inf).wf(),
        constrained_named(old(inf)),
        template_ready(old(inf), names_view(ns@), id@, *t),
        unconstrained(old(inf), (PortKind::Terminate, names_view(ns@).push(id@))),
        entry_names(connect@).no_duplicates(),
    ensures
        children_view(final(children)@)
            == children_view(old(children)@) + children_of(names_view(ns@), id@, t.ops@),
        final(inf).wf(),
        constrained_named(final(inf)),
        r is Err <==> unknown_output(*t, connect@),
        r matches Err(e) ==> (e matches SectionError::UnknownOutput(o) && has_named(connect@, o@)
            && !names_view(t.outputs@).contains(o@)),
        r is Ok ==> template_redirects(final(inf), names_view(ns@), id@, *t, connect@)
            && redirected(final(inf), (PortKind::Terminate, names_view(ns@).push(id@)), (PortKind::Terminate, names_view(ns@))),
{
    let ghost nsv = names_view(ns@);
    let ghost term = (PortKind::Terminate, nsv.push(id@));
    let ghost out_keys = Seq::new(t.outputs@.len(), |j: int| inner_output_key(nsv, id@, t.outputs@[j]@));
    let ghost buf_keys = Seq::new(t.buffers@.len(), |j: int| exposed_key(nsv, id@, t.buffers@[j].0@));
    let ghost in_keys = Seq::new(t.inputs@.len(), |j: int| exposed_key(nsv, id@, t.inputs@[j].0@));
    let ghost others1 = out_keys + buf_keys + seq![term];
    add_children(children, ns, id, &t.ops);
    proof {
        let all = entry_names(t.inputs@) + entry_names(t.buffers@);
        assert(entry_names(t.inputs@).no_duplicates()) by {
            assert forall|a: int, b: int| 0 <= a < b < entry_names(t.inputs@).len() implies entry_names(t.inputs@)[a] != entry_names(t.inputs@)[b] by {
                assert(all[a] == entry_names(t.inputs@)[a] && all[b] == entry_names(t.inputs@)[b]);
            }
        }
        assert forall|m: int| 0 <= m < others1.len() implies unconstrained(old(inf), #[trigger] others1[m]) by {
            if m < out_keys.len() {
                assert(unconstrained(old(inf), inner_output_key(nsv, id@, t.outputs@[m]@)));
            } else if m < out_keys.len() + buf_keys.len() {
                let j = m - out_keys.len();
                assert(unconstrained(old(inf), exposed_key(nsv, id@, t.buffers@[j].0@)));
            }
        }
        assert forall|m: int, j: int| 0 <= m < others1.len() && 0 <= j < t.inputs@.len()
            implies #[trigger] others1[m] != exposed_key(nsv, id@, (#[trigger] t.inputs@[j]).0@) by {
            if out_keys.len() <= m < out_keys.len() + buf_keys.len() {
                let b = m - out_keys.len();
                assert(all[j] == t.inputs@[j].0@);
                assert(all[entry_names(t.inputs@).len() + b] == t.buffers@[b].0@);
                lemma_push_differs(nsv.push(id@), t.inputs@[j].0@, t.buffers@[b].0@);
            }
        }
    }
    redirect_exposed(inf, ns, id, &t.inputs, Ghost(others1));
    let ghost after_inputs = *inf;
    let ghost others2 = out_keys + seq![term];
    proof {
        let all = entry_names(t.inputs@) + entry_names(t.buffers@);
        assert(entry_names(t.buffers@).no_duplicates()) by {
            let n = entry_names(t.inputs@).len();
            assert forall|a: int, b: int| 0 <= a < b < entry_names(t.buffers@).len() implies entry_names(t.buffers@)[a] != entry_names(t.buffers@)[b] by {
                assert(all[n + a] == entry_names(t.buffers@)[a] && all[n + b] == entry_names(t.buffers@)[b]);
            }
        }
        assert forall|m: int| 0 <= m < others2.len() implies unconstrained(&*inf, #[trigger] others2[m]) by {
            if m < out_keys.len() {
                assert(others1[m] == others2[m]);
            } else {
                assert(others1[others1.len() - 1] == others2[m]);
            }
        }
        assert forall|j: int| 0 <= j < t.buffers@.len() implies unconstrained(&*inf, exposed_key(nsv, id@, (#[trigger] t.buffers@[j]).0@)) by {
            assert(others1[out_keys.len() + j] == buf_keys[j]);
        }
    }
    redirect_exposed(inf, ns, id, &t.buffers, Ghost(others2));
    proof {
        assert forall|j: int| 0 <= j < t.inputs@.len() implies redirected(&*inf,
            exposed_key(nsv, id@, (#[trigger] t.inputs@[j]).0@), next_key(nsv.push(id@), t.inputs@[j].1)) by {
            let all = entry_names(t.inputs@) + entry_names(t.buffers@);
            assert(redirected(&after_inputs, exposed_key(nsv, id@, t.inputs@[j].0@), next_key(nsv.push(id@), t.inputs@[j].1)));
            assert forall|b: int| 0 <= b < t.buffers@.len() implies
                exposed_key(nsv, id@, t.inputs@[j].0@) != exposed_key(nsv, id@, (#[trigger] t.buffers@[b]).0@) by {
                assert(all[j] == t.inputs@[j].0@);
                assert(all[entry_names(t.inputs@).len() + b] == t.buffers@[b].0@);
                lemma_push_differs(nsv.push(id@), t.inputs@[j].0@, t.buffers@[b].0@);
            }
        }
    }
    let mut k: usize = 0;
    while k < connect.len()
        invariant
            inf.wf(),
            constrained_named(inf),
            children_view(children@) == children_view(old(children)@) + children_of(names_view(ns@), id@, t.ops@),
            k <= connect@.len(),
            forall|m: int| 0 <= m < k ==> names_view(t.outputs@).contains((#[trigger] connect@[m]).0@),
        decreases connect.len() - k,
    {
        if !holds_name(&t.outputs, &connect[k].0) {
            proof {
                assert(has_named(connect@, connect@[k as int].0@));
            }
            return Err(SectionError::UnknownOutput(connect[k].0.clone()));
        }
        k += 1;
    }
    let ghost after_buffers = *inf;
    let ghost others3 = seq![term];
    proof {
        assert(unconstrained(&*inf, others2[others2.len() - 1]));
        assert forall|j: int| 0 <= j < t.outputs@.len() implies unconstrained(&*inf, inner_output_key(nsv, id@, (#[trigger] t.outputs@[j])@)) by {
            assert(others2[j] == out_keys[j]);
        }
    }
    redirect_outputs(inf, ns, id, &t.outputs, connect, Ghost(others3));
    proof {
        assert(unconstrained(&*inf, others3[0]));
        assert forall|j: int| 0 <= j < t.inputs@.len() implies redirected(&*inf,
            exposed_key(nsv, id@, (#[trigger] t.inputs@[j]).0@), next_key(nsv.push(id@), t.inputs@[j].1)) by {
            assert(redirected(&after_buffers, exposed_key(nsv, id@, t.inputs@[j].0@), next_key(nsv.push(id@), t.inputs@[j].1)));
        }
        assert forall|j: int| 0 <= j < t.buffers@.len() implies redirected(&*inf,
            exposed_key(nsv, id@, (#[trigger] t.buffers@[j]).0@), next_key(nsv.push(id@), t.buffers@[j].1)) by {
            assert(redirected(&after_buffers, exposed_key(nsv, id@, t.buffers@[j].0@), next_key(nsv.push(id@), t.buffers@[j].1)));
        }
    }
    let ghost after_outputs = *inf;
    let inner_term = section_port(ns, id, PortKind::Terminate, Vec::new());
    let outer_term = next_port(ns, &NextOperation::Terminate);
    proof {
        assert(names_view(inner_term.path@) =~= nsv.push(id@));
    }
    let f = redirect_keys(inf, inner_term, outer_term);
    proof {
        lemma_keeps(&after_outputs, inf, f, term);
        assert(template_redirects(&*inf, nsv, id@, *t, connect@)) by {
            assert forall|j: int| 0 <= j < t.inputs@.len() implies redirected(&*inf,
                exposed_key(nsv, id@, (#[trigger] t.inputs@[j]).0@), next_key(nsv.push(id@), t.inputs@[j].1)) by {
                assert(redirected(&after_outputs, exposed_key(nsv, id@, t.inputs@[j].0@), next_key(nsv.push(id@), t.inputs@[j].1)));
            }
            assert forall|j: int| 0 <= j < t.buffers@.len() implies redirected(&*inf,
                exposed_key(nsv, id@, (#[trigger] t.buffers@[j]).0@), next_key(nsv.push(id@), t.buffers@[j].1)) by {
                assert(redirected(&after_outputs, exposed_key(nsv, id@, t.buffers@[j].0@), next_key(nsv.push(id@), t.buffers@[j].1)));
            }
            assert forall|j: int, k: int| 0 <= j < t.outputs@.len() && 0 <= k < connect@.len()
                && (#[trigger] connect@[k]).0@ == (#[trigger] t.outputs@[j])@
                implies redirected(&*inf, inner_output_key(nsv, id@, t.outputs@[j]@), next_key(nsv, connect@[k].1)) by {
                assert(redirected(&after_outputs, inner_output_key(nsv, id@, t.outputs@[j]@), next_key(nsv, connect@[k].1)));
            }
        }
        assert(!unknown_output(*t, connect@));
    }
    Ok(())
}


/// The port of entry `name` of operation `id`: an exposed input, or one of
/// its outputs under `label`.
pub open spec fn entry_key(ns: Seq<Seq<char>>, id: Seq<char>, label: Option<Seq<char>>, name: Seq<char>) -> (PortKind, Seq<Seq<char>>) {
    match label {
        Some(l) => labelled_output_key(ns, id, l, name),
        None => exposed_key(ns, id, name),
    }
}

/// The label of outputs, taken as characters.
pub open spec fn label_view(label: Option<String>) -> Option<Seq<char>> {
    match label {
        Some(l) => Some(l@),
        None => None,
    }
}

/// Give the port of each entry of `entries` that carries a message type
/// that type.
fn fix_entries(inf: &mut Inferences, ns: &Vec<String>, id: &String, entries: &Vec<(String, Option<usize>)>, label: &Option<String>, others: Ghost<Seq<(PortKind, Seq<Seq<char>>)>>)
    requires
        old(inf).wf(),
        constrained_named(old(inf)),
        entry_names(entries@).no_duplicates(),
        forall|m: int| 0 <= m < others@.len() ==> unconstrained(old(inf), #[trigger] others@[m]),
        forall|m: int, j: int| 0 <= m < others@.len() && 0 <= j < entries@.len()
            ==> #[trigger] others@[m] != entry_key(names_view(ns@), id@, label_view(*label), (#[trigger] entries@[j]).0@),
    ensures
        final(inf).wf(),
        constrained_named(final(inf)),
        forall|j: int| 0 <= j < entries@.len() && (#[trigger] entries@[j]).1 is Some
            ==> fixed_at(final(inf), entry_key(names_view(ns@), id@, label_view(*label), entries@[j].0@), entries@[j].1->0),
        forall|m: int| 0 <= m < others@.len() ==> unconstrained(final(inf), #[trigger] others@[m]),
        forall|a: (PortKind, Seq<Seq<char>>), t: usize|
            (forall|j: int| 0 <= j < entries@.len() ==> a != entry_key(names_view(ns@), id@, label_view(*label), (#[trigger] entries@[j]).0@))
            && #[trigger] fixed_at(old(inf), a, t) ==> fixed_at(final(inf), a, t),
        forall|a: (PortKind, Seq<Seq<char>>), b: (PortKind, Seq<Seq<char>>)|
            (forall|j: int| 0 <= j < entries@.len() ==> a != entry_key(names_view(ns@), id@, label_view(*label), (#[trigger] entries@[j]).0@))
            && #[trigger] connected(old(inf), a, b) ==> connected(final(inf), a, b),
{
    let ghost nsv = names_view(ns@);
    let mut i: usize = 0;
    while i < entries.len()
        invariant
            inf.wf(),
            constrained_named(inf),
            i <= entries@.len(),
            nsv == names_view(ns@),
            entry_names(entries@).no_duplicates(),
            forall|j: int| 0 <= j < i && (#[trigger] entries@[j]).1 is Some
                ==> fixed_at(inf, entry_key(nsv, id@, label_view(*label), entries@[j].0@), entries@[j].1->0),
            forall|m: int| 0 <= m < others@.len() ==> unconstrained(inf, #[trigger] others@[m]),
            forall|m: int, j: int| 0 <= m < others@.len() && 0 <= j < entries@.len()
                ==> #[trigger] others@[m] != entry_key(nsv, id@, label_view(*label), (#[trigger] entries@[j]).0@),
            forall|a: (PortKind, Seq<Seq<char>>), t: usize|
                (forall|j: int| 0 <= j < entries@.len() ==> a != entry_key(nsv, id@, label_view(*label), (#[trigger] entries@[j]).0@))
                && #[trigger] fixed_at(old(inf), a, t) ==> fixed_at(inf, a, t),
            forall|a: (PortKind, Seq<Seq<char>>), b: (PortKind, Seq<Seq<char>>)|
                (forall|j: int| 0 <= j < entries@.len() ==> a != entry_key(nsv, id@, label_view(*label), (#[trigger] entries@[j]).0@))
                && #[trigger] connected(old(inf), a, b) ==> connected(inf, a, b),
        decreases entries.len() - i,
    {
        if let Some(message_type) = entries[i].1 {
            let ghost before = *inf;
            let ghost ki = entry_key(nsv, id@, label_view(*label), entries@[i as int].0@);
            let port = match label {
                Some(l) => {
                    let p = section_port(ns, id, PortKind::Output, vec![l.clone(), entries[i].0.clone()]);
                    proof {
                        assert(names_view(p.path@) =~= nsv.push(id@).push(l@).push(entries@[i as int].0@));
                    }
                    p
                },
                None => {
                    let p = section_port(ns, id, PortKind::ExposedInput, vec![entries[i].0.clone()]);
                    proof {
                        assert(names_view(p.path@) =~= nsv.push(id@).push(entries@[i as int].0@));
                    }
                    p
                },
            };
            assert(key_view(&port) == ki);
            let f = fixed_key(inf, port, message_type);
            proof {
                lemma_keeps(&before, inf, f, ki);
                assert forall|j: int| 0 <= j < entries@.len() && j != i implies
                    entry_key(nsv, id@, label_view(*label), (#[trigger] entries@[j]).0@) != ki by {
                    assert(entry_names(entries@)[j] == entries@[j].0@);
                    assert(entry_names(entries@)[i as int] == entries@[i as int].0@);
                    lemma_push_differs(match label_view(*label) { Some(l) => nsv.push(id@).push(l), None => nsv.push(id@) },
                        entries@[j].0@, entries@[i as int].0@);
                }
                assert forall|j: int| 0 <= j < i + 1 && (#[trigger] entries@[j]).1 is Some
                    implies fixed_at(&*inf, entry_key(nsv, id@, label_view(*label), entries@[j].0@), entries@[j].1->0) by {
                    if j < i {
                        assert(fixed_at(&before, entry_key(nsv, id@, label_view(*label), entries@[j].0@), entries@[j].1->0));
                    }
                }
                assert forall|m: int| 0 <= m < others@.len() implies unconstrained(&*inf, #[trigger] others@[m]) by {
                    assert(unconstrained(&before, others@[m]));
                    assert(others@[m] != entry_key(nsv, id@, label_view(*label), entries@[i as int].0@));
                }
                assert forall|a: (PortKind, Seq<Seq<char>>), t: usize|
                    (forall|j: int| 0 <= j < entries@.len() ==> a != entry_key(nsv, id@, label_view(*label), (#[trigger] entries@[j]).0@))
                    && #[trigger] fixed_at(old(inf), a, t) implies fixed_at(&*inf, a, t) by {
                    assert(a != entry_key(nsv, id@, label_view(*label), entries@[i as int].0@));
                    assert(fixed_at(&before, a, t));
                }
                assert forall|a: (PortKind, Seq<Seq<char>>), b: (PortKind, Seq<Seq<char>>)|
                    (forall|j: int| 0 <= j < entries@.len() ==> a != entry_key(nsv, id@, label_view(*label), (#[trigger] entries@[j]).0@))
                    && #[trigger] connected(old(inf), a, b) implies connected(&*inf, a, b) by {
                    assert(a != entry_key(nsv, id@, label_view(*label), entries@[i as int].0@));
                    assert(connected(&before, a, b));
                }
            }
        }
        i += 1;
    }
}


/// Entries that each carry a message type, as entries that may carry one.
fn as_optional(v: &Vec<(String, usize)>) -> (r: Vec<(String, Option<usize>)>)
    ensures
        r@.len() == v@.len(),
        entry_names(r@) == entry_names(v@),
        forall|j: int| 0 <= j < v@.len() ==> (#[trigger] r@[j]).1 == Some(v@[j].1) && r@[j].0@ == v@[j].0@,
{
    let mut r: Vec<(String, Option<usize>)> = Vec::new();
    let mut i: usize = 0;
    while i < v.len()
        invariant
            i <= v@.len(),
            r@.len() == i,
            forall|j: int| 0 <= j < i ==> (#[trigger] r@[j]).1 == Some(v@[j].1) && r@[j].0@ == v@[j].0@,
        decreases v.len() - i,
    {
        r.push((v[i].0.clone(), Some(v[i].1)));
        i += 1;
    }
    assert(entry_names(r@) =~= entry_names(v@));
    r
}

/// Connect each output under `label` that `connect` names into where it
/// goes.
fn connect_outputs(inf: &mut Inferences, ns: &Vec<String>, id: &String, label: &String, connect: &Vec<(String, NextOperation)>, others: Ghost<Seq<(PortKind, Seq<Seq<char>>)>>)
    requires
        old(inf).wf(),
        constrained_named(old(inf)),
        entry_names(connect@).no_duplicates(),
        forall|m: int| 0 <= m < others@.len() ==> unconstrained(old(inf), #[trigger] others@[m]),
        forall|m: int| 0 <= m < others@.len() ==> (#[trigger] others@[m]).0 != PortKind::Output,
    ensures
        final(inf).wf(),
        constrained_named(final(inf)),
        forall|k: int| 0 <= k < connect@.len() ==> connected(final(inf),
            labelled_output_key(names_view(ns@), id@, label@, (#[trigger] connect@[k]).0@), next_key(names_view(ns@), connect@[k].1)),
        forall|m: int| 0 <= m < others@.len() ==> unconstrained(final(inf), #[trigger] others@[m]),
        forall|a: (PortKind, Seq<Seq<char>>), t: usize| #[trigger] fixed_at(old(inf), a, t) ==> fixed_at(final(inf), a, t),
        forall|a: (PortKind, Seq<Seq<char>>), b: (PortKind, Seq<Seq<char>>)|
            (forall|k: int| 0 <= k < connect@.len() ==> a != labelled_output_key(names_view(ns@), id@, label@, (#[trigger] connect@[k]).0@))
            && #[trigger] connected(old(inf), a, b) ==> connected(final(inf), a, b),
{
    let ghost nsv = names_view(ns@);
    let mut i: usize = 0;
    while i < connect.len()
        invariant
            inf.wf(),
            constrained_named(inf),
            i <= connect@.len(),
            nsv == names_view(ns@),
            entry_names(connect@).no_duplicates(),
            forall|k: int| 0 <= k < i ==> connected(inf,
                labelled_output_key(nsv, id@, label@, (#[trigger] connect@[k]).0@), next_key(nsv, connect@[k].1)),
            forall|m: int| 0 <= m < others@.len() ==> unconstrained(inf, #[trigger] others@[m]),
            forall|m: int| 0 <= m < others@.len() ==> (#[trigger] others@[m]).0 != PortKind::Output,
            forall|a: (PortKind, Seq<Seq<char>>), t: usize| #[trigger] fixed_at(old(inf), a, t) ==> fixed_at(inf, a, t),
            forall|a: (PortKind, Seq<Seq<char>>), b: (PortKind, Seq<Seq<char>>)|
                (forall|k: int| 0 <= k < connect@.len() ==> a != labelled_output_key(nsv, id@, label@, (#[trigger] connect@[k]).0@))
                && #[trigger] connected(old(inf), a, b) ==> connected(inf, a, b),
        decreases connect.len() - i,
    {
        let ghost before = *inf;
        let ghost ki = labelled_output_key(nsv, id@, label@, connect@[i as int].0@);
        let from = section_port(ns, id, PortKind::Output, vec![label.clone(), connect[i].0.clone()]);
        let into = next_port(ns, &connect[i].1);
        proof {
            assert(names_view(from.path@) =~= nsv.push(id@).push(label@).push(connect@[i as int].0@));
            assert(key_view(&from) == ki);
        }
        let f = connect_keys(inf, from, into);
        proof {
            lemma_keeps(&before, inf, f, ki);
            lemma_fixed_kept(&before, inf, f);
            assert forall|k: int| 0 <= k < i + 1 implies connected(&*inf,
                labelled_output_key(nsv, id@, label@, (#[trigger] connect@[k]).0@), next_key(nsv, connect@[k].1)) by {
                if k < i {
                    assert(entry_names(connect@)[k] == connect@[k].0@);
                    assert(entry_names(connect@)[i as int] == connect@[i as int].0@);
                    lemma_push_differs(nsv.push(id@).push(label@), connect@[k].0@, connect@[i as int].0@);
                    assert(connected(&before, labelled_output_key(nsv, id@, label@, connect@[k].0@), next_key(nsv, connect@[k].1)));
                }
            }
            assert forall|m: int| 0 <= m < others@.len() implies unconstrained(&*inf, #[trigger] others@[m]) by {
                assert(unconstrained(&before, others@[m]));
            }
            assert forall|a: (PortKind, Seq<Seq<char>>), t: usize| #[trigger] fixed_at(old(inf), a, t) implies fixed_at(&*inf, a, t) by {
                assert(fixed_at(&before, a, t));
            }
            assert forall|a: (PortKind, Seq<Seq<char>>), b: (PortKind, Seq<Seq<char>>)|
                (forall|k: int| 0 <= k < connect@.len() ==> a != labelled_output_key(nsv, id@, label@, (#[trigger] connect@[k]).0@))
                && #[trigger] connected(old(inf), a, b) implies connected(&*inf, a, b) by {
                assert(a != labelled_output_key(nsv, id@, label@, connect@[i as int].0@));
                assert(connected(&before, a, b));
            }
        }
        i += 1;
    }
}

/// What a section made by a builder with interface `i` records: the type of
/// each exposed input, of each exposed buffer that has one and of each
/// output, and the connection of each output that `connect` names.
pub open spec fn builder_constraints(inf: &Inferences, ns: Seq<Seq<char>>, id: Seq<char>, i: SectionInterface, connect: Seq<(String, NextOperation)>) -> bool {
    &&& forall|j: int| 0 <= j < i.inputs@.len() ==> fixed_at(inf, exposed_key(ns, id, (#[trigger] i.inputs@[j]).0@), i.inputs@[j].1)
    &&& forall|j: int| 0 <= j < i.buffers@.len() && (#[trigger] i.buffers@[j]).1 is Some
            ==> fixed_at(inf, exposed_key(ns, id, i.buffers@[j].0@), i.buffers@[j].1->0)
    &&& forall|j: int| 0 <= j < i.outputs@.len() ==> fixed_at(inf, section_output_key(ns, id, (#[trigger] i.outputs@[j]).0@), i.outputs@[j].1)
    &&& forall|k: int| 0 <= k < connect.len() ==> connected(inf,
            section_output_key(ns, id, (#[trigger] connect[k]).0@), next_key(ns, connect[k].1))
}

/// The constraints of a section made by a builder with interface `iface`.
fn builder_section(inf: &mut Inferences, ns: &Vec<String>, id: &String, iface: &SectionInterface, connect: &Vec<(String, NextOperation)>)
    requires
        old(inf).wf(),
        constrained_named(old(inf)),
        interface_ready(*iface),
        unconstrained(old(inf), (PortKind::Terminate, names_view(ns@).push(id@))),
        entry_names(connect@).no_duplicates(),
    ensures
        final(inf).wf(),
        constrained_named(final(inf)),
        builder_constraints(final(inf), names_view(ns@), id@, *iface, connect@),
        redirected(final(inf), (PortKind::Terminate, names_view(ns@).push(id@)), (PortKind::Terminate, names_view(ns@))),
{
    let ghost nsv = names_view(ns@);
    let ghost term = (PortKind::Terminate, nsv.push(id@));
    let ghost others = seq![term];
    let inputs = as_optional(&iface.inputs);
    let outputs = as_optional(&iface.outputs);
    proof {
        let all = entry_names(iface.inputs@) + entry_names(iface.buffers@);
        assert(entry_names(inputs@).no_duplicates()) by {
            assert forall|a: int, b: int| 0 <= a < b < entry_names(inputs@).len() implies entry_names(inputs@)[a] != entry_names(inputs@)[b] by {
                assert(all[a] == entry_names(iface.inputs@)[a] && all[b] == entry_names(iface.inputs@)[b]);
            }
        }
        assert(entry_names(iface.buffers@).no_duplicates()) by {
            let n = entry_names(iface.inputs@).len();
            assert forall|a: int, b: int| 0 <= a < b < entry_names(iface.buffers@).len() implies entry_names(iface.buffers@)[a] != entry_names(iface.buffers@)[b] by {
                assert(all[n + a] == entry_names(iface.buffers@)[a] && all[n + b] == entry_names(iface.buffers@)[b]);
            }
        }
    }
    fix_entries(inf, ns, id, &inputs, &None, Ghost(others));
    let ghost after_inputs = *inf;
    fix_entries(inf, ns, id, &iface.buffers, &None, Ghost(others));
    proof {
        let all = entry_names(iface.inputs@) + entry_names(iface.buffers@);
        assert forall|j: int| 0 <= j < iface.inputs@.len() implies fixed_at(&*inf, exposed_key(nsv, id@, (#[trigger] iface.inputs@[j]).0@), iface.inputs@[j].1) by {
            assert(inputs@[j].1 is Some);
            assert(fixed_at(&after_inputs, entry_key(nsv, id@, None, inputs@[j].0@), inputs@[j].1->0));
            assert forall|b: int| 0 <= b < iface.buffers@.len() implies
                exposed_key(nsv, id@, iface.inputs@[j].0@) != entry_key(nsv, id@, None, (#[trigger] iface.buffers@[b]).0@) by {
                assert(all[j] == iface.inputs@[j].0@);
                assert(all[entry_names(iface.inputs@).len() + b] == iface.buffers@[b].0@);
                lemma_push_differs(nsv.push(id@), iface.inputs@[j].0@, iface.buffers@[b].0@);
            }
        }
    }
    let ghost after_buffers = *inf;
    let connect_label = Some("connect".to_owned());
    fix_entries(inf, ns, id, &outputs, &connect_label, Ghost(others));
    proof {
        assert forall|j: int| 0 <= j < iface.inputs@.len() implies fixed_at(&*inf, exposed_key(nsv, id@, (#[trigger] iface.inputs@[j]).0@), iface.inputs@[j].1) by {
            assert(fixed_at(&after_buffers, exposed_key(nsv, id@, iface.inputs@[j].0@), iface.inputs@[j].1));
        }
        assert forall|j: int| 0 <= j < iface.buffers@.len() && (#[trigger] iface.buffers@[j]).1 is Some
            implies fixed_at(&*inf, exposed_key(nsv, id@, iface.buffers@[j].0@), iface.buffers@[j].1->0) by {
            assert(fixed_at(&after_buffers, exposed_key(nsv, id@, iface.buffers@[j].0@), iface.buffers@[j].1->0));
        }
        assert forall|j: int| 0 <= j < iface.outputs@.len() implies fixed_at(&*inf, section_output_key(nsv, id@, (#[trigger] iface.outputs@[j]).0@), iface.outputs@[j].1) by {
            assert(outputs@[j].1 is Some);
        }
    }
    let ghost after_outputs = *inf;
    let connect_name = "connect".to_owned();
    connect_outputs(inf, ns, id, &connect_name, connect, Ghost(others));
    let ghost after_connect = *inf;
    let inner_term = section_port(ns, id, PortKind::Terminate, Vec::new());
    let outer_term = next_port(ns, &NextOperation::Terminate);
    proof {
        assert(names_view(inner_term.path@) =~= nsv.push(id@));
        assert(unconstrained(&*inf, others[0]));
    }
    let f = redirect_keys(inf, inner_term, outer_term);
    proof {
        lemma_keeps(&after_connect, inf, f, term);
        assert forall|j: int| 0 <= j < iface.inputs@.len() implies fixed_at(&*inf, exposed_key(nsv, id@, (#[trigger] iface.inputs@[j]).0@), iface.inputs@[j].1) by {
            assert(fixed_at(&after_outputs, exposed_key(nsv, id@, iface.inputs@[j].0@), iface.inputs@[j].1));
            assert(fixed_at(&after_connect, exposed_key(nsv, id@, iface.inputs@[j].0@), iface.inputs@[j].1));
        }
        assert forall|j: int| 0 <= j < iface.buffers@.len() && (#[trigger] iface.buffers@[j]).1 is Some
            implies fixed_at(&*inf, exposed_key(nsv, id@, iface.buffers@[j].0@), iface.buffers@[j].1->0) by {
            assert(fixed_at(&after_outputs, exposed_key(nsv, id@, iface.buffers@[j].0@), iface.buffers@[j].1->0));
            assert(fixed_at(&after_connect, exposed_key(nsv, id@, iface.buffers@[j].0@), iface.buffers@[j].1->0));
        }
        assert forall|j: int| 0 <= j < iface.outputs@.len() implies fixed_at(&*inf, section_output_key(nsv, id@, (#[trigger] iface.outputs@[j]).0@), iface.outputs@[j].1) by {
            assert(fixed_at(&after_outputs, section_output_key(nsv, id@, iface.outputs@[j].0@), iface.outputs@[j].1));
            assert(fixed_at(&after_connect, section_output_key(nsv, id@, iface.outputs@[j].0@), iface.outputs@[j].1));
        }
        assert forall|k: int| 0 <= k < connect@.len() implies connected(&*inf,
            section_output_key(nsv, id@, (#[trigger] connect@[k]).0@), next_key(nsv, connect@[k].1)) by {
            assert(connected(&after_connect, section_output_key(nsv, id@, connect@[k].0@), next_key(nsv, connect@[k].1)));
        }
    }
}

/// The message type constraints of section `id`, in namespaces
/// `namespaces`. A section made by a builder fixes the types of the ports
/// that its builder exposes and connects its outputs; a section made from a
/// template redirects its exposed inputs and buffers into the operations
/// inside it and the operations that collect its outputs into where they
/// connect, and queues the operations inside it on `children`. Either way
/// the section's terminate passes on to the terminate around it.
pub fn section_constraints(
    inferences: &mut Inferences,
    children: &mut Vec<ChildOperation>,
    id: &String,
    schema: &SectionSchema,
    templates: &Templates,
    sections: &SectionRegistrations,
    namespaces: &Vec<String>,
) -> (r: Result<(), SectionError>)
    requires
        old(inferences).wf(),
        constrained_named(old(inferences)),
        entry_names(schema.connect@).no_duplicates(),
        unconstrained(old(inferences), (PortKind::Terminate, names_view(namespaces@).push(id@))),
        schema.provider matches SectionProvider::Builder(b)
            ==> (has_named(sections.sections@, b@) ==> interface_ready(interface_named(sections, b@))),
        schema.provider matches SectionProvider::Template(t)
            ==> (has_named(templates.templates@, t@) ==> template_ready(old(inferences), names_view(namespaces@), id@, template_named(templates, t@))),
    ensures
        final(inferences).wf(),
        constrained_named(final(inferences)),
        schema.provider matches SectionProvider::Builder(b) ==> {
            &&& !has_named(sections.sections@, b@) <==> (r matches Err(e) && e matches SectionError::UnknownSectionBuilder(n) && n@ == b@)
            &&& final(children)@ == old(children)@
            &&& has_named(sections.sections@, b@) ==> r is Ok
                && builder_constraints(final(inferences), names_view(namespaces@), id@, interface_named(sections, b@), schema.connect@)
                && redirected(final(inferences), (PortKind::Terminate, names_view(namespaces@).push(id@)), (PortKind::Terminate, names_view(namespaces@)))
        },
        schema.provider matches SectionProvider::Template(t) ==> {
            &&& !has_named(templates.templates@, t@) <==> (r matches Err(e) && e matches SectionError::UnknownTemplate(n) && n@ == t@)
            &&& !has_named(templates.templates@, t@) ==> final(children)@ == old(children)@
            &&& has_named(templates.templates@, t@) ==> {
                let tp = template_named(templates, t@);
                &&& children_view(final(children)@)
                        == children_view(old(children)@) + children_of(names_view(namespaces@), id@, tp.ops@)
                &&& (r is Err <==> unknown_output(tp, schema.connect@))
                &&& r matches Err(e) ==> (e matches SectionError::UnknownOutput(o) && has_named(schema.connect@, o@)
                        && !names_view(tp.outputs@).contains(o@))
                &&& r is Ok ==> template_redirects(final(inferences), names_view(namespaces@), id@, tp, schema.connect@)
                        && redirected(final(inferences), (PortKind::Terminate, names_view(namespaces@).push(id@)), (PortKind::Terminate, names_view(namespaces@)))
            }
        },
{
    match &schema.provider {
        SectionProvider::Builder(b) => {
            match find_named(&sections.sections, b) {
                None => Err(SectionError::UnknownSectionBuilder(b.clone())),
                Some(i) => {
                    proof {
                        assert(first_named(sections.sections@, b@, i as int));
                        let c = choose|c: int| first_named(sections.sections@, b@, c);
                        if c < i {
                            assert(sections.sections@[c].0@ != b@);
                        } else if i < c {
                            assert(sections.sections@[i as int].0@ != b@);
                        }
                        assert(interface_named(sections, b@) == sections.sections@[i as int].1);
                    }
                    builder_section(inferences, namespaces, id, &sections.sections[i].1, &schema.connect);
                    Ok(())
                },
            }
        },
        SectionProvider::Template(t) => {
            match find_named(&templates.templates, t) {
                None => Err(SectionError::UnknownTemplate(t.clone())),
                Some(i) => {
                    proof {
                        assert(first_named(templates.templates@, t@, i as int));
                        let c = choose|c: int| first_named(templates.templates@, t@, c);
                        if c < i {
                            assert(templates.templates@[c].0@ != t@);
                        } else if i < c {
                            assert(templates.templates@[i as int].0@ != t@);
                        }
                        assert(template_named(templates, t@) == templates.templates@[i as int].1);
                    }
                    template_section(inferences, children, namespaces, id, &templates.templates[i].1, &schema.connect)
                },
            }
        },
    }
}


/// A node operation: the builder that makes it, where its output goes, and
/// where each of its streams goes.
pub struct NodeSchema {
    pub builder: String,
    pub next: NextOperation,
    pub stream_out: Vec<(String, NextOperation)>,
}

/// What a node builder takes and gives: its request, its response, and the
/// message type of each of its streams.
pub struct NodeMetadata {
    pub request: usize,
    pub response: usize,
    pub streams: Vec<(String, usize)>,
}

/// The registered node builders, by name.
pub struct NodeRegistrations {
    pub nodes: Vec<(String, NodeMetadata)>,
}

/// Why the constraints of a node could not be gathered.
#[derive(Debug)]
pub enum NodeError {
    BuilderNotFound(String),
}

/// The metadata of the first node builder named `name`.
pub open spec fn node_named(nodes: &NodeRegistrations, name: Seq<char>) -> NodeMetadata {
    nodes.nodes@[choose|i: int| first_named(nodes.nodes@, name, i)].1
}

/// What a node `id` in namespaces `ns`, made by a builder with metadata `m`,
/// records: its input takes the request, its output gives the response and
/// connects where `schema` says, each stream output gives its stream's
/// type, and each stream connects where `schema` says.
pub open spec fn node_constraints_hold(inf: &Inferences, ns: Seq<Seq<char>>, id: Seq<char>, m: NodeMetadata, schema: &NodeSchema) -> bool {
    let next_out = (PortKind::Output, ns.push(id).push("next"@));
    &&& fixed_at(inf, (PortKind::Input, ns.push(id)), m.request)
    &&& fixed_at(inf, next_out, m.response)
    &&& connected(inf, next_out, next_key(ns, schema.next))
    &&& forall|j: int| 0 <= j < m.streams@.len() ==> fixed_at(inf,
            labelled_output_key(ns, id, "stream_out"@, (#[trigger] m.streams@[j]).0@), m.streams@[j].1)
    &&& forall|k: int| 0 <= k < schema.stream_out@.len() ==> connected(inf,
            labelled_output_key(ns, id, "stream_out"@, (#[trigger] schema.stream_out@[k]).0@), next_key(ns, schema.stream_out@[k].1))
}

/// The message type constraints of node `id`, in namespaces `namespaces`.
pub fn node_constraints(
    inferences: &mut Inferences,
    id: &String,
    schema: &NodeSchema,
    nodes: &NodeRegistrations,
    namespaces: &Vec<String>,
) -> (r: Result<(), NodeError>)
    requires
        old(inferences).wf(),
        constrained_named(old(inferences)),
        entry_names(schema.stream_out@).no_duplicates(),
        has_named(nodes.nodes@, schema.builder@) ==> entry_names(node_named(nodes, schema.builder@).streams@).no_duplicates(),
    ensures
        final(inferences).wf(),
        constrained_named(final(inferences)),
        !has_named(nodes.nodes@, schema.builder@) <==> (r matches Err(e) && e matches NodeError::BuilderNotFound(n) && n@ == schema.builder@),
        has_named(nodes.nodes@, schema.builder@) ==> r is Ok
            && node_constraints_hold(final(inferences), names_view(namespaces@), id@, node_named(nodes, schema.builder@), schema),
{
    let i = match find_named(&nodes.nodes, &schema.builder) {
        None => {
            return Err(NodeError::BuilderNotFound(schema.builder.clone()));
        },
        Some(i) => i,
    };
    let m = &nodes.nodes[i].1;
    let ghost nsv = names_view(namespaces@);
    let ghost ki = (PortKind::Input, nsv.push(id@));
    let ghost kn = (PortKind::Output, nsv.push(id@).push("next"@));
    proof {
        let c = choose|c: int| first_named(nodes.nodes@, schema.builder@, c);
        if c < i {
            assert(nodes.nodes@[c].0@ != schema.builder@);
        } else if i < c {
            assert(nodes.nodes@[i as int].0@ != schema.builder@);
        }
        assert(node_named(nodes, schema.builder@) == *m);
    }
    let input = section_port(namespaces, id, PortKind::Input, Vec::new());
    proof {
        assert(names_view(input.path@) =~= nsv.push(id@));
    }
    let ghost s0 = *inferences;
    let f0 = fixed_key(inferences, input, m.request);
    let output = section_port(namespaces, id, PortKind::Output, vec!["next".to_owned()]);
    let output2 = section_port(namespaces, id, PortKind::Output, vec!["next".to_owned()]);
    proof {
        assert(names_view(output.path@) =~= nsv.push(id@).push("next"@));
        assert(names_view(output2.path@) =~= nsv.push(id@).push("next"@));
    }
    let ghost s1 = *inferences;
    let f1 = fixed_key(inferences, output, m.response);
    proof {
        lemma_keeps(&s1, inferences, f1, kn);
        assert(fixed_at(&s1, ki, m.request));
    }
    let ghost s2 = *inferences;
    let target = next_port(namespaces, &schema.next);
    let f2 = connect_keys(inferences, output2, target);
    proof {
        lemma_fixed_kept(&s2, inferences, f2);
        assert(fixed_at(&s2, ki, m.request));
        assert(fixed_at(&s2, kn, m.response));
    }
    let ghost s3 = *inferences;
    let streams = as_optional(&m.streams);
    let label = Some("stream_out".to_owned());
    proof {
        assert forall|j: int| 0 <= j < streams@.len() implies
            ki != entry_key(nsv, id@, label_view(label), (#[trigger] streams@[j]).0@)
            && kn != entry_key(nsv, id@, label_view(label), streams@[j].0@) by {
            assert(entry_key(nsv, id@, label_view(label), streams@[j].0@).1.len() == nsv.len() + 3);
        }
    }
    fix_entries(inferences, namespaces, id, &streams, &label, Ghost(Seq::empty()));
    proof {
        assert(fixed_at(&s3, ki, m.request));
        assert(fixed_at(&s3, kn, m.response));
        assert(connected(&s3, kn, next_key(nsv, schema.next)));
    }
    let ghost s4 = *inferences;
    let stream_label = "stream_out".to_owned();
    proof {
        assert forall|k: int| 0 <= k < schema.stream_out@.len() implies
            kn != labelled_output_key(nsv, id@, stream_label@, (#[trigger] schema.stream_out@[k]).0@) by {
            assert(labelled_output_key(nsv, id@, stream_label@, schema.stream_out@[k].0@).1.len() == nsv.len() + 3);
        }
    }
    connect_outputs(inferences, namespaces, id, &stream_label, &schema.stream_out, Ghost(Seq::empty()));
    proof {
        assert(fixed_at(&s4, ki, m.request));
        assert(fixed_at(&s4, kn, m.response));
        assert(connected(&s4, kn, next_key(nsv, schema.next)));
        assert forall|j: int| 0 <= j < m.streams@.len() implies fixed_at(&*inferences,
            labelled_output_key(nsv, id@, "stream_out"@, (#[trigger] m.streams@[j]).0@), m.streams@[j].1) by {
            assert(streams@[j].1 is Some);
            assert(fixed_at(&s4, entry_key(nsv, id@, label_view(label), streams@[j].0@), streams@[j].1->0));
        }
    }
    Ok(())
}


/// Why the constraints of an operation could not be gathered.
#[derive(Debug)]
pub enum GatherError {
    /// The JSON message type is needed but not registered.
    JsonNotRegistered,
    Node(NodeError),
    Section(SectionError),
}

/// The message type constraints of transform `id` in namespaces `ns`: it
/// takes and gives JSON, and its output connects into `next`.
pub fn transform_constraints(
    inferences: &mut Inferences,
    id: &String,
    next: &NextOperation,
    json_index: Option<usize>,
    namespaces: &Vec<String>,
) -> (r: Result<(), GatherError>)
    requires
        old(inferences).wf(),
        constrained_named(old(inferences)),
    ensures
        final(inferences).wf(),
        constrained_named(final(inferences)),
        json_index is None <==> (r matches Err(e) && e is JsonNotRegistered),
        json_index matches Some(json) ==> r is Ok && {
            let nsv = names_view(namespaces@);
            let out = (PortKind::Output, nsv.push(id@).push("next"@));
            &&& fixed_at(final(inferences), (PortKind::Input, nsv.push(id@)), json)
            &&& fixed_at(final(inferences), out, json)
            &&& connected(final(inferences), out, next_key(nsv, *next))
        },
{
    let json = match json_index {
        None => {
            return Err(GatherError::JsonNotRegistered);
        },
        Some(j) => j,
    };
    let ghost nsv = names_view(namespaces@);
    let ghost ki = (PortKind::Input, nsv.push(id@));
    let ghost kn = (PortKind::Output, nsv.push(id@).push("next"@));
    let input = section_port(namespaces, id, PortKind::Input, Vec::new());
    let output = section_port(namespaces, id, PortKind::Output, vec!["next".to_owned()]);
    let output2 = section_port(namespaces, id, PortKind::Output, vec!["next".to_owned()]);
    proof {
        assert(names_view(input.path@) =~= nsv.push(id@));
        assert(names_view(output.path@) =~= nsv.push(id@).push("next"@));
        assert(names_view(output2.path@) =~= nsv.push(id@).push("next"@));
    }
    fixed_key(inferences, input, json);
    let ghost s1 = *inferences;
    let f1 = fixed_key(inferences, output, json);
    proof {
        lemma_keeps(&s1, inferences, f1, kn);
        assert(fixed_at(&s1, ki, json));
    }
    let ghost s2 = *inferences;
    let target = next_port(namespaces, next);
    let f2 = connect_keys(inferences, output2, target);
    proof {
        lemma_fixed_kept(&s2, inferences, f2);
        assert(fixed_at(&s2, ki, json));
        assert(fixed_at(&s2, kn, json));
    }
    Ok(())
}

/// The port named `k` is constrained to hold what the operations around
/// its buffer put in it.
pub open spec fn buffered(inf: &Inferences, k: (PortKind, Seq<Seq<char>>)) -> bool {
    exists|f: u64| #[trigger] inf.ports.named(f, k) && inf.constraints@.contains_key(f)
        && inf.constraints@[f] == Constraint::BufferInput(f)
}

/// The message type constraints of buffer `id` in namespaces `ns`: a
/// serializing buffer holds JSON; any other holds what its inputs carry.
pub fn buffer_constraints(
    inferences: &mut Inferences,
    id: &String,
    serialize: bool,
    json_index: Option<usize>,
    namespaces: &Vec<String>,
) -> (r: Result<(), GatherError>)
    requires
        old(inferences).wf(),
        constrained_named(old(inferences)),
        !serialize ==> unconstrained(old(inferences), (PortKind::Input, names_view(namespaces@).push(id@))),
    ensures
        final(inferences).wf(),
        constrained_named(final(inferences)),
        serialize && json_index is None <==> (r matches Err(e) && e is JsonNotRegistered),
        serialize ==> (json_index matches Some(json) ==> r is Ok
            && fixed_at(final(inferences), (PortKind::Input, names_view(namespaces@).push(id@)), json)),
        !serialize ==> r is Ok && buffered(final(inferences), (PortKind::Input, names_view(namespaces@).push(id@))),
{
    let ghost nsv = names_view(namespaces@);
    let ghost ki = (PortKind::Input, nsv.push(id@));
    let key = section_port(namespaces, id, PortKind::Input, Vec::new());
    proof {
        assert(names_view(key.path@) =~= nsv.push(id@));
    }
    if serialize {
        match json_index {
            None => Err(GatherError::JsonNotRegistered),
            Some(json) => {
                fixed_key(inferences, key, json);
                Ok(())
            },
        }
    } else {
        let f = inferences.ports.port(key);
        proof {
            if f < old(inferences).ports.keys@.len() {
                assert(key_view(&inferences.ports.keys@[f as int]) == key_view(&old(inferences).ports.keys@[f as int]));
                assert(old(inferences).ports.named(f, ki));
            }
            assert(inferences.ports.named(f, ki));
        }
        inferences.constrain(f, Constraint::BufferInput(f));
        proof {
            assert(inferences.ports.named(f, ki));
        }
        Ok(())
    }
}

/// An operation of a diagram whose constraints can be gathered.
pub enum DiagramOperation {
    Node(NodeSchema),
    Section(SectionSchema),
    Scope(ScopeSchema),
    /// Sends what it takes out of its scope as the named stream.
    StreamOut(String),
    /// Clones what it takes to each target, in order.
    ForkClone(Vec<NextOperation>),
    /// Sends the ok and the err of a result to their targets.
    ForkResult { ok: NextOperation, err: NextOperation },
    /// Sends each element of what it takes to its target, in order.
    Unzip(Vec<NextOperation>),
    /// Sends the items of what it takes to their targets.
    Split { sequential: Vec<NextOperation>, keyed: Vec<(String, NextOperation)>, remaining: Option<NextOperation> },
    /// Joins the buffers of `selection` into one message for `next`.
    Join { selection: Vec<NextOperation>, next: NextOperation, serialize: bool },
    /// Tells `next` whenever the buffers of `selection` change.
    Listen { selection: Vec<NextOperation>, next: NextOperation },
    /// Gives `next` what it takes together with access to the buffers of
    /// `selection`.
    BufferAccess { selection: Vec<NextOperation>, next: NextOperation },
    Transform(NextOperation),
    Buffer { serialize: bool },
}

/// What the gathering of constraints reads besides the operation: the
/// registered nodes and sections, the templates, and the JSON message type.
pub struct Registrations {
    pub nodes: NodeRegistrations,
    pub sections: SectionRegistrations,
    pub templates: Templates,
    pub json_index: Option<usize>,
}

/// Apply the message type constraints of operation `id`, in namespaces
/// `namespaces`, queueing the operations that it holds on `children`.
pub fn apply_constraints(
    inferences: &mut Inferences,
    children: &mut Vec<ChildOperation>,
    id: &String,
    op: &DiagramOperation,
    registrations: &Registrations,
    namespaces: &Vec<String>,
) -> (r: Result<(), GatherError>)
    requires
        old(inferences).wf(),
        constrained_named(old(inferences)),
        op matches DiagramOperation::Node(schema) ==> {
            &&& entry_names(schema.stream_out@).no_duplicates()
            &&& has_named(registrations.nodes.nodes@, schema.builder@)
                ==> entry_names(node_named(&registrations.nodes, schema.builder@).streams@).no_duplicates()
        },
        op matches DiagramOperation::Section(schema) ==> {
            &&& entry_names(schema.connect@).no_duplicates()
            &&& unconstrained(old(inferences), (PortKind::Terminate, names_view(namespaces@).push(id@)))
            &&& schema.provider matches SectionProvider::Builder(b)
                ==> (has_named(registrations.sections.sections@, b@) ==> interface_ready(interface_named(&registrations.sections, b@)))
            &&& schema.provider matches SectionProvider::Template(t)
                ==> (has_named(registrations.templates.templates@, t@) ==> template_ready(old(inferences),
                    names_view(namespaces@), id@, template_named(&registrations.templates, t@)))
        },
        op matches DiagramOperation::Buffer { serialize } ==> (!*serialize
            ==> unconstrained(old(inferences), (PortKind::Input, names_view(namespaces@).push(id@)))),
        op matches DiagramOperation::Scope(schema) ==> {
            &&& entry_names(schema.stream_out@).no_duplicates()
            &&& unconstrained(old(inferences), input_key(names_view(namespaces@), id@))
            &&& unconstrained(old(inferences), (PortKind::Terminate, names_view(namespaces@).push(id@)))
            &&& forall|j: int| 0 <= j < schema.stream_out@.len() ==> unconstrained(old(inferences),
                scope_stream_key(names_view(namespaces@), id@, (#[trigger] schema.stream_out@[j]).0@))
        },
        op is StreamOut ==> unconstrained(old(inferences), input_key(names_view(namespaces@), id@)),
        op matches DiagramOperation::ForkClone(next) ==> {
            &&& unconstrained(old(inferences), input_key(names_view(namespaces@), id@))
            &&& forall|j: int| 0 <= j < next@.len() ==> unconstrained(old(inferences), #[trigger] element_key(names_view(namespaces@), id@, j as usize))
        },
        op is ForkResult ==> {
            &&& unconstrained(old(inferences), input_key(names_view(namespaces@), id@))
            &&& unconstrained(old(inferences), output_key(names_view(namespaces@), id@, "ok"@))
            &&& unconstrained(old(inferences), output_key(names_view(namespaces@), id@, "err"@))
        },
        op matches DiagramOperation::Unzip(next) ==> {
            &&& unconstrained(old(inferences), input_key(names_view(namespaces@), id@))
            &&& forall|j: int| 0 <= j < next@.len() ==> unconstrained(old(inferences), #[trigger] element_key(names_view(namespaces@), id@, j as usize))
        },
        op matches DiagramOperation::Split { sequential, keyed, remaining } ==> {
            &&& entry_names(keyed@).no_duplicates()
            &&& unconstrained(old(inferences), input_key(names_view(namespaces@), id@))
            &&& forall|j: int| 0 <= j < sequential@.len() ==> unconstrained(old(inferences), #[trigger] element_key(names_view(namespaces@), id@, j as usize))
            &&& forall|j: int| 0 <= j < keyed@.len() ==> unconstrained(old(inferences), keyed_key(names_view(namespaces@), id@, (#[trigger] keyed@[j]).0@))
            &&& remaining is Some ==> unconstrained(old(inferences), output_key(names_view(namespaces@), id@, "remaining"@))
        },
        op matches DiagramOperation::Join { selection, next, serialize } ==> (!*serialize
            ==> unconstrained(old(inferences), output_key(names_view(namespaces@), id@, "next"@))),
        op is Listen ==> unconstrained(old(inferences), output_key(names_view(namespaces@), id@, "next"@)),
        op is BufferAccess ==> {
            &&& unconstrained(old(inferences), input_key(names_view(namespaces@), id@))
            &&& unconstrained(old(inferences), output_key(names_view(namespaces@), id@, "next"@))
        },
    ensures
        final(inferences).wf(),
        constrained_named(final(inferences)),
        !(op is Section) && !(op is Scope) ==> final(children)@ == old(children)@,
        op matches DiagramOperation::Scope(schema) ==> {
            let nsv = names_view(namespaces@);
            &&& r is Ok
            &&& redirected(final(inferences), input_key(nsv, id@), next_key(nsv.push(id@), schema.start))
            &&& forall|j: int| 0 <= j < schema.stream_out@.len() ==> redirected(final(inferences),
                    scope_stream_key(nsv, id@, (#[trigger] schema.stream_out@[j]).0@), next_key(nsv, schema.stream_out@[j].1))
            &&& redirected(final(inferences), (PortKind::Terminate, nsv.push(id@)), next_key(nsv, schema.next))
            &&& children_view(final(children)@) == children_view(old(children)@) + children_of(nsv, id@, schema.ops@)
        },
        op matches DiagramOperation::StreamOut(stream) ==> r is Ok && linked(final(inferences), input_key(names_view(namespaces@), id@),
            (PortKind::StreamOut, names_view(namespaces@).push(stream@)), Link::Exact),
        op matches DiagramOperation::ForkClone(next) ==> {
            let nsv = names_view(namespaces@);
            &&& r is Ok
            &&& routed_out(final(inferences), nsv, id@, next_keys(nsv, next@), Route::Copy)
            &&& clone_into(final(inferences), input_key(nsv, id@), next_keys(nsv, next@))
        },
        op matches DiagramOperation::ForkResult { ok, err } ==> {
            let nsv = names_view(namespaces@);
            let fork = input_key(nsv, id@);
            &&& r is Ok
            &&& linked(final(inferences), output_key(nsv, id@, "ok"@), fork, Link::OkFrom)
            &&& linked(final(inferences), output_key(nsv, id@, "err"@), fork, Link::ErrFrom)
            &&& result_into(final(inferences), fork, next_key(nsv, *ok), next_key(nsv, *err))
            &&& connected(final(inferences), output_key(nsv, id@, "ok"@), next_key(nsv, *ok))
            &&& connected(final(inferences), output_key(nsv, id@, "err"@), next_key(nsv, *err))
        },
        op matches DiagramOperation::Unzip(next) ==> {
            let nsv = names_view(namespaces@);
            &&& r is Ok
            &&& routed_out(final(inferences), nsv, id@, next_keys(nsv, next@), Route::Unzip)
            &&& self_constrained(final(inferences), input_key(nsv, id@), true)
        },
        op matches DiagramOperation::Split { sequential, keyed, remaining } ==> {
            let nsv = names_view(namespaces@);
            &&& r is Ok
            &&& routed_out(final(inferences), nsv, id@, next_keys(nsv, sequential@), Route::Split)
            &&& keyed_out(final(inferences), nsv, id@, keyed@)
            &&& remaining matches Some(t) ==> connected(final(inferences), output_key(nsv, id@, "remaining"@), next_key(nsv, *t))
                && linked(final(inferences), output_key(nsv, id@, "remaining"@), input_key(nsv, id@), Link::SplitOutput)
            &&& self_constrained(final(inferences), input_key(nsv, id@), false)
        },
        op matches DiagramOperation::Join { selection, next, serialize } ==> {
            let nsv = names_view(namespaces@);
            let out = output_key(nsv, id@, "next"@);
            &&& *serialize && registrations.json_index is None <==> (r matches Err(e) && e is JsonNotRegistered)
            &&& r is Err ==> *serialize && registrations.json_index is None
            &&& hints_all(final(inferences), nsv, selection@, out)
            &&& *serialize ==> (registrations.json_index matches Some(json) ==> fixed_at(final(inferences), out, json)
                && connected(final(inferences), out, next_key(nsv, *next)))
            &&& !*serialize ==> infers_from_downstream(final(inferences), out, next_key(nsv, *next))
        },
        op matches DiagramOperation::Listen { selection, next } ==> {
            let nsv = names_view(namespaces@);
            let out = output_key(nsv, id@, "next"@);
            &&& r is Ok
            &&& hints_all(final(inferences), nsv, selection@, out)
            &&& infers_from_downstream(final(inferences), out, next_key(nsv, *next))
        },
        op matches DiagramOperation::BufferAccess { selection, next } ==> {
            let nsv = names_view(namespaces@);
            let out = output_key(nsv, id@, "next"@);
            &&& r is Ok
            &&& hints_all(final(inferences), nsv, selection@, out)
            &&& infers_from_downstream(final(inferences), out, next_key(nsv, *next))
            &&& linked(final(inferences), input_key(nsv, id@), next_key(nsv, *next), Link::BufferAccess)
        },
        op matches DiagramOperation::Node(schema) ==> {
            &&& !has_named(registrations.nodes.nodes@, schema.builder@) <==> (r matches Err(e)
                    && e matches GatherError::Node(NodeError::BuilderNotFound(n)) && n@ == schema.builder@)
            &&& has_named(registrations.nodes.nodes@, schema.builder@) ==> r is Ok
                && node_constraints_hold(final(inferences), names_view(namespaces@), id@,
                    node_named(&registrations.nodes, schema.builder@), schema)
        },
        op matches DiagramOperation::Section(schema) ==> {
            &&& r matches Err(e) ==> e is Section
            &&& schema.provider matches SectionProvider::Builder(b) ==> {
                &&& !has_named(registrations.sections.sections@, b@) <==> (r matches Err(e)
                        && e matches GatherError::Section(SectionError::UnknownSectionBuilder(n)) && n@ == b@)
                &&& final(children)@ == old(children)@
                &&& has_named(registrations.sections.sections@, b@) ==> r is Ok
                    && builder_constraints(final(inferences), names_view(namespaces@), id@,
                        interface_named(&registrations.sections, b@), schema.connect@)
                    && redirected(final(inferences), (PortKind::Terminate, names_view(namespaces@).push(id@)),
                        (PortKind::Terminate, names_view(namespaces@)))
            }
            &&& schema.provider matches SectionProvider::Template(t) ==> {
                &&& !has_named(registrations.templates.templates@, t@) <==> (r matches Err(e)
                        && e matches GatherError::Section(SectionError::UnknownTemplate(n)) && n@ == t@)
                &&& !has_named(registrations.templates.templates@, t@) ==> final(children)@ == old(children)@
                &&& has_named(registrations.templates.templates@, t@) ==> {
                    let tp = template_named(&registrations.templates, t@);
                    &&& children_view(final(children)@)
                            == children_view(old(children)@) + children_of(names_view(namespaces@), id@, tp.ops@)
                    &&& (r is Err <==> unknown_output(tp, schema.connect@))
                    &&& r matches Err(e) ==> (e matches GatherError::Section(SectionError::UnknownOutput(o))
                            && has_named(schema.connect@, o@) && !names_view(tp.outputs@).contains(o@))
                    &&& r is Ok ==> template_redirects(final(inferences), names_view(namespaces@), id@, tp, schema.connect@)
                            && redirected(final(inferences), (PortKind::Terminate, names_view(namespaces@).push(id@)),
                                (PortKind::Terminate, names_view(namespaces@)))
                }
            }
        },
        op matches DiagramOperation::Transform(next) ==> {
            let nsv = names_view(namespaces@);
            let out = (PortKind::Output, nsv.push(id@).push("next"@));
            &&& registrations.json_index is None <==> (r matches Err(e) && e is JsonNotRegistered)
            &&& registrations.json_index matches Some(json) ==> r is Ok
                && fixed_at(final(inferences), (PortKind::Input, nsv.push(id@)), json)
                && fixed_at(final(inferences), out, json)
                && connected(final(inferences), out, next_key(nsv, *next))
        },
        op matches DiagramOperation::Buffer { serialize } ==> {
            let k = (PortKind::Input, names_view(namespaces@).push(id@));
            &&& *serialize && registrations.json_index is None <==> (r matches Err(e) && e is JsonNotRegistered)
            &&& *serialize ==> (registrations.json_index matches Some(json) ==> r is Ok && fixed_at(final(inferences), k, json))
            &&& !*serialize ==> r is Ok && buffered(final(inferences), k)
        },
{
    match op {
        DiagramOperation::Node(schema) => {
            match node_constraints(inferences, id, schema, &registrations.nodes, namespaces) {
                Ok(()) => Ok(()),
                Err(e) => Err(GatherError::Node(e)),
            }
        },
        DiagramOperation::Section(schema) => {
            match section_constraints(inferences, children, id, schema, &registrations.templates, &registrations.sections, namespaces) {
                Ok(()) => Ok(()),
                Err(e) => Err(GatherError::Section(e)),
            }
        },
        DiagramOperation::Scope(schema) => {
            scope_constraints(inferences, children, id, schema, namespaces);
            Ok(())
        },
        DiagramOperation::StreamOut(stream) => {
            stream_out_constraints(inferences, id, stream, namespaces);
            Ok(())
        },
        DiagramOperation::ForkClone(next) => {
            fork_clone_constraints(inferences, id, next, namespaces);
            Ok(())
        },
        DiagramOperation::ForkResult { ok, err } => {
            result_constraints(inferences, id, ok, err, namespaces);
            Ok(())
        },
        DiagramOperation::Unzip(next) => {
            unzip_constraints(inferences, id, next, namespaces);
            Ok(())
        },
        DiagramOperation::Split { sequential, keyed, remaining } => {
            split_constraints(inferences, id, sequential, keyed, remaining, namespaces);
            Ok(())
        },
        DiagramOperation::Join { selection, next, serialize } => join_constraints(inferences, id, selection, next,
            *serialize, registrations.json_index, namespaces),
        DiagramOperation::Listen { selection, next } => {
            listen_constraints(inferences, id, selection, next, namespaces);
            Ok(())
        },
        DiagramOperation::BufferAccess { selection, next } => {
            buffer_access_constraints(inferences, id, selection, next, namespaces);
            Ok(())
        },
        DiagramOperation::Transform(next) => transform_constraints(inferences, id, next, registrations.json_index, namespaces),
        DiagramOperation::Buffer { serialize } => buffer_constraints(inferences, id, *serialize, registrations.json_index, namespaces),
    }
}


/// A scope operation: where its input starts inside it, where the streams
/// that leave it go, where its result goes, the operations inside it, and
/// where their implicit errors go, if it says.
pub struct ScopeSchema {
    pub start: NextOperation,
    pub stream_out: Vec<(String, NextOperation)>,
    pub next: NextOperation,
    pub ops: Vec<(String, DiagramOperation)>,
    pub on_implicit_error: Option<NextOperation>,
}

/// Where implicit errors of a scope go: where it says, or else to cancel.
pub open spec fn implicit_error_target(on_implicit_error: Option<NextOperation>) -> NextOperation {
    match on_implicit_error {
        Some(next) => next,
        None => NextOperation::Cancel,
    }
}

/// A copy of `next`.
fn copy_next(next: &NextOperation) -> (r: NextOperation)
    ensures
        next_key(Seq::empty(), r) == next_key(Seq::empty(), *next),
        forall|ns: Seq<Seq<char>>| #[trigger] next_key(ns, r) == next_key(ns, *next),
{
    match next {
        NextOperation::Name(n) => NextOperation::Name(n.clone()),
        NextOperation::Namespace { namespace, operation } => NextOperation::Namespace {
            namespace: namespace.clone(),
            operation: operation.clone(),
        },
        NextOperation::Terminate => NextOperation::Terminate,
        NextOperation::Cancel => NextOperation::Cancel,
        NextOperation::Dispose => NextOperation::Dispose,
    }
}

impl ScopeSchema {
    /// Where implicit errors of this scope go: where it says, or else to
    /// cancel the scope.
    pub fn on_implicit_error(&self) -> (r: NextOperation)
        ensures
            forall|ns: Seq<Seq<char>>| #[trigger] next_key(ns, r) == next_key(ns, implicit_error_target(self.on_implicit_error)),
    {
        match &self.on_implicit_error {
            Some(next) => copy_next(next),
            None => NextOperation::Cancel,
        }
    }
}

/// Where the operations being gathered stand: their namespaces, and where
/// their implicit errors go.
pub struct DiagramContext {
    pub namespaces: Vec<String>,
    pub on_implicit_error: PortKey,
}

impl DiagramContext {
    /// Where implicit errors go.
    pub fn get_implicit_error_target(&self) -> (k: PortKey)
        ensures
            key_view(&k) == key_view(&self.on_implicit_error),
    {
        let path = names_then(&self.on_implicit_error.path, Vec::new());
        assert(names_view(path@) =~= names_view(self.on_implicit_error.path@));
        PortKey { kind: self.on_implicit_error.kind, path }
    }

    /// The port that `next` refers to from these namespaces.
    pub fn into_operation_ref(&self, next: &NextOperation) -> (k: PortKey)
        ensures
            key_view(&k) == next_key(names_view(self.namespaces@), *next),
    {
        next_port(&self.namespaces, next)
    }

    /// The port that `child` refers to from inside operation `id` in these
    /// namespaces.
    pub fn into_child_operation_ref(&self, id: &String, child: &NextOperation) -> (k: PortKey)
        ensures
            key_view(&k) == next_key(names_view(self.namespaces@).push(id@), *child),
    {
        let inner = inner_namespaces(&self.namespaces, id);
        next_port(&inner, child)
    }
}

} // verus!

//! Evaluation of message type constraints: how the message type of a port
//! follows from the ports connected to it and from what the registry knows
//! of each message type.
//!
//! Ports and operations are known by integer ids, message types by their
//! index in the registry.

use vstd::prelude::*;
use std::collections::{HashMap, HashSet};
use crate::inference::vec_contains;
use crate::evaluation::Constraint;
use crate::gathering::PortNames;

verus! {

broadcast use vstd::std_specs::hash::group_hash_axioms;

/// What the registry knows of the operations that one message type supports.
pub struct MessageOperations {
    pub deserialize: bool,
    pub serialize: bool,
    pub fork_clone: bool,
    /// The `[ok, err]` message types of a result that can be forked.
    pub fork_result: Option<[usize; 2]>,
    /// The message types of the elements of a message that can be unzipped.
    pub unzip: Option<Vec<usize>>,
    /// The message type of the items of a message that can be split.
    pub split: Option<usize>,
    /// The request message of a message that can access buffers.
    pub buffer_access: Option<usize>,
    /// Whether the message is made of buffer keys that can listen.
    pub listen: bool,
    /// The message types that this one can be converted into.
    pub into_impls: HashSet<usize>,
    /// The message types that this one can be fallibly converted into.
    pub try_into_impls: HashSet<usize>,
    /// The message types that this one can be converted from.
    pub from_impls: HashSet<usize>,
    /// The message types that this one can be fallibly converted from.
    pub try_from_impls: HashSet<usize>,
}

/// The registered message types, by index.
pub struct MessageRegistrations {
    /// The operations of each registered message type; `None` for a type
    /// that was registered without any operations.
    pub operations: Vec<Option<MessageOperations>>,
    /// The index of the JSON message type, if it is registered.
    pub json_index: Option<usize>,
    /// For each ok type, for each err type, the registered result type.
    pub result_lookup: HashMap<usize, HashMap<usize, usize>>,
}

impl MessageRegistrations {
    /// A message type with operations is registered at `index`.
    pub open spec fn registered(&self, index: usize) -> bool {
        index < self.operations@.len() && self.operations@[index as int] is Some
    }

    /// The operations registered at `index`.
    pub open spec fn ops(&self, index: usize) -> MessageOperations {
        self.operations@[index as int]->0
    }

    /// Why no operations can be had at `index`.
    pub open spec fn operations_error(&self, index: usize) -> InferenceErrorView {
        if index >= self.operations@.len() {
            InferenceErrorView::UnknownMessageTypeIndex { index, limit: self.operations@.len() as usize }
        } else {
            InferenceErrorView::UnregisteredType(index)
        }
    }
}

/// Why a message type constraint could not be evaluated.
#[derive(Debug)]
pub enum InferenceError {
    /// The port is not known to the inference.
    UnknownPort(u64),
    /// No message type is registered at this index; `limit` is how many are.
    UnknownMessageTypeIndex { index: usize, limit: usize },
    /// The message type at this index was registered without operations.
    UnregisteredType(usize),
    /// Redirections into an operation run in a circle or merge; the
    /// operations visited before it was met again.
    CircularRedirect(Vec<u64>),
    /// Nothing connects into an operation that needs an input.
    NoConnection(u64),
    /// Several message types are possible and none can be chosen.
    AmbiguousMessageType(Vec<usize>),
    NotCloneable(usize),
    CannotForkResult(usize),
    NotUnzippable(usize),
    InvalidUnzip { message: usize, element: usize },
    CannotAccessBuffers(usize),
    NotSplittable(usize),
}

/// An [`InferenceError`] with its lists taken as sequences.
pub enum InferenceErrorView {
    UnknownPort(u64),
    UnknownMessageTypeIndex { index: usize, limit: usize },
    UnregisteredType(usize),
    CircularRedirect(Seq<u64>),
    NoConnection(u64),
    AmbiguousMessageType(Seq<usize>),
    NotCloneable(usize),
    CannotForkResult(usize),
    NotUnzippable(usize),
    InvalidUnzip { message: usize, element: usize },
    CannotAccessBuffers(usize),
    NotSplittable(usize),
}

impl View for InferenceError {
    type V = InferenceErrorView;

    open spec fn view(&self) -> InferenceErrorView {
        match self {
            InferenceError::UnknownPort(p) => InferenceErrorView::UnknownPort(*p),
            InferenceError::UnknownMessageTypeIndex { index, limit } => InferenceErrorView::UnknownMessageTypeIndex { index: *index, limit: *limit },
            InferenceError::UnregisteredType(i) => InferenceErrorView::UnregisteredType(*i),
            InferenceError::CircularRedirect(v) => InferenceErrorView::CircularRedirect(v@),
            InferenceError::NoConnection(o) => InferenceErrorView::NoConnection(*o),
            InferenceError::AmbiguousMessageType(v) => InferenceErrorView::AmbiguousMessageType(v@),
            InferenceError::NotCloneable(i) => InferenceErrorView::NotCloneable(*i),
            InferenceError::CannotForkResult(i) => InferenceErrorView::CannotForkResult(*i),
            InferenceError::NotUnzippable(i) => InferenceErrorView::NotUnzippable(*i),
            InferenceError::InvalidUnzip { message, element } => InferenceErrorView::InvalidUnzip { message: *message, element: *element },
            InferenceError::CannotAccessBuffers(i) => InferenceErrorView::CannotAccessBuffers(*i),
            InferenceError::NotSplittable(i) => InferenceErrorView::NotSplittable(*i),
        }
    }
}

/// The outcome of evaluating a constraint, with its error taken by view.
pub open spec fn eval_view(r: Result<Option<usize>, InferenceError>) -> Result<Option<usize>, InferenceErrorView> {
    match r {
        Ok(t) => Ok(t),
        Err(e) => Err(e@),
    }
}

/// What inference knows so far: the message type of each known port (if
/// determined), which outputs connect into each operation, which operations
/// redirect their inputs into each operation, and, for each buffer, the
/// ports of the operations that use it and hint at what it holds.
pub struct Inferences {
    pub evaluations: HashMap<u64, Option<usize>>,
    pub connections_into: HashMap<u64, Vec<u64>>,
    pub redirections_into: HashMap<u64, Vec<u64>>,
    pub buffer_hints: HashMap<u64, Vec<u64>>,
    /// The operation that each output connects into.
    pub connection_from: HashMap<u64, u64>,
    /// The operation that each redirecting operation passes its inputs to.
    pub redirected_input: HashMap<u64, u64>,
    /// The constraint on each constrained port.
    pub constraints: HashMap<u64, Constraint>,
    /// The names of the ports, by id.
    pub ports: PortNames,
}

impl Inferences {
    /// Each list of connections or redirections names an operation or an
    /// output at most once.
    pub open spec fn wf(&self) -> bool {
        &&& forall|k: u64| #[trigger] list_at(self.connections_into@, k).no_duplicates()
        &&& forall|k: u64| #[trigger] list_at(self.redirections_into@, k).no_duplicates()
        &&& self.ports.wf()
    }
}

/// The context in which constraints are evaluated.
pub struct ConstraintContext<'a> {
    pub inferences: &'a Inferences,
    pub registry: &'a MessageRegistrations,
}

/// The list of `m` at `k`, empty where there is none.
pub open spec fn list_at(m: Map<u64, Vec<u64>>, k: u64) -> Seq<u64> {
    if m.contains_key(k) {
        m[k]@
    } else {
        Seq::empty()
    }
}

impl<'a> ConstraintContext<'a> {
    /// The message type known so far for `port`.
    pub fn get_inference_of(&self, port: u64) -> (r: Result<Option<usize>, InferenceError>)
        ensures
            self.inferences.evaluations@.contains_key(port) ==> r == Ok::<Option<usize>, InferenceError>(self.inferences.evaluations@[port]),
            !self.inferences.evaluations@.contains_key(port) ==> r == Err::<Option<usize>, InferenceError>(InferenceError::UnknownPort(port)),
    {
        match self.inferences.evaluations.get(&port) {
            Some(t) => Ok(*t),
            None => Err(InferenceError::UnknownPort(port)),
        }
    }

    /// The outputs that connect into `operation`.
    pub fn connections_into(&self, operation: u64) -> (r: Vec<u64>)
        ensures
            r@ == list_at(self.inferences.connections_into@, operation),
    {
        match self.inferences.connections_into.get(&operation) {
            Some(c) => c.clone(),
            None => Vec::new(),
        }
    }

    /// The registered operations of message type `index`.
    pub fn operations_of(&self, index: usize) -> (r: Result<&'a MessageOperations, InferenceError>)
        ensures
            self.registry.registered(index) ==> (r matches Ok(ops) && *ops == self.registry.ops(index)),
            !self.registry.registered(index) ==> (r matches Err(e) && e@ == self.registry.operations_error(index)),
    {
        if index < self.registry.operations.len() {
            match &self.registry.operations[index] {
                Some(ops) => Ok(ops),
                None => Err(InferenceError::UnregisteredType(index)),
            }
        } else {
            Err(InferenceError::UnknownMessageTypeIndex { index, limit: self.registry.operations.len() })
        }
    }

    /// The registered message type at `index`, known by its index; fails for
    /// an index past the registry.
    pub fn type_info_for(&self, index: usize) -> (r: Result<usize, InferenceError>)
        ensures
            index < self.registry.operations@.len() ==> r == Ok::<usize, InferenceError>(index),
            index >= self.registry.operations@.len() ==> (r matches Err(e)
                && e@ == InferenceErrorView::UnknownMessageTypeIndex { index, limit: self.registry.operations@.len() as usize }),
    {
        if index < self.registry.operations.len() {
            Ok(index)
        } else {
            Err(InferenceError::UnknownMessageTypeIndex { index, limit: self.registry.operations.len() })
        }
    }
}

/// Strictly increasing: sorted without repeats.
pub open spec fn strictly_sorted(v: Seq<usize>) -> bool {
    forall|i: int, j: int| 0 <= i < j < v.len() ==> v[i] < v[j]
}

/// Insert `x` into a strictly increasing list, unless it is there already.
pub fn insert_sorted(v: &mut Vec<usize>, x: usize)
    requires
        strictly_sorted(old(v)@),
    ensures
        strictly_sorted(final(v)@),
        final(v)@.to_set() == old(v)@.to_set().insert(x),
{
    let mut i: usize = 0;
    while i < v.len() && v[i] < x
        invariant
            i <= v.len(),
            forall|j: int| 0 <= j < i ==> v@[j] < x,
        decreases v.len() - i,
    {
        i += 1;
    }
    if i < v.len() && v[i] == x {
        assert(v@.to_set().insert(x) =~= v@.to_set());
        return;
    }
    let ghost before = v@;
    v.insert(i, x);
    assert(v@.to_set() =~= before.to_set().insert(x)) by {
        assert forall|y: usize| v@.contains(y) <==> (before.contains(y) || y == x) by {
            if v@.contains(y) {
                let k = choose|k: int| 0 <= k < v@.len() && v@[k] == y;
                if k < i {
                    assert(before[k] == y);
                } else if k > i {
                    assert(before[k - 1] == y);
                }
            }
            if before.contains(y) {
                let k = choose|k: int| 0 <= k < before.len() && before[k] == y;
                if k < i {
                    assert(v@[k] == y);
                } else {
                    assert(v@[k + 1] == y);
                }
            }
            assert(v@[i as int] == x);
        }
        assert forall|y: usize| v@.to_set().contains(y) <==> before.to_set().insert(x).contains(y) by {
            assert(v@.to_set().contains(y) == v@.contains(y));
            assert(before.to_set().contains(y) == before.contains(y));
        }
    }
}

/// `p` follows redirections: each of its operations redirects into the one
/// before it (`p[0]` is where the path starts).
pub open spec fn is_redirect_path(rin: Map<u64, Vec<u64>>, p: Seq<u64>) -> bool {
    &&& p.len() > 0
    &&& forall|k: int| 0 <= k < p.len() - 1 ==> #[trigger] list_at(rin, p[k]).contains(p[k + 1])
}

/// Inputs of `to` reach `from` through a chain of redirections (or `to` is
/// `from`).
pub open spec fn redirects_to(rin: Map<u64, Vec<u64>>, from: u64, to: u64) -> bool {
    exists|p: Seq<u64>| is_redirect_path(rin, p) && p[0] == from && #[trigger] p.last() == to
}

/// The message types determined so far for the outputs connected into `op`.
pub open spec fn types_from(evals: Map<u64, Option<usize>>, conns: Map<u64, Vec<u64>>, op: u64) -> Set<usize> {
    Set::new(|t: usize| exists|c: u64| #[trigger] list_at(conns, op).contains(c) && evals.contains_key(c) && evals[c] == Some(t))
}

/// Every operation whose inputs reach `input` through redirections.
pub open spec fn universe(rin: Map<u64, Vec<u64>>, input: u64) -> Set<u64> {
    rin.values().map(|v: Vec<u64>| v@.to_set()).flatten().insert(input)
}

proof fn lemma_universe(rin: Map<u64, Vec<u64>>, input: u64)
    requires
        rin.dom().finite(),
    ensures
        universe(rin, input).finite(),
        universe(rin, input).contains(input),
        forall|k: u64, x: u64| #[trigger] list_at(rin, k).contains(x) ==> universe(rin, input).contains(x),
{
    vstd::map_lib::lemma_values_finite(rin);
    let sets = rin.values().map(|v: Vec<u64>| v@.to_set());
    rin.values().lemma_map_finite(|v: Vec<u64>| v@.to_set());
    assert forall|st: Set<u64>| sets.contains(st) implies #[trigger] st.finite() by {
        let v = choose|v: Vec<u64>| rin.values().contains(v) && v@.to_set() == st;
        vstd::seq_lib::seq_to_set_is_finite(v@);
    }
    sets.lemma_flatten_finite();
    assert forall|k: u64, x: u64| #[trigger] list_at(rin, k).contains(x) implies universe(rin, input).contains(x) by {
        assert(rin.contains_key(k));
        assert(rin.values().contains(rin[k]));
        assert(sets.contains(rin[k]@.to_set()));
        assert(rin[k]@.to_set().contains(x));
    }
}

/// What the outputs connected into `input`, directly or through
/// redirections, are known to carry.
pub open spec fn incoming_types(inferences: &Inferences, input: u64) -> Set<usize> {
    Set::new(|t: usize| exists|op: u64| redirects_to(inferences.redirections_into@, input, op)
        && #[trigger] types_from(inferences.evaluations@, inferences.connections_into@, op).contains(t))
}

/// Along a redirect path from `input`, every operation is in `visited`, when
/// `visited` holds `input` and holds what redirects into each of its members.
proof fn lemma_closed_holds_reachable(rin: Map<u64, Vec<u64>>, visited: Seq<u64>, p: Seq<u64>, k: int)
    requires
        is_redirect_path(rin, p),
        visited.contains(p[0]),
        forall|v: u64, x: u64| visited.contains(v) && #[trigger] list_at(rin, v).contains(x) ==> visited.contains(x),
        0 <= k < p.len(),
    ensures
        visited.contains(p[k]),
    decreases k,
{
    if k > 0 {
        lemma_closed_holds_reachable(rin, visited, p, k - 1);
        let j = k - 1;
        assert(list_at(rin, p[j]).contains(p[j + 1]));
    }
}

/// A redirect path extended by one more redirection.
proof fn lemma_extend_path(rin: Map<u64, Vec<u64>>, input: u64, v: u64, x: u64)
    requires
        redirects_to(rin, input, v),
        list_at(rin, v).contains(x),
    ensures
        redirects_to(rin, input, x),
{
    let p = choose|p: Seq<u64>| is_redirect_path(rin, p) && p[0] == input && #[trigger] p.last() == v;
    let q = p.push(x);
    assert forall|k: int| 0 <= k < q.len() - 1 implies #[trigger] list_at(rin, q[k]).contains(q[k + 1]) by {
        if k < p.len() - 1 {
            assert(q[k] == p[k] && q[k + 1] == p[k + 1]);
        }
    }
    assert(q.last() == x);
}

/// The strictly increasing sequence that holds exactly the members of `s`.
pub open spec fn sorted_of(s: Set<usize>) -> Seq<usize> {
    choose|v: Seq<usize>| strictly_sorted(v) && v.to_set() == s
}

/// Two strictly increasing sequences with the same members are equal.
pub proof fn lemma_sorted_unique(a: Seq<usize>, b: Seq<usize>)
    requires
        strictly_sorted(a),
        strictly_sorted(b),
        a.to_set() == b.to_set(),
    ensures
        a == b,
    decreases a.len(),
{
    if a.len() == 0 {
        if b.len() > 0 {
            assert(b.to_set().contains(b[0]));
        }
        assert(a =~= b);
    } else {
        if b.len() == 0 {
            assert(a.to_set().contains(a[0]));
        }
        assert(b.to_set().contains(a[0]));
        assert(a.to_set().contains(b[0]));
        let j = choose|j: int| 0 <= j < b.len() && b[j] == a[0];
        let i = choose|i: int| 0 <= i < a.len() && a[i] == b[0];
        assert(a[0] == b[0]) by {
            if i > 0 {
                assert(a[0] < a[i]);
            }
            if j > 0 {
                assert(b[0] < b[j]);
            }
        }
        let a1 = a.drop_first();
        let b1 = b.drop_first();
        assert(a1.to_set() =~= b1.to_set()) by {
            assert forall|x: usize| a1.to_set().contains(x) <==> b1.to_set().contains(x) by {
                if a1.to_set().contains(x) {
                    let k = choose|k: int| 0 <= k < a1.len() && a1[k] == x;
                    assert(a[k + 1] == x && a[0] < a[k + 1]);
                    assert(a.to_set().contains(x));
                    let m = choose|m: int| 0 <= m < b.len() && b[m] == x;
                    assert(m != 0);
                    assert(b1[m - 1] == x);
                }
                if b1.to_set().contains(x) {
                    let k = choose|k: int| 0 <= k < b1.len() && b1[k] == x;
                    assert(b[k + 1] == x && b[0] < b[k + 1]);
                    assert(b.to_set().contains(x));
                    let m = choose|m: int| 0 <= m < a.len() && a[m] == x;
                    assert(m != 0);
                    assert(a1[m - 1] == x);
                }
            }
        }
        lemma_sorted_unique(a1, b1);
        assert(a =~= b) by {
            assert forall|k: int| 0 <= k < a.len() implies a[k] == b[k] by {
                if k > 0 {
                    assert(a[k] == a1[k - 1] && b[k] == b1[k - 1]);
                }
            }
        }
    }
}

/// A strictly increasing sequence is the one `sorted_of` names for its
/// members.
pub proof fn lemma_sorted_of(v: Seq<usize>)
    requires
        strictly_sorted(v),
    ensures
        sorted_of(v.to_set()) == v,
{
    let w = sorted_of(v.to_set());
    assert(strictly_sorted(w) && w.to_set() == v.to_set());
    lemma_sorted_unique(w, v);
}

/// The message types that arrive at `input`, in increasing order.
pub open spec fn incoming_sorted(inferences: &Inferences, input: u64) -> Seq<usize> {
    sorted_of(incoming_types(inferences, input))
}

/// `p` is connected into an operation whose inputs reach `input`, and is
/// not a known port.
pub open spec fn unknown_connected(inferences: &Inferences, input: u64, p: u64) -> bool {
    exists|op: u64| redirects_to(inferences.redirections_into@, input, op)
        && #[trigger] list_at(inferences.connections_into@, op).contains(p) && !inferences.evaluations@.contains_key(p)
}

/// The stack of operations still to visit, and the operations visited in
/// order, after `n` steps of a depth-first walk of the redirections into
/// `input`: each step takes the operation on top of the stack, visits it, and
/// stacks the operations that redirect into it.
pub open spec fn walk(rin: Map<u64, Vec<u64>>, input: u64, n: nat) -> (Seq<u64>, Seq<u64>)
    decreases n,
{
    if n == 0 {
        (seq![input], Seq::empty())
    } else {
        let prev = walk(rin, input, (n - 1) as nat);
        if prev.0.len() == 0 {
            prev
        } else {
            let top = prev.0.last();
            (prev.0.drop_last() + list_at(rin, top), prev.1.push(top))
        }
    }
}

/// `list` is what the walk of the redirections into `input` had visited when
/// the operation on top of its stack was one it had visited already.
pub open spec fn revisit_list(rin: Map<u64, Vec<u64>>, input: u64, list: Seq<u64>) -> bool {
    let w = walk(rin, input, list.len());
    &&& w.1 == list
    &&& w.0.len() > 0
    &&& list.contains(w.0.last())
}

/// Every port of `s` is known.
pub open spec fn all_known(evals: Map<u64, Option<usize>>, s: Seq<u64>) -> bool {
    forall|k: int| 0 <= k < s.len() ==> evals.contains_key(#[trigger] s[k])
}

/// `p` is the first port of `s` that is not known.
pub open spec fn first_unknown_is(evals: Map<u64, Option<usize>>, s: Seq<u64>, p: u64) -> bool {
    exists|k: int| 0 <= k < s.len() && #[trigger] s[k] == p && !evals.contains_key(p)
        && all_known(evals, s.take(k))
}

/// Step `n` of the walk of the redirections into `input` meets no fault:
/// the operation on top of the stack, if any, was not visited yet, has
/// something connected or redirected into it where that is necessary, and
/// has only known ports connected into it.
pub open spec fn step_ok(inferences: &Inferences, input: u64, connection_necessary: bool, n: nat) -> bool {
    let rin = inferences.redirections_into@;
    let conns = inferences.connections_into@;
    let w = walk(rin, input, n);
    w.0.len() > 0 ==> {
        let top = w.0.last();
        &&& !w.1.contains(top)
        &&& !(connection_necessary && list_at(conns, top).len() == 0 && list_at(rin, top).len() == 0)
        &&& all_known(inferences.evaluations@, list_at(conns, top))
    }
}

/// Step `n` of the walk meets fault `e`: an operation visited before, an
/// operation with nothing connected or redirected into it where that is
/// necessary, or else the first unknown port connected into it.
pub open spec fn step_fails_with(inferences: &Inferences, input: u64, connection_necessary: bool, n: nat, e: InferenceErrorView) -> bool {
    let rin = inferences.redirections_into@;
    let conns = inferences.connections_into@;
    let w = walk(rin, input, n);
    w.0.len() > 0 && {
        let top = w.0.last();
        if w.1.contains(top) {
            e == InferenceErrorView::CircularRedirect(w.1)
        } else if connection_necessary && list_at(conns, top).len() == 0 && list_at(rin, top).len() == 0 {
            e == InferenceErrorView::NoConnection(top)
        } else {
            e matches InferenceErrorView::UnknownPort(p) && first_unknown_is(inferences.evaluations@, list_at(conns, top), p)
        }
    }
}

/// `e` is the first fault that the walk of the redirections into `input`
/// meets.
pub open spec fn first_fault(inferences: &Inferences, input: u64, connection_necessary: bool, e: InferenceErrorView) -> bool {
    exists|n: nat| #[trigger] step_fails_with(inferences, input, connection_necessary, n, e)
        && forall|m: nat| m < n ==> #[trigger] step_ok(inferences, input, connection_necessary, m)
}

/// `e` is an error that gathering the message types into `input` meets,
/// with its cause: a port connected into an operation on the way that is not
/// known; an operation on the way, where a connection is necessary, with
/// nothing connected or redirected into it; or redirections that form no
/// tree, reported with every operation that the walk of the redirections
/// visited before it met one again.
pub open spec fn traversal_error(inferences: &Inferences, input: u64, connection_necessary: bool, e: InferenceErrorView) -> bool {
    first_fault(inferences, input, connection_necessary, e) && match e {
        InferenceErrorView::UnknownPort(p) => unknown_connected(inferences, input, p),
        InferenceErrorView::NoConnection(op) => connection_necessary && redirects_to(inferences.redirections_into@, input, op)
            && list_at(inferences.connections_into@, op).len() == 0 && list_at(inferences.redirections_into@, op).len() == 0,
        InferenceErrorView::CircularRedirect(list) => !redirect_tree(inferences.redirections_into@, input) && list.len() > 0
            && forall|k: int| 0 <= k < list.len() ==> redirects_to(inferences.redirections_into@, input, #[trigger] list[k])
            && revisit_list(inferences.redirections_into@, input, list),
        _ => false,
    }
}

/// `p` is a chain of redirections that starts at `input`.
pub open spec fn path_from(rin: Map<u64, Vec<u64>>, input: u64, p: Seq<u64>) -> bool {
    is_redirect_path(rin, p) && p[0] == input
}

/// The redirections into `input` form a tree: no two chains of redirections
/// from `input` end at the same operation, so none runs in a circle and no
/// two merge.
pub open spec fn redirect_tree(rin: Map<u64, Vec<u64>>, input: u64) -> bool {
    forall|p: Seq<u64>, q: Seq<u64>|
        #![trigger path_from(rin, input, p), path_from(rin, input, q)]
        path_from(rin, input, p) && path_from(rin, input, q) && p.last() == q.last() ==> p == q
}

/// The message types into `input` can be gathered: its redirections form a
/// tree, every output connected into it is a known port, and, when a
/// connection is necessary, every operation on the way has a connection or
/// a redirection into it.
pub open spec fn types_into_ok(inferences: &Inferences, input: u64, connection_necessary: bool) -> bool {
    let rin = inferences.redirections_into@;
    let conns = inferences.connections_into@;
    &&& redirect_tree(rin, input)
    &&& forall|op: u64, c: u64| redirects_to(rin, input, op) && #[trigger] list_at(conns, op).contains(c)
            ==> inferences.evaluations@.contains_key(c)
    &&& connection_necessary ==> forall|op: u64| #[trigger] redirects_to(rin, input, op)
            ==> list_at(conns, op).len() > 0 || list_at(rin, op).len() > 0
}

/// Gathering that needs a connection into every operation succeeds only
/// where gathering that does not need one succeeds too.
pub proof fn law_strict_gathering_implies_lenient(inferences: &Inferences, input: u64)
    requires
        types_into_ok(inferences, input, true),
    ensures
        types_into_ok(inferences, input, false),
{
}

/// The chains that a traversal of redirections from `input` has finished
/// (`done`) and still has to follow (`pending`): each is a chain from
/// `input`, none is held twice, every shorter start of one is finished, and
/// every chain from `input` is finished or continues a pending one.
pub open spec fn traversal_inv(rin: Map<u64, Vec<u64>>, input: u64, done: Seq<Seq<u64>>, pending: Seq<Seq<u64>>) -> bool {
    &&& forall|k: int| 0 <= k < done.len() ==> path_from(rin, input, #[trigger] done[k])
    &&& forall|k: int| 0 <= k < pending.len() ==> path_from(rin, input, #[trigger] pending[k])
    &&& done.no_duplicates()
    &&& pending.no_duplicates()
    &&& forall|a: int, b: int| 0 <= a < done.len() && 0 <= b < pending.len() ==> #[trigger] done[a] != #[trigger] pending[b]
    &&& forall|k: int, n: int| 0 <= k < done.len() && 1 <= n < done[k].len() ==> done.contains(#[trigger] done[k].take(n))
    &&& forall|k: int, n: int| 0 <= k < pending.len() && 1 <= n < pending[k].len() ==> done.contains(#[trigger] pending[k].take(n))
    &&& forall|p: Seq<u64>| #[trigger] path_from(rin, input, p)
            ==> done.contains(p) || exists|k: int| 0 <= k < pending.len() && #[trigger] pending[k].is_prefix_of(p)
}

/// The chains that continue `tp` by one redirection in `red`.
pub open spec fn child_paths(tp: Seq<u64>, red: Seq<u64>) -> Seq<Seq<u64>> {
    Seq::new(red.len(), |m: int| tp.push(red[m]))
}

proof fn lemma_push_path(rin: Map<u64, Vec<u64>>, input: u64, tp: Seq<u64>, x: u64)
    requires
        path_from(rin, input, tp),
        list_at(rin, tp.last()).contains(x),
    ensures
        path_from(rin, input, tp.push(x)),
        tp.push(x).take(tp.len() as int) == tp,
        forall|n: int| 0 <= n <= tp.len() ==> #[trigger] tp.push(x).take(n) == tp.take(n),
{
    let q = tp.push(x);
    assert forall|k: int| 0 <= k < q.len() - 1 implies #[trigger] list_at(rin, q[k]).contains(q[k + 1]) by {
        if k < tp.len() - 1 {
            assert(q[k] == tp[k] && q[k + 1] == tp[k + 1]);
        }
    }
    assert(q.take(tp.len() as int) =~= tp);
    assert forall|n: int| 0 <= n <= tp.len() implies #[trigger] tp.push(x).take(n) == tp.take(n) by {
        assert(tp.push(x).take(n) =~= tp.take(n));
    }
}

/// Finishing the last pending chain and taking on its continuations keeps
/// the traversal invariant.
proof fn lemma_traversal_step(rin: Map<u64, Vec<u64>>, input: u64, done: Seq<Seq<u64>>, pending: Seq<Seq<u64>>, red: Seq<u64>)
    requires
        traversal_inv(rin, input, done, pending),
        pending.len() > 0,
        red == list_at(rin, pending.last().last()),
        red.no_duplicates(),
    ensures
        traversal_inv(rin, input, done.push(pending.last()), pending.drop_last() + child_paths(pending.last(), red)),
{
    let tp = pending.last();
    let n = pending.len() - 1;
    let c = child_paths(tp, red);
    let d2 = done.push(tp);
    let p2 = pending.drop_last() + c;
    assert(path_from(rin, input, pending[n]));
    assert forall|m: int| 0 <= m < c.len() implies path_from(rin, input, #[trigger] c[m])
        && c[m].take(tp.len() as int) == tp
        && forall|j: int| 0 <= j <= tp.len() ==> #[trigger] c[m].take(j) == tp.take(j) by {
        assert(list_at(rin, tp.last()).contains(red[m]));
        lemma_push_path(rin, input, tp, red[m]);
    }
    assert(!done.contains(tp)) by {
        if done.contains(tp) {
            let a = choose|a: int| 0 <= a < done.len() && done[a] == tp;
            assert(done[a] != pending[n]);
        }
    }
    // A continuation of `tp` is neither finished nor pending already.
    assert forall|m: int| 0 <= m < c.len() implies !done.contains(#[trigger] c[m]) && !pending.drop_last().contains(c[m]) by {
        if done.contains(c[m]) {
            let a = choose|a: int| 0 <= a < done.len() && done[a] == c[m];
            assert(done.contains(done[a].take(tp.len() as int)));
        }
        if pending.drop_last().contains(c[m]) {
            let b = choose|b: int| 0 <= b < n && pending.drop_last()[b] == c[m];
            assert(pending[b] == c[m]);
            assert(done.contains(pending[b].take(tp.len() as int)));
        }
    }
    assert forall|k: int| 0 <= k < d2.len() implies path_from(rin, input, #[trigger] d2[k]) by {
        if k < done.len() {
            assert(d2[k] == done[k]);
        }
    }
    assert forall|k: int| 0 <= k < p2.len() implies path_from(rin, input, #[trigger] p2[k]) by {
        if k < n {
            assert(p2[k] == pending[k]);
        } else {
            assert(p2[k] == c[k - n]);
        }
    }
    assert(d2.no_duplicates()) by {
        assert forall|a: int, b: int| 0 <= a < b < d2.len() implies d2[a] != d2[b] by {
            if b == done.len() {
                assert(done.contains(done[a]));
            }
        }
    }
    assert(p2.no_duplicates()) by {
        assert forall|a: int, b: int| 0 <= a < b < p2.len() implies p2[a] != p2[b] by {
            if b < n {
                assert(p2[a] == pending[a] && p2[b] == pending[b]);
            } else if a < n {
                assert(p2[a] == pending.drop_last()[a]);
                assert(p2[b] == c[b - n]);
                assert(pending.drop_last().contains(p2[a]));
            } else {
                assert(p2[a] == c[a - n] && p2[b] == c[b - n]);
                assert(c[a - n].last() == red[a - n] && c[b - n].last() == red[b - n]);
            }
        }
    }
    assert forall|a: int, b: int| 0 <= a < d2.len() && 0 <= b < p2.len() implies #[trigger] d2[a] != #[trigger] p2[b] by {
        if a < done.len() {
            assert(d2[a] == done[a]);
            if b < n {
                assert(p2[b] == pending[b]);
            } else {
                assert(p2[b] == c[b - n]);
                assert(done.contains(done[a]));
            }
        } else {
            if b < n {
                assert(p2[b] == pending[b]);
            } else {
                assert(p2[b] == c[b - n]);
                assert(c[b - n].len() == tp.len() + 1);
            }
        }
    }
    assert forall|k: int, j: int| 0 <= k < d2.len() && 1 <= j < d2[k].len() implies d2.contains(#[trigger] d2[k].take(j)) by {
        if k < done.len() {
            assert(d2[k] == done[k]);
            let w = choose|w: int| 0 <= w < done.len() && done[w] == done[k].take(j);
            assert(d2[w] == done[w]);
        } else {
            assert(d2[k] == pending[n]);
            let w = choose|w: int| 0 <= w < done.len() && done[w] == pending[n].take(j);
            assert(d2[w] == done[w]);
        }
    }
    assert forall|k: int, j: int| 0 <= k < p2.len() && 1 <= j < p2[k].len() implies d2.contains(#[trigger] p2[k].take(j)) by {
        if k < n {
            assert(p2[k] == pending[k]);
            let w = choose|w: int| 0 <= w < done.len() && done[w] == pending[k].take(j);
            assert(d2[w] == done[w]);
        } else {
            assert(p2[k] == c[k - n]);
            if j == tp.len() {
                assert(c[k - n].take(j) == tp);
                assert(d2[done.len() as int] == tp);
            } else {
                assert(c[k - n].take(j) == tp.take(j));
                let w = choose|w: int| 0 <= w < done.len() && done[w] == pending[n].take(j);
                assert(d2[w] == done[w]);
            }
        }
    }
    assert forall|p: Seq<u64>| #[trigger] path_from(rin, input, p)
        implies d2.contains(p) || exists|k: int| 0 <= k < p2.len() && #[trigger] p2[k].is_prefix_of(p) by {
        if done.contains(p) {
            let w = choose|w: int| 0 <= w < done.len() && done[w] == p;
            assert(d2[w] == done[w]);
        } else {
            let k = choose|k: int| 0 <= k < pending.len() && #[trigger] pending[k].is_prefix_of(p);
            if k < n {
                assert(p2[k] == pending[k]);
            } else if p.len() == tp.len() {
                assert(p =~= tp);
                assert(d2[done.len() as int] == tp);
            } else {
                let x = p[tp.len() as int];
                let i = tp.len() - 1;
                assert(list_at(rin, p[i]).contains(p[i + 1]));
                assert(p[i] == tp[i]);
                let m = choose|m: int| 0 <= m < red.len() && red[m] == x;
                assert(p2[n + m] == c[m]);
                assert(c[m] =~= p.subrange(0, tp.len() + 1 as int));
                assert(p2[n + m].is_prefix_of(p));
            }
        }
    }
}

/// Meeting a finished operation again means the redirections are no tree.
proof fn lemma_revisit(rin: Map<u64, Vec<u64>>, input: u64, done: Seq<Seq<u64>>, pending: Seq<Seq<u64>>, k: int)
    requires
        traversal_inv(rin, input, done, pending),
        pending.len() > 0,
        0 <= k < done.len(),
        done[k].last() == pending.last().last(),
    ensures
        !redirect_tree(rin, input),
{
    let n = pending.len() - 1;
    assert(done[k] != pending[n]);
    assert(path_from(rin, input, done[k]));
    assert(path_from(rin, input, pending[n]));
}

/// A traversal that finished everything has met every chain, and found a
/// tree if it met no operation twice.
proof fn lemma_traversal_complete(rin: Map<u64, Vec<u64>>, input: u64, done: Seq<Seq<u64>>)
    requires
        traversal_inv(rin, input, done, Seq::empty()),
        forall|a: int, b: int| 0 <= a < b < done.len() ==> done[a].last() != done[b].last(),
    ensures
        redirect_tree(rin, input),
        forall|p: Seq<u64>| #[trigger] path_from(rin, input, p) ==> done.contains(p),
{
    assert forall|p: Seq<u64>| #[trigger] path_from(rin, input, p) implies done.contains(p) by {
        let e: Seq<Seq<u64>> = Seq::empty();
        assert(!(exists|k: int| 0 <= k < e.len() && #[trigger] e[k].is_prefix_of(p)));
    }
    assert forall|p: Seq<u64>, q: Seq<u64>|
        #![trigger path_from(rin, input, p), path_from(rin, input, q)]
        path_from(rin, input, p) && path_from(rin, input, q) && p.last() == q.last() implies p == q by {
        let a = choose|a: int| 0 <= a < done.len() && done[a] == p;
        let b = choose|b: int| 0 <= b < done.len() && done[b] == q;
        if a < b {
            assert(done[a].last() != done[b].last());
        } else if b < a {
            assert(done[b].last() != done[a].last());
        }
    }
}

impl<'a> ConstraintContext<'a> {
    /// The message types known to arrive at `input`, directly from the
    /// outputs connected into it or through operations that redirect into
    /// it, sorted and without repeats. Fails for a circular or merging
    /// redirection, for a connected port that is not known, and, when a
    /// connection is necessary, for an operation that nothing connects or
    /// redirects into.
    pub fn impl_get_message_types_into(&self, input: u64, connection_necessary: bool) -> (r: Result<Vec<usize>, InferenceError>)
        requires
            self.inferences.wf(),
        ensures
            r is Ok <==> types_into_ok(self.inferences, input, connection_necessary),
            r matches Ok(v) ==> strictly_sorted(v@) && v@.to_set() == incoming_types(self.inferences, input),
            r matches Err(e) ==> traversal_error(self.inferences, input, connection_necessary, e@),
    {
        let ghost rin = self.inferences.redirections_into@;
        let ghost conns = self.inferences.connections_into@;
        let ghost evals = self.inferences.evaluations@;
        let ghost uni = universe(rin, input);
        proof {
            lemma_universe(rin, input);
            assert(is_redirect_path(rin, seq![input]));
            assert(seq![input].last() == input);
        }
        let mut message_types: Vec<usize> = Vec::new();
        let mut stack: Vec<u64> = Vec::new();
        stack.push(input);
        let mut visited: Vec<u64> = Vec::new();
        let ghost mut pending: Seq<Seq<u64>> = seq![seq![input]];
        let ghost mut done: Seq<Seq<u64>> = Seq::empty();
        proof {
            assert forall|p: Seq<u64>| #[trigger] path_from(rin, input, p)
                implies done.contains(p) || exists|k: int| 0 <= k < pending.len() && #[trigger] pending[k].is_prefix_of(p) by {
                assert(pending[0] =~= p.subrange(0, 1));
                assert(pending[0].is_prefix_of(p));
            }
            assert(path_from(rin, input, pending[0]));
        }
        while stack.len() > 0
            invariant
                self.inferences.wf(),
                traversal_inv(rin, input, done, pending),
                pending.len() == stack@.len(),
                forall|k: int| 0 <= k < pending.len() ==> (#[trigger] pending[k]).last() == stack@[k],
                done.len() == visited@.len(),
                forall|k: int| 0 <= k < done.len() ==> (#[trigger] done[k]).last() == visited@[k],
                connection_necessary ==> forall|v: u64| #[trigger] visited@.contains(v) ==> list_at(conns, v).len() > 0 || list_at(rin, v).len() > 0,
                rin == self.inferences.redirections_into@,
                conns == self.inferences.connections_into@,
                evals == self.inferences.evaluations@,
                uni == universe(rin, input),
                uni.finite(),
                forall|k: u64, x: u64| #[trigger] list_at(rin, k).contains(x) ==> uni.contains(x),
                forall|k: int| 0 <= k < stack@.len() ==> redirects_to(rin, input, #[trigger] stack@[k]) && uni.contains(stack@[k]),
                forall|k: int| 0 <= k < visited@.len() ==> redirects_to(rin, input, #[trigger] visited@[k]) && uni.contains(visited@[k]),
                visited@.no_duplicates(),
                stack@ == walk(rin, input, visited@.len() as nat).0,
                visited@ == walk(rin, input, visited@.len() as nat).1,
                forall|m: nat| m < visited@.len() ==> #[trigger] step_ok(self.inferences, input, connection_necessary, m),
                visited@.contains(input) || stack@.contains(input),
                forall|v: u64, x: u64| visited@.contains(v) && #[trigger] list_at(rin, v).contains(x) ==> visited@.contains(x) || stack@.contains(x),
                forall|v: u64, c: u64| visited@.contains(v) && #[trigger] list_at(conns, v).contains(c) ==> evals.contains_key(c),
                strictly_sorted(message_types@),
                forall|t: usize| #[trigger] message_types@.to_set().contains(t) <==> exists|v: u64| visited@.contains(v) && #[trigger] types_from(evals, conns, v).contains(t),
            decreases uni.len() - visited@.len(),
        {
            let ghost pre_stack = stack@;
            let top = stack.pop().unwrap();
            proof {
                assert(top == pre_stack[pre_stack.len() - 1]);
                assert(redirects_to(rin, input, top));
                assert(stack@ =~= pre_stack.drop_last());
                assert forall|x: u64| pre_stack.contains(x) implies x == top || stack@.contains(x) by {
                    let k = choose|k: int| 0 <= k < pre_stack.len() && pre_stack[k] == x;
                    if k < pre_stack.len() - 1 {
                        assert(stack@[k] == x);
                    }
                }
            }
            if vec_contains(&visited, top) {
                let list = visited;
                proof {
                    assert(list@.contains(top));
                    let k = choose|k: int| 0 <= k < list@.len() && list@[k] == top;
                    assert(done[k].last() == top);
                    assert(pending[pending.len() - 1].last() == top);
                    lemma_revisit(rin, input, done, pending, k);
                    assert(revisit_list(rin, input, list@));
                    assert(step_fails_with(self.inferences, input, connection_necessary, list@.len() as nat,
                        InferenceErrorView::CircularRedirect(list@)));
                }
                return Err(InferenceError::CircularRedirect(list));
            }
            let connections = self.connections_into(top);
            let redirections = match self.inferences.redirections_into.get(&top) {
                Some(r) => r.clone(),
                None => Vec::new(),
            };
            proof {
                assert(!visited@.contains(top));
            }
            if connection_necessary && connections.len() == 0 && redirections.len() == 0 {
                proof {
                    assert(redirects_to(rin, input, top));
                    assert(step_fails_with(self.inferences, input, connection_necessary, visited@.len() as nat,
                        InferenceErrorView::NoConnection(top)));
                }
                return Err(InferenceError::NoConnection(top));
            }
            let ghost old_types = message_types@;
            let mut i: usize = 0;
            while i < connections.len()
                invariant
                    i <= connections.len(),
                    connections@ == list_at(conns, top),
                    evals == self.inferences.evaluations@,
                    conns == self.inferences.connections_into@,
                    rin == self.inferences.redirections_into@,
                    redirects_to(rin, input, top),
                    pre_stack == walk(rin, input, visited@.len() as nat).0,
                    visited@ == walk(rin, input, visited@.len() as nat).1,
                    pre_stack.len() > 0,
                    top == pre_stack[pre_stack.len() - 1],
                    !visited@.contains(top),
                    !(connection_necessary && list_at(conns, top).len() == 0 && list_at(rin, top).len() == 0),
                    forall|m: nat| m < visited@.len() ==> #[trigger] step_ok(self.inferences, input, connection_necessary, m),
                    forall|k: int| 0 <= k < i ==> evals.contains_key(#[trigger] connections@[k]),
                    strictly_sorted(message_types@),
                    forall|t: usize| #[trigger] message_types@.to_set().contains(t) <==> (old_types.to_set().contains(t)
                        || exists|k: int| 0 <= k < i && evals[connections@[k]] == Some(t)),
                decreases connections.len() - i,
            {
                let c = connections[i];
                match self.get_inference_of(c) {
                    Ok(Some(t)) => {
                        insert_sorted(&mut message_types, t);
                    },
                    Ok(None) => {},
                    Err(e) => {
                        proof {
                            assert(list_at(conns, top).contains(c));
                            assert(e@ == InferenceErrorView::UnknownPort(c));
                            assert(!self.inferences.evaluations@.contains_key(c));
                            assert(redirects_to(self.inferences.redirections_into@, input, top)
                                && list_at(self.inferences.connections_into@, top).contains(c));
                            assert(unknown_connected(self.inferences, input, c));
                            assert(connections@.take(i as int) =~= list_at(conns, top).take(i as int));
                            assert(all_known(evals, list_at(conns, top).take(i as int)));
                            assert(first_unknown_is(evals, list_at(conns, top), c));
                            assert(step_fails_with(self.inferences, input, connection_necessary, visited@.len() as nat, e@));
                            assert(traversal_error(self.inferences, input, connection_necessary, e@));
                            assert(!types_into_ok(self.inferences, input, connection_necessary));
                        }
                        return Err(e);
                    },
                }
                i += 1;
            }
            let ghost before_stack = stack@;
            let mut j: usize = 0;
            while j < redirections.len()
                invariant
                    j <= redirections.len(),
                    redirections@ == list_at(rin, top),
                    stack@ == before_stack + redirections@.take(j as int),
                decreases redirections.len() - j,
            {
                stack.push(redirections[j]);
                j += 1;
                assert(stack@ =~= before_stack + redirections@.take(j as int));
            }
            assert(redirections@.take(redirections@.len() as int) =~= redirections@);
            let ghost old_visited = visited@;
            visited.push(top);
            proof {
                assert(connection_necessary ==> list_at(conns, top).len() > 0 || list_at(rin, top).len() > 0);
                assert forall|v: u64| connection_necessary && #[trigger] visited@.contains(v)
                    implies list_at(conns, v).len() > 0 || list_at(rin, v).len() > 0 by {
                    if v != top {
                        let k = choose|k: int| 0 <= k < visited@.len() && visited@[k] == v;
                        assert(old_visited[k] == v);
                        assert(old_visited.contains(v));
                    }
                }
                let old_pending = pending;
                let old_done = done;
                lemma_traversal_step(rin, input, done, pending, redirections@);
                done = old_done.push(old_pending.last());
                pending = old_pending.drop_last() + child_paths(old_pending.last(), redirections@);
                assert forall|k: int| 0 <= k < pending.len() implies (#[trigger] pending[k]).last() == stack@[k] by {
                    if k < old_pending.len() - 1 {
                        assert(pending[k] == old_pending[k]);
                        assert(stack@[k] == pre_stack[k]);
                    } else {
                        let m = k - (old_pending.len() - 1);
                        assert(pending[k] == old_pending.last().push(redirections@[m]));
                        assert(stack@[k] == redirections@[m]);
                    }
                }
                assert forall|k: int| 0 <= k < done.len() implies (#[trigger] done[k]).last() == visited@[k] by {
                    if k < old_done.len() {
                        assert(done[k] == old_done[k]);
                    }
                }
                assert forall|k: int| 0 <= k < stack@.len() implies redirects_to(rin, input, #[trigger] stack@[k]) && uni.contains(stack@[k]) by {
                    if k >= before_stack.len() {
                        assert(list_at(rin, top).contains(stack@[k]));
                        lemma_extend_path(rin, input, top, stack@[k]);
                    } else {
                        assert(stack@[k] == before_stack[k]);
                    }
                }
                assert forall|k: int| 0 <= k < visited@.len() implies redirects_to(rin, input, #[trigger] visited@[k]) && uni.contains(visited@[k]) by {
                    if k < old_visited.len() {
                        assert(visited@[k] == old_visited[k]);
                    }
                }
                assert(visited@.no_duplicates()) by {
                    assert forall|p: int, q: int| 0 <= p < q < visited@.len() implies visited@[p] != visited@[q] by {
                        if q == old_visited.len() {
                            assert(old_visited.contains(old_visited[p]));
                        }
                    }
                }
                assert(visited@.to_set().subset_of(uni)) by {
                    assert forall|x: u64| visited@.to_set().contains(x) implies uni.contains(x) by {
                        let k = choose|k: int| 0 <= k < visited@.len() && visited@[k] == x;
                    }
                }
                visited@.unique_seq_to_set();
                vstd::set_lib::lemma_len_subset(visited@.to_set(), uni);
                assert(forall|x: u64| visited@.contains(x) <==> (old_visited.contains(x) || x == top)) by {
                    assert forall|x: u64| visited@.contains(x) implies (old_visited.contains(x) || x == top) by {
                        let k = choose|k: int| 0 <= k < visited@.len() && visited@[k] == x;
                        if k < old_visited.len() {
                            assert(old_visited[k] == x);
                        }
                    }
                    assert forall|x: u64| old_visited.contains(x) implies visited@.contains(x) by {
                        let k = choose|k: int| 0 <= k < old_visited.len() && old_visited[k] == x;
                        assert(visited@[k] == x);
                    }
                    assert(visited@[old_visited.len() as int] == top);
                }
                assert(forall|x: u64| before_stack.contains(x) ==> stack@.contains(x)) by {
                    assert forall|x: u64| before_stack.contains(x) implies stack@.contains(x) by {
                        let k = choose|k: int| 0 <= k < before_stack.len() && before_stack[k] == x;
                        assert(stack@[k] == x);
                    }
                }
                assert(forall|x: u64| list_at(rin, top).contains(x) ==> stack@.contains(x)) by {
                    assert forall|x: u64| list_at(rin, top).contains(x) implies stack@.contains(x) by {
                        let k = choose|k: int| 0 <= k < redirections@.len() && redirections@[k] == x;
                        assert(stack@[before_stack.len() + k] == x);
                    }
                }
                assert forall|c: u64| #[trigger] list_at(conns, top).contains(c) implies evals.contains_key(c) by {
                    let k = choose|k: int| 0 <= k < connections@.len() && connections@[k] == c;
                }
                assert forall|t: usize| #[trigger] types_from(evals, conns, top).contains(t) <==> exists|k: int| 0 <= k < connections@.len() && evals[connections@[k]] == Some(t) by {
                    if types_from(evals, conns, top).contains(t) {
                        let c = choose|c: u64| #[trigger] list_at(conns, top).contains(c) && evals.contains_key(c) && evals[c] == Some(t);
                        let k = choose|k: int| 0 <= k < connections@.len() && connections@[k] == c;
                    }
                    if exists|k: int| 0 <= k < connections@.len() && evals[connections@[k]] == Some(t) {
                        let k = choose|k: int| 0 <= k < connections@.len() && evals[connections@[k]] == Some(t);
                        assert(list_at(conns, top).contains(connections@[k]));
                    }
                }
                assert forall|t: usize| #[trigger] message_types@.to_set().contains(t) <==> exists|v: u64| visited@.contains(v) && #[trigger] types_from(evals, conns, v).contains(t) by {
                    if message_types@.to_set().contains(t) {
                        if old_types.to_set().contains(t) {
                            let v = choose|v: u64| old_visited.contains(v) && #[trigger] types_from(evals, conns, v).contains(t);
                            assert(visited@.contains(v));
                        } else {
                            assert(types_from(evals, conns, top).contains(t));
                        }
                    }
                    if exists|v: u64| visited@.contains(v) && #[trigger] types_from(evals, conns, v).contains(t) {
                        let v = choose|v: u64| visited@.contains(v) && #[trigger] types_from(evals, conns, v).contains(t);
                        if v != top {
                            assert(old_visited.contains(v));
                        }
                    }
                }
            }
        }
        proof {
            assert(pending =~= Seq::<Seq<u64>>::empty());
            assert forall|a: int, b: int| 0 <= a < b < done.len() implies done[a].last() != done[b].last() by {
                assert(done[a].last() == visited@[a] && done[b].last() == visited@[b]);
            }
            lemma_traversal_complete(rin, input, done);
            assert forall|op: u64| #[trigger] redirects_to(rin, input, op) implies visited@.contains(op) by {
                let p = choose|p: Seq<u64>| is_redirect_path(rin, p) && p[0] == input && #[trigger] p.last() == op;
                assert(path_from(rin, input, p));
                let k = choose|k: int| 0 <= k < done.len() && done[k] == p;
                assert(visited@[k] == op);
            }
            assert(types_into_ok(self.inferences, input, connection_necessary));
            assert(visited@.contains(input));
            assert forall|t: usize| message_types@.to_set().contains(t) <==> incoming_types(self.inferences, input).contains(t) by {
                if message_types@.to_set().contains(t) {
                    let v = choose|v: u64| visited@.contains(v) && #[trigger] types_from(evals, conns, v).contains(t);
                    let k = choose|k: int| 0 <= k < visited@.len() && visited@[k] == v;
                    assert(redirects_to(rin, input, visited@[k]));
                }
                if incoming_types(self.inferences, input).contains(t) {
                    let op = choose|op: u64| redirects_to(rin, input, op) && #[trigger] types_from(evals, conns, op).contains(t);
                    let p = choose|p: Seq<u64>| is_redirect_path(rin, p) && p[0] == input && #[trigger] p.last() == op;
                    lemma_closed_holds_reachable(rin, visited@, p, p.len() - 1);
                }
            }
            assert(message_types@.to_set() =~= incoming_types(self.inferences, input));
        }
        Ok(message_types)
    }
}

impl<'a> ConstraintContext<'a> {
    /// The message types that arrive at `input`, where something must
    /// connect into every operation on the way.
    pub(crate) fn get_message_types_into(&self, input: u64) -> (r: Result<Vec<usize>, InferenceError>)
        requires
            self.inferences.wf(),
        ensures
            types_into_ok(self.inferences, input, true) ==> (r matches Ok(v) && v@ == incoming_sorted(self.inferences, input)),
            !types_into_ok(self.inferences, input, true) ==> (r matches Err(e) && traversal_error(self.inferences, input, true, e@)),
    {
        let r = self.impl_get_message_types_into(input, true);
        proof {
            if let Ok(v) = &r {
                lemma_sorted_of(v@);
            }
        }
        r
    }

    /// The message types that arrive at `input`, where an operation may
    /// have nothing connected into it.
    pub(crate) fn try_get_message_types_into(&self, input: u64) -> (r: Result<Vec<usize>, InferenceError>)
        requires
            self.inferences.wf(),
        ensures
            types_into_ok(self.inferences, input, false) ==> (r matches Ok(v) && v@ == incoming_sorted(self.inferences, input)),
            !types_into_ok(self.inferences, input, false) ==> (r matches Err(e) && traversal_error(self.inferences, input, false, e@)),
    {
        let r = self.impl_get_message_types_into(input, false);
        proof {
            if let Ok(v) = &r {
                lemma_sorted_of(v@);
            }
        }
        r
    }
}

} // verus!

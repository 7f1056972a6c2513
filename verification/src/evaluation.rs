//! The constraints that decide the message type of a port from what is
//! known of its neighbours: what a clone, a result fork, an unzip, a buffer,
//! a buffer access and a split take in and give out.
//!
//! Each evaluation either settles on a message type (`Ok(Some(..))`), waits
//! for more to be known (`Ok(None)`), or fails. What it gives is stated by an
//! outcome function over the context's contents.

use vstd::prelude::*;
use crate::constraints::{
    eval_view, incoming_sorted, insert_sorted, lemma_sorted_of, list_at, sorted_of, strictly_sorted,
    traversal_error, types_into_ok, ConstraintContext, InferenceError, InferenceErrorView,
    Inferences, MessageOperations, MessageRegistrations,
};

verus! {

broadcast use vstd::std_specs::hash::group_hash_axioms;

/// An operation that a message type may support, checked across several
/// message types at once.
pub enum Capability {
    Serialize,
    Deserialize,
}

/// `ops` supports `cap`.
pub open spec fn capable(ops: MessageOperations, cap: Capability) -> bool {
    match cap {
        Capability::Serialize => ops.serialize,
        Capability::Deserialize => ops.deserialize,
    }
}

impl MessageRegistrations {
    /// The first of `s` that is past the end of the registry.
    pub open spec fn first_unknown_index(&self, s: Seq<usize>) -> Option<usize>
        decreases s.len(),
    {
        if s.len() == 0 {
            None
        } else if s[0] >= self.operations@.len() {
            Some(s[0])
        } else {
            self.first_unknown_index(s.drop_first())
        }
    }

    /// The registered types of `s`, each known by its index, or the error
    /// for the first that is past the end of the registry.
    pub open spec fn types_info(&self, s: Seq<usize>) -> Result<Seq<usize>, InferenceErrorView> {
        match self.first_unknown_index(s) {
            Some(index) => Err(InferenceErrorView::UnknownMessageTypeIndex { index, limit: self.operations@.len() as usize }),
            None => Ok(s),
        }
    }

    /// The error that `s` is ambiguous, or the error met while naming its
    /// types.
    pub open spec fn ambiguous(&self, s: Seq<usize>) -> Result<Option<usize>, InferenceErrorView> {
        match self.types_info(s) {
            Ok(v) => Err(InferenceErrorView::AmbiguousMessageType(v)),
            Err(e) => Err(e),
        }
    }

    /// The first of `s` without registered operations.
    pub open spec fn first_unregistered(&self, s: Seq<usize>) -> Option<usize>
        decreases s.len(),
    {
        if s.len() == 0 {
            None
        } else if !self.registered(s[0]) {
            Some(s[0])
        } else {
            self.first_unregistered(s.drop_first())
        }
    }

    /// Checking `s` in order for `cap`: the error of the first without
    /// registered operations, `false` at the first that lacks `cap`, `true`
    /// when every one has it.
    pub open spec fn scan_capable(&self, s: Seq<usize>, cap: Capability) -> Result<bool, InferenceErrorView>
        decreases s.len(),
    {
        if s.len() == 0 {
            Ok(true)
        } else if !self.registered(s[0]) {
            Err(self.operations_error(s[0]))
        } else if !capable(self.ops(s[0]), cap) {
            Ok(false)
        } else {
            self.scan_capable(s.drop_first(), cap)
        }
    }

    /// Every one of `s` can be converted into `target`.
    pub open spec fn all_convert_into(&self, s: Seq<usize>, target: usize) -> bool {
        forall|k: int| 0 <= k < s.len() ==> self.ops(#[trigger] s[k]).into_impls@.contains(target)
    }

    /// The registered result type for `ok` and `err`.
    pub open spec fn result_of(&self, ok: usize, err: usize) -> Option<usize> {
        if self.result_lookup@.contains_key(ok) && self.result_lookup@[ok]@.contains_key(err) {
            Some(self.result_lookup@[ok]@[err])
        } else {
            None
        }
    }
}

/// The first of `ports` that is not known.
pub open spec fn first_unknown_port(evals: Map<u64, Option<usize>>, ports: Seq<u64>) -> Option<u64>
    decreases ports.len(),
{
    if ports.len() == 0 {
        None
    } else if !evals.contains_key(ports[0]) {
        Some(ports[0])
    } else {
        first_unknown_port(evals, ports.drop_first())
    }
}

/// The message types determined so far for `ports`.
pub open spec fn port_types(evals: Map<u64, Option<usize>>, ports: Seq<u64>) -> Set<usize> {
    Set::new(|t: usize| exists|k: int| 0 <= k < ports.len() && evals.contains_key(ports[k]) && #[trigger] evals[ports[k]] == Some(t))
}

/// A single message type that all of `targets` accept: the one they share,
/// or JSON where they differ and all of them can be deserialized.
pub open spec fn same_output_outcome(inferences: &Inferences, registry: &MessageRegistrations, targets: Seq<u64>) -> Result<Option<usize>, InferenceErrorView> {
    let evals = inferences.evaluations@;
    match first_unknown_port(evals, targets) {
        Some(p) => Err(InferenceErrorView::UnknownPort(p)),
        None => {
            let s = sorted_of(port_types(evals, targets));
            if s.len() == 0 {
                Ok(None)
            } else if s.len() == 1 {
                Ok(Some(s[0]))
            } else {
                match registry.json_index {
                    None => Ok(None),
                    Some(json) => match registry.scan_capable(s, Capability::Deserialize) {
                        Err(e) => Err(e),
                        Ok(false) => Ok(None),
                        Ok(true) => Ok(Some(json)),
                    },
                }
            }
        },
    }
}

/// What a clone takes in: the one message type that arrives; where none
/// arrives, the type that its targets share; where several arrive, the
/// targets' shared type if every arriving type converts into it, else JSON
/// if every arriving type can be serialized. The type chosen must be
/// cloneable.
pub open spec fn clone_input_outcome(registry: &MessageRegistrations, incoming: Seq<usize>, same: Result<Option<usize>, InferenceErrorView>) -> Result<Option<usize>, InferenceErrorView> {
    let selected = if incoming.len() == 0 {
        same
    } else if incoming.len() == 1 {
        Ok(Some(incoming[0]))
    } else {
        match same {
            Err(e) => Err(e),
            Ok(Some(target)) => match registry.first_unregistered(incoming) {
                Some(t) => Err(registry.operations_error(t)),
                None => if registry.all_convert_into(incoming, target) {
                    Ok(Some(target))
                } else {
                    registry.ambiguous(incoming)
                },
            },
            Ok(None) => match registry.scan_capable(incoming, Capability::Serialize) {
                Err(e) => Err(e),
                Ok(false) => registry.ambiguous(incoming),
                Ok(true) => match registry.json_index {
                    None => registry.ambiguous(incoming),
                    Some(json) => Ok(Some(json)),
                },
            },
        }
    };
    match selected {
        Ok(Some(t)) => if !registry.registered(t) {
            Err(registry.operations_error(t))
        } else if !registry.ops(t).fork_clone {
            Err(InferenceErrorView::NotCloneable(t))
        } else {
            Ok(Some(t))
        },
        other => other,
    }
}

/// What a result fork takes in: the one message type that arrives; where
/// none arrives, the result type registered for what its ok and err
/// targets take. The type chosen must be a result that can be forked.
pub open spec fn result_input_outcome(inferences: &Inferences, registry: &MessageRegistrations, incoming: Seq<usize>, ok_target: u64, err_target: u64) -> Result<Option<usize>, InferenceErrorView> {
    let evals = inferences.evaluations@;
    let selected = if incoming.len() == 0 {
        if !evals.contains_key(ok_target) {
            Err(InferenceErrorView::UnknownPort(ok_target))
        } else {
            match evals[ok_target] {
                None => Ok(None),
                Some(ok) => if !evals.contains_key(err_target) {
                    Err(InferenceErrorView::UnknownPort(err_target))
                } else {
                    match evals[err_target] {
                        None => Ok(None),
                        Some(err) => Ok(registry.result_of(ok, err)),
                    }
                },
            }
        }
    } else if incoming.len() == 1 {
        Ok(Some(incoming[0]))
    } else {
        Ok(None)
    };
    match selected {
        Ok(Some(t)) => if !registry.registered(t) {
            Err(registry.operations_error(t))
        } else if registry.ops(t).fork_result is None {
            Err(InferenceErrorView::CannotForkResult(t))
        } else {
            Ok(Some(t))
        },
        other => other,
    }
}

/// What the ok (`index` 0) or err (`index` 1) branch of a result fork gives
/// out: that part of the result type that the fork takes in.
pub open spec fn result_output_outcome(inferences: &Inferences, registry: &MessageRegistrations, from: u64, index: int) -> Result<Option<usize>, InferenceErrorView> {
    let evals = inferences.evaluations@;
    if !evals.contains_key(from) {
        Err(InferenceErrorView::UnknownPort(from))
    } else {
        match evals[from] {
            None => Ok(None),
            Some(t) => if !registry.registered(t) {
                Err(registry.operations_error(t))
            } else {
                match registry.ops(t).fork_result {
                    None => Err(InferenceErrorView::CannotForkResult(t)),
                    Some(pair) => Ok(Some(pair@[index])),
                }
            },
        }
    }
}

/// What an unzip takes in: the one message type that arrives, which must
/// be unzippable.
pub open spec fn unzip_input_outcome(registry: &MessageRegistrations, incoming: Seq<usize>) -> Result<Option<usize>, InferenceErrorView> {
    if incoming.len() > 1 {
        registry.ambiguous(incoming)
    } else if incoming.len() == 0 {
        Ok(None)
    } else {
        let t = incoming[0];
        if !registry.registered(t) {
            Err(registry.operations_error(t))
        } else if registry.ops(t).unzip is None {
            Err(InferenceErrorView::NotUnzippable(t))
        } else {
            Ok(Some(t))
        }
    }
}

/// What element `element` of an unzip gives out.
pub open spec fn unzip_output_outcome(inferences: &Inferences, registry: &MessageRegistrations, input: u64, element: usize) -> Result<Option<usize>, InferenceErrorView> {
    let evals = inferences.evaluations@;
    if !evals.contains_key(input) {
        Err(InferenceErrorView::UnknownPort(input))
    } else {
        match evals[input] {
            None => Ok(None),
            Some(t) => if !registry.registered(t) {
                Err(registry.operations_error(t))
            } else {
                match registry.ops(t).unzip {
                    None => Err(InferenceErrorView::NotUnzippable(t)),
                    Some(v) => if element < v@.len() {
                        Ok(Some(v@[element as int]))
                    } else {
                        Err(InferenceErrorView::InvalidUnzip { message: t, element })
                    },
                }
            },
        }
    }
}

/// The first error among `hints`.
pub open spec fn first_error(hints: Seq<Result<Option<usize>, InferenceErrorView>>) -> Option<InferenceErrorView>
    decreases hints.len(),
{
    if hints.len() == 0 {
        None
    } else {
        match hints[0] {
            Err(e) => Some(e),
            Ok(_) => first_error(hints.drop_first()),
        }
    }
}

/// The message types that `hints` settled on.
pub open spec fn hint_types(hints: Seq<Result<Option<usize>, InferenceErrorView>>) -> Set<usize> {
    Set::new(|t: usize| exists|k: int| 0 <= k < hints.len() && #[trigger] hints[k] == Ok::<Option<usize>, InferenceErrorView>(Some(t)))
}

/// The evaluations of buffer hints, with their errors taken by view.
pub open spec fn hints_view(hints: Option<Vec<Result<Option<usize>, InferenceError>>>) -> Option<Seq<Result<Option<usize>, InferenceErrorView>>> {
    match hints {
        None => None,
        Some(v) => Some(v@.map_values(|r: Result<Option<usize>, InferenceError>| eval_view(r))),
    }
}

/// What a buffer holds: the one message type that arrives; where none
/// arrives, the one type that the hints of the operations using the buffer
/// settle on (the first failing hint fails it).
pub open spec fn buffer_input_outcome(registry: &MessageRegistrations, incoming: Seq<usize>, hints: Option<Seq<Result<Option<usize>, InferenceErrorView>>>) -> Result<Option<usize>, InferenceErrorView> {
    if incoming.len() == 0 {
        match hints {
            None => Ok(None),
            Some(h) => match first_error(h) {
                Some(e) => Err(e),
                None => {
                    let s = sorted_of(hint_types(h));
                    if s.len() == 0 {
                        Ok(None)
                    } else if s.len() == 1 {
                        Ok(Some(s[0]))
                    } else {
                        registry.ambiguous(s)
                    }
                },
            },
        }
    } else if incoming.len() == 1 {
        Ok(Some(incoming[0]))
    } else {
        registry.ambiguous(incoming)
    }
}

/// What a buffer access takes in: the request message of the type that its
/// target takes.
pub open spec fn buffer_access_input_outcome(inferences: &Inferences, registry: &MessageRegistrations, target: u64) -> Result<Option<usize>, InferenceErrorView> {
    let evals = inferences.evaluations@;
    if !evals.contains_key(target) {
        Err(InferenceErrorView::UnknownPort(target))
    } else {
        match evals[target] {
            None => Ok(None),
            Some(t) => if !registry.registered(t) {
                Err(registry.operations_error(t))
            } else {
                match registry.ops(t).buffer_access {
                    Some(request) => Ok(Some(request)),
                    None => Err(InferenceErrorView::CannotAccessBuffers(t)),
                }
            },
        }
    }
}

/// What a split takes in: the one message type that arrives if it can be
/// split, else JSON if it can be serialized; where several arrive, JSON if
/// every one of them can be serialized.
pub open spec fn split_input_outcome(registry: &MessageRegistrations, incoming: Seq<usize>) -> Result<Option<usize>, InferenceErrorView> {
    if incoming.len() == 0 {
        Ok(None)
    } else if incoming.len() == 1 {
        let t = incoming[0];
        if !registry.registered(t) {
            Err(registry.operations_error(t))
        } else if registry.ops(t).split is None && registry.ops(t).serialize {
            match registry.json_index {
                None => Err(InferenceErrorView::NotSplittable(t)),
                Some(json) => Ok(Some(json)),
            }
        } else if registry.ops(t).split is None {
            Err(InferenceErrorView::NotSplittable(t))
        } else {
            Ok(Some(t))
        }
    } else {
        match registry.json_index {
            None => registry.ambiguous(incoming),
            Some(json) => match registry.scan_capable(incoming, Capability::Serialize) {
                Err(e) => Err(e),
                Ok(false) => registry.ambiguous(incoming),
                Ok(true) => Ok(Some(json)),
            },
        }
    }
}

/// What a split gives out: the item type of the message it takes in.
pub open spec fn split_output_outcome(inferences: &Inferences, registry: &MessageRegistrations, operation: u64) -> Result<Option<usize>, InferenceErrorView> {
    let evals = inferences.evaluations@;
    if !evals.contains_key(operation) {
        Err(InferenceErrorView::UnknownPort(operation))
    } else {
        match evals[operation] {
            None => Ok(None),
            Some(t) => if !registry.registered(t) {
                Err(registry.operations_error(t))
            } else {
                match registry.ops(t).split {
                    None => Err(InferenceErrorView::NotSplittable(t)),
                    Some(item) => Ok(Some(item)),
                }
            },
        }
    }
}

proof fn lemma_skip_step<T>(s: Seq<T>, i: int)
    requires
        0 <= i < s.len(),
    ensures
        s.skip(i).len() > 0,
        s.skip(i)[0] == s[i],
        s.skip(i).drop_first() == s.skip(i + 1),
{
    assert(s.skip(i).drop_first() =~= s.skip(i + 1));
}

proof fn lemma_skip_end<T>(s: Seq<T>)
    ensures
        s.skip(s.len() as int).len() == 0,
        s.skip(0) == s,
{
    assert(s.skip(0) =~= s);
}

impl<'a> ConstraintContext<'a> {
    /// The registered types of `indices`, each known by its index; fails at
    /// the first index past the end of the registry.
    pub fn type_info_for_slice(&self, indices: &[usize]) -> (r: Result<Vec<usize>, InferenceError>)
        ensures
            self.registry.types_info(indices@) matches Ok(v) ==> (r matches Ok(w) && w@ == v),
            self.registry.types_info(indices@) matches Err(e) ==> (r matches Err(x) && x@ == e),
    {
        let mut info: Vec<usize> = Vec::new();
        let mut i: usize = 0;
        proof {
            lemma_skip_end(indices@);
        }
        while i < indices.len()
            invariant
                i <= indices.len(),
                self.registry.first_unknown_index(indices@) == self.registry.first_unknown_index(indices@.skip(i as int)),
                info@ == indices@.take(i as int),
            decreases indices.len() - i,
        {
            proof {
                lemma_skip_step(indices@, i as int);
            }
            match self.type_info_for(indices[i]) {
                Ok(t) => {
                    info.push(t);
                },
                Err(e) => {
                    return Err(e);
                },
            }
            i += 1;
            assert(info@ =~= indices@.take(i as int));
        }
        proof {
            lemma_skip_end(indices@);
            assert(info@ =~= indices@);
        }
        Ok(info)
    }

    /// The error that the message types `s` are ambiguous.
    fn ambiguous(&self, s: &Vec<usize>) -> (r: Result<Option<usize>, InferenceError>)
        ensures
            eval_view(r) == self.registry.ambiguous(s@),
    {
        match self.type_info_for_slice(s.as_slice()) {
            Ok(info) => Err(InferenceError::AmbiguousMessageType(info)),
            Err(e) => Err(e),
        }
    }

    /// Check `s` in order for `cap`, stopping at the first that lacks it.
    fn scan_capable(&self, s: &Vec<usize>, cap: Capability) -> (r: Result<bool, InferenceError>)
        ensures
            self.registry.scan_capable(s@, cap) matches Ok(b) ==> r == Ok::<bool, InferenceError>(b),
            self.registry.scan_capable(s@, cap) matches Err(e) ==> (r matches Err(x) && x@ == e),
    {
        let mut i: usize = 0;
        proof {
            lemma_skip_end(s@);
        }
        while i < s.len()
            invariant
                i <= s.len(),
                self.registry.scan_capable(s@, cap) == self.registry.scan_capable(s@.skip(i as int), cap),
            decreases s.len() - i,
        {
            proof {
                lemma_skip_step(s@, i as int);
            }
            let ops = self.operations_of(s[i]);
            match ops {
                Err(e) => {
                    return Err(e);
                },
                Ok(ops) => {
                    let supported = match cap {
                        Capability::Serialize => ops.serialize,
                        Capability::Deserialize => ops.deserialize,
                    };
                    if !supported {
                        return Ok(false);
                    }
                },
            }
            i += 1;
        }
        proof {
            lemma_skip_end(s@);
        }
        Ok(true)
    }

    /// Whether every one of `s` can be converted into `target`; fails at the
    /// first without registered operations.
    fn convert_all_into(&self, s: &Vec<usize>, target: usize) -> (r: Result<bool, InferenceError>)
        ensures
            self.registry.first_unregistered(s@) matches Some(t) ==> (r matches Err(x) && x@ == self.registry.operations_error(t)),
            self.registry.first_unregistered(s@) is None ==> r == Ok::<bool, InferenceError>(self.registry.all_convert_into(s@, target)),
    {
        let mut compatible = true;
        let mut i: usize = 0;
        proof {
            lemma_skip_end(s@);
        }
        while i < s.len()
            invariant
                i <= s.len(),
                self.registry.first_unregistered(s@) == self.registry.first_unregistered(s@.skip(i as int)),
                self.registry.first_unregistered(s@) is None ==> forall|k: int| 0 <= k < i ==> self.registry.registered(#[trigger] s@[k]),
                compatible == forall|k: int| 0 <= k < i ==> self.registry.ops(#[trigger] s@[k]).into_impls@.contains(target),
            decreases s.len() - i,
        {
            proof {
                lemma_skip_step(s@, i as int);
            }
            match self.operations_of(s[i]) {
                Err(e) => {
                    return Err(e);
                },
                Ok(ops) => {
                    let into = ops.into_impls.contains(&target);
                    compatible = compatible && into;
                },
            }
            i += 1;
        }
        proof {
            lemma_skip_end(s@);
        }
        Ok(compatible)
    }

    /// Find a single output type that is compatible with all the target
    /// inputs: the same message type sent to all of them, or JSON where they
    /// differ and every one of them can be deserialized. `None` where no
    /// such type is clear yet.
    pub fn same_output_type(&self, targets: &[u64]) -> (r: Result<Option<usize>, InferenceError>)
        ensures
            eval_view(r) == same_output_outcome(self.inferences, self.registry, targets@),
    {
        let ghost evals = self.inferences.evaluations@;
        let mut message_types: Vec<usize> = Vec::new();
        let mut i: usize = 0;
        proof {
            lemma_skip_end(targets@);
            assert(port_types(evals, targets@.take(0)) =~= Set::<usize>::empty());
            assert(message_types@.to_set() =~= Set::<usize>::empty());
        }
        while i < targets.len()
            invariant
                i <= targets.len(),
                evals == self.inferences.evaluations@,
                first_unknown_port(evals, targets@) == first_unknown_port(evals, targets@.skip(i as int)),
                strictly_sorted(message_types@),
                message_types@.to_set() == port_types(evals, targets@.take(i as int)),
            decreases targets.len() - i,
        {
            proof {
                lemma_skip_step(targets@, i as int);
            }
            let port = targets[i];
            let ghost before = message_types@;
            match self.get_inference_of(port) {
                Err(e) => {
                    return Err(e);
                },
                Ok(Some(t)) => {
                    insert_sorted(&mut message_types, t);
                },
                Ok(None) => {},
            }
            proof {
                let prev = targets@.take(i as int);
                let next = targets@.take(i + 1);
                assert forall|t: usize| #[trigger] port_types(evals, next).contains(t) <==> message_types@.to_set().contains(t) by {
                    if port_types(evals, next).contains(t) {
                        let k = choose|k: int| 0 <= k < next.len() && evals.contains_key(next[k]) && #[trigger] evals[next[k]] == Some(t);
                        if k < i {
                            assert(prev[k] == next[k]);
                            assert(port_types(evals, prev).contains(t));
                        }
                    }
                    if message_types@.to_set().contains(t) {
                        if before.to_set().contains(t) {
                            assert(port_types(evals, prev).contains(t));
                            let k = choose|k: int| 0 <= k < prev.len() && evals.contains_key(prev[k]) && #[trigger] evals[prev[k]] == Some(t);
                            assert(next[k] == prev[k]);
                        } else {
                            assert(next[i as int] == port);
                            assert(evals[next[i as int]] == Some(t));
                        }
                    }
                }
                assert(port_types(evals, next) =~= message_types@.to_set());
            }
            i += 1;
        }
        proof {
            lemma_skip_end(targets@);
            assert(targets@.take(targets@.len() as int) =~= targets@);
            lemma_sorted_of(message_types@);
        }
        if message_types.len() <= 1 {
            return Ok(message_types.pop());
        }
        match self.registry.json_index {
            None => Ok(None),
            Some(json) => match self.scan_capable(&message_types, Capability::Deserialize) {
                Err(e) => Err(e),
                Ok(false) => Ok(None),
                Ok(true) => Ok(Some(json)),
            },
        }
    }

    /// The message type that a clone of what arrives at `operation` takes
    /// in, sending it on to `targets`.
    pub fn evaluate_clone_input(&self, operation: u64, targets: &[u64]) -> (r: Result<Option<usize>, InferenceError>)
        requires
            self.inferences.wf(),
        ensures
            types_into_ok(self.inferences, operation, true) ==> eval_view(r) == clone_input_outcome(self.registry,
                incoming_sorted(self.inferences, operation), same_output_outcome(self.inferences, self.registry, targets@)),
            !types_into_ok(self.inferences, operation, true) ==> (r matches Err(e) && traversal_error(self.inferences, operation, true, e@)),
    {
        let incoming = match self.get_message_types_into(operation) {
            Ok(v) => v,
            Err(e) => {
                return Err(e);
            },
        };
        let selected = if incoming.len() == 0 {
            match self.same_output_type(targets) {
                Err(e) => {
                    return Err(e);
                },
                Ok(None) => {
                    return Ok(None);
                },
                Ok(Some(t)) => t,
            }
        } else if incoming.len() == 1 {
            incoming[0]
        } else {
            match self.same_output_type(targets) {
                Err(e) => {
                    return Err(e);
                },
                Ok(Some(target)) => {
                    match self.convert_all_into(&incoming, target) {
                        Err(e) => {
                            return Err(e);
                        },
                        Ok(false) => {
                            return self.ambiguous(&incoming);
                        },
                        Ok(true) => target,
                    }
                },
                Ok(None) => {
                    match self.scan_capable(&incoming, Capability::Serialize) {
                        Err(e) => {
                            return Err(e);
                        },
                        Ok(false) => {
                            return self.ambiguous(&incoming);
                        },
                        Ok(true) => match self.registry.json_index {
                            None => {
                                return self.ambiguous(&incoming);
                            },
                            Some(json) => json,
                        },
                    }
                },
            }
        };
        match self.operations_of(selected) {
            Err(e) => Err(e),
            Ok(ops) => if !ops.fork_clone {
                Err(InferenceError::NotCloneable(selected))
            } else {
                Ok(Some(selected))
            },
        }
    }

    /// The message type that a fork of the result arriving at `operation`
    /// takes in, with its branches going to `ok_target` and `err_target`.
    pub fn evaluate_result_input(&self, operation: u64, ok_target: u64, err_target: u64) -> (r: Result<Option<usize>, InferenceError>)
        requires
            self.inferences.wf(),
        ensures
            types_into_ok(self.inferences, operation, true) ==> eval_view(r) == result_input_outcome(self.inferences, self.registry,
                incoming_sorted(self.inferences, operation), ok_target, err_target),
            !types_into_ok(self.inferences, operation, true) ==> (r matches Err(e) && traversal_error(self.inferences, operation, true, e@)),
    {
        let incoming = match self.get_message_types_into(operation) {
            Ok(v) => v,
            Err(e) => {
                return Err(e);
            },
        };
        let selected = if incoming.len() == 0 {
            let ok = match self.get_inference_of(ok_target) {
                Err(e) => {
                    return Err(e);
                },
                Ok(None) => {
                    return Ok(None);
                },
                Ok(Some(t)) => t,
            };
            let err = match self.get_inference_of(err_target) {
                Err(e) => {
                    return Err(e);
                },
                Ok(None) => {
                    return Ok(None);
                },
                Ok(Some(t)) => t,
            };
            let result = match self.registry.result_lookup.get(&ok) {
                None => None,
                Some(by_err) => match by_err.get(&err) {
                    None => None,
                    Some(r) => Some(*r),
                },
            };
            match result {
                None => {
                    return Ok(None);
                },
                Some(r) => r,
            }
        } else if incoming.len() == 1 {
            incoming[0]
        } else {
            return Ok(None);
        };
        match self.operations_of(selected) {
            Err(e) => Err(e),
            Ok(ops) => if ops.fork_result.is_none() {
                Err(InferenceError::CannotForkResult(selected))
            } else {
                Ok(Some(selected))
            },
        }
    }

    /// What the ok branch of the result fork at `from_result` gives out.
    pub fn evaluate_ok_from(&self, from_result: u64) -> (r: Result<Option<usize>, InferenceError>)
        ensures
            eval_view(r) == result_output_outcome(self.inferences, self.registry, from_result, 0),
    {
        self.evaluate_result_output(from_result, 0)
    }

    /// What the err branch of the result fork at `from_result` gives out.
    pub fn evaluate_err_from(&self, from_result: u64) -> (r: Result<Option<usize>, InferenceError>)
        ensures
            eval_view(r) == result_output_outcome(self.inferences, self.registry, from_result, 1),
    {
        self.evaluate_result_output(from_result, 1)
    }

    fn evaluate_result_output(&self, from_result: u64, index: usize) -> (r: Result<Option<usize>, InferenceError>)
        requires
            index < 2,
        ensures
            eval_view(r) == result_output_outcome(self.inferences, self.registry, from_result, index as int),
    {
        let t = match self.get_inference_of(from_result) {
            Err(e) => {
                return Err(e);
            },
            Ok(None) => {
                return Ok(None);
            },
            Ok(Some(t)) => t,
        };
        match self.operations_of(t) {
            Err(e) => Err(e),
            Ok(ops) => match &ops.fork_result {
                None => Err(InferenceError::CannotForkResult(t)),
                Some(pair) => Ok(Some(pair[index])),
            },
        }
    }

    /// The message type that an unzip of what arrives at `operation` takes
    /// in.
    pub fn evaluate_unzip_input(&self, operation: u64) -> (r: Result<Option<usize>, InferenceError>)
        requires
            self.inferences.wf(),
        ensures
            types_into_ok(self.inferences, operation, true) ==> eval_view(r) == unzip_input_outcome(self.registry,
                incoming_sorted(self.inferences, operation)),
            !types_into_ok(self.inferences, operation, true) ==> (r matches Err(e) && traversal_error(self.inferences, operation, true, e@)),
    {
        let incoming = match self.get_message_types_into(operation) {
            Ok(v) => v,
            Err(e) => {
                return Err(e);
            },
        };
        if incoming.len() > 1 {
            return self.ambiguous(&incoming);
        }
        if incoming.len() == 0 {
            return Ok(None);
        }
        let t = incoming[0];
        match self.operations_of(t) {
            Err(e) => Err(e),
            Ok(ops) => if ops.unzip.is_none() {
                Err(InferenceError::NotUnzippable(t))
            } else {
                Ok(Some(t))
            },
        }
    }

    /// What element `element` of the unzip at `input` gives out.
    pub fn evaluate_unzip_output(&self, input: u64, element: usize) -> (r: Result<Option<usize>, InferenceError>)
        ensures
            eval_view(r) == unzip_output_outcome(self.inferences, self.registry, input, element),
    {
        let t = match self.get_inference_of(input) {
            Err(e) => {
                return Err(e);
            },
            Ok(None) => {
                return Ok(None);
            },
            Ok(Some(t)) => t,
        };
        match self.operations_of(t) {
            Err(e) => Err(e),
            Ok(ops) => match &ops.unzip {
                None => Err(InferenceError::NotUnzippable(t)),
                Some(elements) => if element < elements.len() {
                    Ok(Some(elements[element]))
                } else {
                    Err(InferenceError::InvalidUnzip { message: t, element })
                },
            },
        }
    }

    /// The message type that the buffer at `input` holds. `hints` are the
    /// evaluations of what the operations that use the buffer expect of it,
    /// in order, or `None` where nothing uses it.
    pub fn evaluate_buffer_input(&self, input: u64, hints: Option<Vec<Result<Option<usize>, InferenceError>>>) -> (r: Result<Option<usize>, InferenceError>)
        requires
            self.inferences.wf(),
        ensures
            types_into_ok(self.inferences, input, false) ==> eval_view(r) == buffer_input_outcome(self.registry,
                incoming_sorted(self.inferences, input), hints_view(hints)),
            !types_into_ok(self.inferences, input, false) ==> (r matches Err(e) && traversal_error(self.inferences, input, false, e@)),
    {
        let incoming = match self.try_get_message_types_into(input) {
            Ok(v) => v,
            Err(e) => {
                return Err(e);
            },
        };
        if incoming.len() == 1 {
            return Ok(Some(incoming[0]));
        }
        if incoming.len() > 1 {
            return self.ambiguous(&incoming);
        }
        let ghost hv = hints_view(hints);
        let given = match hints {
            None => {
                return Ok(None);
            },
            Some(h) => h,
        };
        let ghost h = hv->0;
        let mut settled: Vec<usize> = Vec::new();
        let mut rest = given;
        proof {
            assert(h.len() == rest@.len());
            assert(h.skip(0) =~= h);
            assert(hint_types(h.take(0)) =~= Set::<usize>::empty());
            assert(settled@.to_set() =~= Set::<usize>::empty());
        }
        let ghost mut i: int = 0;
        while rest.len() > 0
            invariant
                types_into_ok(self.inferences, input, false),
                incoming_sorted(self.inferences, input).len() == 0,
                hv == hints_view(hints),
                hv == Some(h),
                0 <= i <= h.len(),
                rest@.len() == h.len() - i,
                forall|k: int| 0 <= k < rest@.len() ==> eval_view(#[trigger] rest@[k]) == h[i + k],
                first_error(h) == first_error(h.skip(i)),
                strictly_sorted(settled@),
                settled@.to_set() == hint_types(h.take(i)),
            decreases rest@.len(),
        {
            proof {
                lemma_skip_step(h, i);
                assert(eval_view(rest@[0]) == h[i]);
            }
            let ghost before = settled@;
            let ghost before_rest = rest@;
            let hint = rest.remove(0);
            proof {
                assert forall|k: int| 0 <= k < rest@.len() implies eval_view(#[trigger] rest@[k]) == h[i + 1 + k] by {
                    assert(rest@[k] == before_rest[k + 1]);
                }
            }
            match hint {
                Err(e) => {
                    return Err(e);
                },
                Ok(Some(t)) => {
                    insert_sorted(&mut settled, t);
                },
                Ok(None) => {},
            }
            proof {
                let prev = h.take(i);
                let next = h.take(i + 1);
                assert forall|t: usize| #[trigger] hint_types(next).contains(t) <==> settled@.to_set().contains(t) by {
                    if hint_types(next).contains(t) {
                        let k = choose|k: int| 0 <= k < next.len() && #[trigger] next[k] == Ok::<Option<usize>, InferenceErrorView>(Some(t));
                        if k < i {
                            assert(prev[k] == next[k]);
                            assert(hint_types(prev).contains(t));
                        }
                    }
                    if settled@.to_set().contains(t) {
                        if before.to_set().contains(t) {
                            assert(hint_types(prev).contains(t));
                            let k = choose|k: int| 0 <= k < prev.len() && #[trigger] prev[k] == Ok::<Option<usize>, InferenceErrorView>(Some(t));
                            assert(next[k] == prev[k]);
                        } else {
                            assert(next[i] == h[i]);
                        }
                    }
                }
                assert(hint_types(next) =~= settled@.to_set());
                i = i + 1;
            }
        }
        proof {
            assert(h.take(h.len() as int) =~= h);
            assert(h.skip(h.len() as int).len() == 0);
            lemma_sorted_of(settled@);
        }
        if settled.len() <= 1 {
            if settled.len() == 0 {
                Ok(None)
            } else {
                Ok(Some(settled[0]))
            }
        } else {
            self.ambiguous(&settled)
        }
    }

    /// The message type that a buffer access takes in: the request message
    /// of what its `target` takes.
    pub fn evaluate_buffer_access_input(&self, target: u64) -> (r: Result<Option<usize>, InferenceError>)
        ensures
            eval_view(r) == buffer_access_input_outcome(self.inferences, self.registry, target),
    {
        let t = match self.get_inference_of(target) {
            Err(e) => {
                return Err(e);
            },
            Ok(None) => {
                return Ok(None);
            },
            Ok(Some(t)) => t,
        };
        match self.operations_of(t) {
            Err(e) => Err(e),
            Ok(ops) => match ops.buffer_access {
                Some(request) => Ok(Some(request)),
                None => Err(InferenceError::CannotAccessBuffers(t)),
            },
        }
    }

    /// The message type that a split of what arrives at `operation` takes
    /// in.
    pub fn evaluate_split_input(&self, operation: u64) -> (r: Result<Option<usize>, InferenceError>)
        requires
            self.inferences.wf(),
        ensures
            types_into_ok(self.inferences, operation, true) ==> eval_view(r) == split_input_outcome(self.registry,
                incoming_sorted(self.inferences, operation)),
            !types_into_ok(self.inferences, operation, true) ==> (r matches Err(e) && traversal_error(self.inferences, operation, true, e@)),
    {
        let incoming = match self.get_message_types_into(operation) {
            Ok(v) => v,
            Err(e) => {
                return Err(e);
            },
        };
        if incoming.len() <= 1 {
            if incoming.len() == 1 {
                let t = incoming[0];
                match self.operations_of(t) {
                    Err(e) => {
                        return Err(e);
                    },
                    Ok(ops) => {
                        if ops.split.is_none() && ops.serialize {
                            return match self.registry.json_index {
                                None => Err(InferenceError::NotSplittable(t)),
                                Some(json) => Ok(Some(json)),
                            };
                        } else if ops.split.is_none() {
                            return Err(InferenceError::NotSplittable(t));
                        }
                    },
                }
                return Ok(Some(t));
            }
            return Ok(None);
        }
        let json = match self.registry.json_index {
            None => {
                return self.ambiguous(&incoming);
            },
            Some(json) => json,
        };
        match self.scan_capable(&incoming, Capability::Serialize) {
            Err(e) => Err(e),
            Ok(false) => self.ambiguous(&incoming),
            Ok(true) => Ok(Some(json)),
        }
    }

    /// What the split at `operation` gives out: the item type of what it
    /// takes in.
    pub fn evaluate_split_output(&self, operation: u64) -> (r: Result<Option<usize>, InferenceError>)
        ensures
            eval_view(r) == split_output_outcome(self.inferences, self.registry, operation),
    {
        let t = match self.get_inference_of(operation) {
            Err(e) => {
                return Err(e);
            },
            Ok(None) => {
                return Ok(None);
            },
            Ok(Some(t)) => t,
        };
        match self.operations_of(t) {
            Err(e) => Err(e),
            Ok(ops) => match ops.split {
                None => Err(InferenceError::NotSplittable(t)),
                Some(item) => Ok(Some(item)),
            },
        }
    }
}


/// A constraint on the message type of one port, by the kind of operation
/// that puts it there. Ports and operations are known by their ids.
#[derive(Debug)]
pub enum Constraint {
    /// The port carries what `0` carries.
    ExactMatch(u64),
    /// The input of a clone whose copies go to `targets`.
    CloneInput { operation: u64, targets: Vec<u64> },
    /// The input of a result fork whose branches go to `ok` and `err`.
    ResultInto { operation: u64, ok: u64, err: u64 },
    /// The ok branch of the result fork at `0`.
    OkFrom(u64),
    /// The err branch of the result fork at `0`.
    ErrFrom(u64),
    /// The input of the unzip at `0`.
    UnzipInput(u64),
    /// Element `element` of the unzip at `op`.
    UnzipOutput { op: u64, element: usize },
    /// What the buffer at `0` holds.
    BufferInput(u64),
    /// The input of a buffer access whose output goes to `target`.
    BufferAccessInput { target: u64 },
    /// The input of the split at `0`.
    SplitInput(u64),
    /// An output of the split at `0`.
    SplitOutput(u64),
}

/// The ports whose message types a constraint reads: where any of them
/// changes, the constraint has to be evaluated again.
pub open spec fn dependencies_of(c: &Constraint, inferences: &Inferences) -> Seq<u64> {
    let conns = inferences.connections_into@;
    match c {
        Constraint::ExactMatch(p) => seq![*p],
        Constraint::CloneInput { operation, targets } => targets@ + list_at(conns, *operation),
        Constraint::ResultInto { operation, ok, err } => list_at(conns, *operation) + seq![*ok, *err],
        Constraint::OkFrom(op) => seq![*op],
        Constraint::ErrFrom(op) => seq![*op],
        Constraint::UnzipInput(op) => list_at(conns, *op),
        Constraint::UnzipOutput { op, element } => seq![*op],
        Constraint::BufferInput(buffer) => list_at(conns, *buffer) + list_at(inferences.buffer_hints@, *buffer),
        Constraint::BufferAccessInput { target } => seq![*target],
        Constraint::SplitInput(op) => list_at(conns, *op),
        Constraint::SplitOutput(op) => seq![*op],
    }
}

/// What the port carries that a constraint matches exactly.
pub open spec fn exact_match_outcome(inferences: &Inferences, port: u64) -> Result<Option<usize>, InferenceErrorView> {
    if inferences.evaluations@.contains_key(port) {
        Ok(inferences.evaluations@[port])
    } else {
        Err(InferenceErrorView::UnknownPort(port))
    }
}

/// The outcome of evaluating a constraint that does not gather the message
/// types arriving at an operation.
pub open spec fn direct_outcome(c: &Constraint, inferences: &Inferences, registry: &MessageRegistrations) -> Result<Option<usize>, InferenceErrorView> {
    match c {
        Constraint::ExactMatch(p) => exact_match_outcome(inferences, *p),
        Constraint::OkFrom(op) => result_output_outcome(inferences, registry, *op, 0),
        Constraint::ErrFrom(op) => result_output_outcome(inferences, registry, *op, 1),
        Constraint::UnzipOutput { op, element } => unzip_output_outcome(inferences, registry, *op, *element),
        Constraint::BufferAccessInput { target } => buffer_access_input_outcome(inferences, registry, *target),
        Constraint::SplitOutput(op) => split_output_outcome(inferences, registry, *op),
        _ => arbitrary(),
    }
}

/// The operation whose arriving message types a constraint gathers, and
/// whether something must connect into every operation on the way.
pub open spec fn gathers_from(c: &Constraint) -> Option<(u64, bool)> {
    match c {
        Constraint::CloneInput { operation, targets } => Some((*operation, true)),
        Constraint::ResultInto { operation, ok, err } => Some((*operation, true)),
        Constraint::UnzipInput(op) => Some((*op, true)),
        Constraint::BufferInput(buffer) => Some((*buffer, false)),
        Constraint::SplitInput(op) => Some((*op, true)),
        _ => None,
    }
}

/// The outcome of evaluating a constraint that gathers the message types
/// `incoming` arriving at an operation; `hints` serve a buffer.
pub open spec fn gathering_outcome(
    c: &Constraint,
    inferences: &Inferences,
    registry: &MessageRegistrations,
    incoming: Seq<usize>,
    hints: Option<Seq<Result<Option<usize>, InferenceErrorView>>>,
) -> Result<Option<usize>, InferenceErrorView> {
    match c {
        Constraint::CloneInput { operation, targets } => clone_input_outcome(registry, incoming,
            same_output_outcome(inferences, registry, targets@)),
        Constraint::ResultInto { operation, ok, err } => result_input_outcome(inferences, registry, incoming, *ok, *err),
        Constraint::UnzipInput(op) => unzip_input_outcome(registry, incoming),
        Constraint::BufferInput(buffer) => buffer_input_outcome(registry, incoming, hints),
        Constraint::SplitInput(op) => split_input_outcome(registry, incoming),
        _ => arbitrary(),
    }
}

/// `r` is what evaluating constraint `c` in `inferences` may give, where
/// `hints` serve a buffer: exactly the outcome of the constraint, or, where
/// the message types arriving at the operation it gathers from cannot be
/// gathered, an error that says why.
pub open spec fn evaluation_holds(
    c: &Constraint,
    inferences: &Inferences,
    registry: &MessageRegistrations,
    hints: Option<Seq<Result<Option<usize>, InferenceErrorView>>>,
    r: Result<Option<usize>, InferenceErrorView>,
) -> bool {
    match gathers_from(c) {
        None => r == direct_outcome(c, inferences, registry),
        Some((op, necessary)) => if types_into_ok(inferences, op, necessary) {
            r == gathering_outcome(c, inferences, registry, incoming_sorted(inferences, op), hints)
        } else {
            r matches Err(e) && traversal_error(inferences, op, necessary, e)
        },
    }
}

impl Constraint {
    /// The ports whose message types this constraint reads.
    pub fn dependencies(&self, context: &ConstraintContext) -> (r: Vec<u64>)
        ensures
            r@ == dependencies_of(self, context.inferences),
    {
        match self {
            Constraint::ExactMatch(p) => vec![*p],
            Constraint::CloneInput { operation, targets } => {
                let mut deps = targets.clone();
                let mut conns = context.connections_into(*operation);
                deps.append(&mut conns);
                deps
            },
            Constraint::ResultInto { operation, ok, err } => {
                let mut deps = context.connections_into(*operation);
                deps.push(*ok);
                deps.push(*err);
                proof {
                    assert(deps@ =~= list_at(context.inferences.connections_into@, *operation) + seq![*ok, *err]);
                }
                deps
            },
            Constraint::OkFrom(op) => vec![*op],
            Constraint::ErrFrom(op) => vec![*op],
            Constraint::UnzipInput(op) => context.connections_into(*op),
            Constraint::UnzipOutput { op, element } => vec![*op],
            Constraint::BufferInput(buffer) => {
                let mut deps = context.connections_into(*buffer);
                let mut users = match context.inferences.buffer_hints.get(buffer) {
                    Some(u) => u.clone(),
                    None => Vec::new(),
                };
                deps.append(&mut users);
                deps
            },
            Constraint::BufferAccessInput { target } => vec![*target],
            Constraint::SplitInput(op) => context.connections_into(*op),
            Constraint::SplitOutput(op) => vec![*op],
        }
    }

    /// Evaluate this constraint in `context`. `hints` are the evaluations of
    /// what the operations that use a buffer expect of it (see
    /// [`ConstraintContext::evaluate_buffer_input`]); other constraints
    /// ignore them.
    pub fn evaluate(&self, context: &ConstraintContext, hints: Option<Vec<Result<Option<usize>, InferenceError>>>) -> (r: Result<Option<usize>, InferenceError>)
        requires
            context.inferences.wf(),
        ensures
            gathers_from(self) is None ==> eval_view(r) == direct_outcome(self, context.inferences, context.registry),
            gathers_from(self) matches Some((op, necessary)) ==> {
                &&& types_into_ok(context.inferences, op, necessary) ==> eval_view(r) == gathering_outcome(self, context.inferences,
                        context.registry, incoming_sorted(context.inferences, op), hints_view(hints))
                &&& !types_into_ok(context.inferences, op, necessary) ==> (r matches Err(e) && traversal_error(context.inferences, op, necessary, e@))
            },
            evaluation_holds(self, context.inferences, context.registry, hints_view(hints), eval_view(r)),
    {
        match self {
            Constraint::ExactMatch(p) => context.get_inference_of(*p),
            Constraint::CloneInput { operation, targets } => context.evaluate_clone_input(*operation, targets.as_slice()),
            Constraint::ResultInto { operation, ok, err } => context.evaluate_result_input(*operation, *ok, *err),
            Constraint::OkFrom(op) => context.evaluate_ok_from(*op),
            Constraint::ErrFrom(op) => context.evaluate_err_from(*op),
            Constraint::UnzipInput(op) => context.evaluate_unzip_input(*op),
            Constraint::UnzipOutput { op, element } => context.evaluate_unzip_output(*op, *element),
            Constraint::BufferInput(buffer) => context.evaluate_buffer_input(*buffer, hints),
            Constraint::BufferAccessInput { target } => context.evaluate_buffer_access_input(*target),
            Constraint::SplitInput(op) => context.evaluate_split_input(*op),
            Constraint::SplitOutput(op) => context.evaluate_split_output(*op),
        }
    }
}

} // verus!

//! Laws of message type inference: what the evaluations of a clone, a
//! result fork and a split settle on, stated over the registry's operations
//! of the message types involved, and which operations a message type
//! supports towards script messages.

use vstd::prelude::*;
use crate::constraints::{
    sorted_of, strictly_sorted, InferenceErrorView, Inferences, MessageOperations, MessageRegistrations,
};
use crate::evaluation::{
    capable, clone_input_outcome, first_unknown_port, port_types, result_input_outcome, same_output_outcome,
    split_input_outcome, Capability,
};
use crate::message_operations::{from_script_supported, into_script_supported};

verus! {

/// Where every port is known, no port is the first unknown one.
proof fn lemma_no_unknown_port(evals: Map<u64, Option<usize>>, ports: Seq<u64>)
    requires
        forall|k: int| 0 <= k < ports.len() ==> evals.contains_key(#[trigger] ports[k]),
    ensures
        first_unknown_port(evals, ports) is None,
    decreases ports.len(),
{
    if ports.len() > 0 {
        assert(evals.contains_key(ports[0]));
        let rest = ports.drop_first();
        assert forall|k: int| 0 <= k < rest.len() implies evals.contains_key(#[trigger] rest[k]) by {
            assert(rest[k] == ports[k + 1]);
        }
        lemma_no_unknown_port(evals, rest);
    }
}

/// The message types determined for finitely many ports are finitely many.
proof fn lemma_port_types_finite(evals: Map<u64, Option<usize>>, ports: Seq<u64>)
    ensures
        port_types(evals, ports).finite(),
{
    let f = |p: u64| match evals[p] {
        Some(t) => t,
        None => 0usize,
    };
    let all = ports.map_values(f).to_set();
    vstd::seq_lib::seq_to_set_is_finite(ports.map_values(f));
    assert(port_types(evals, ports).subset_of(all)) by {
        assert forall|t: usize| port_types(evals, ports).contains(t) implies all.contains(t) by {
            let k = choose|k: int| 0 <= k < ports.len() && evals.contains_key(ports[k]) && #[trigger] evals[ports[k]] == Some(t);
            assert(ports.map_values(f)[k] == t);
        }
    }
    vstd::set_lib::lemma_set_subset_finite(all, port_types(evals, ports));
}

/// A finite non-empty set of message types has a greatest member.
proof fn lemma_greatest(s: Set<usize>) -> (m: usize)
    requires
        s.finite(),
        s.len() > 0,
    ensures
        s.contains(m),
        forall|y: usize| #[trigger] s.contains(y) ==> y <= m,
    decreases s.len(),
{
    let x = s.choose();
    let rest = s.remove(x);
    if rest.len() == 0 {
        assert forall|y: usize| #[trigger] s.contains(y) implies y <= x by {
            if y != x {
                assert(rest.contains(y));
            }
        }
        x
    } else {
        let m = lemma_greatest(rest);
        if x > m {
            assert forall|y: usize| #[trigger] s.contains(y) implies y <= x by {
                if y != x {
                    assert(rest.contains(y));
                }
            }
            x
        } else {
            assert forall|y: usize| #[trigger] s.contains(y) implies y <= m by {
                if y != x {
                    assert(rest.contains(y));
                }
            }
            m
        }
    }
}

/// A finite set of message types has a strictly increasing listing, and
/// `sorted_of` gives it.
pub proof fn lemma_sorted_exists(s: Set<usize>)
    requires
        s.finite(),
    ensures
        strictly_sorted(sorted_of(s)),
        sorted_of(s).to_set() == s,
    decreases s.len(),
{
    if s.len() == 0 {
        let v = Seq::<usize>::empty();
        assert(v.to_set() =~= s) by {
            assert forall|x: usize| !s.contains(x) by {
                if s.contains(x) {
                    assert(s.len() > 0);
                }
            }
        }
        assert(strictly_sorted(v) && v.to_set() == s);
    } else {
        let m = lemma_greatest(s);
        let rest = s.remove(m);
        lemma_sorted_exists(rest);
        let v0 = sorted_of(rest);
        let v = v0.push(m);
        assert forall|i: int| 0 <= i < v0.len() implies v0[i] < m by {
            assert(v0.to_set().contains(v0[i]));
            assert(rest.contains(v0[i]));
        }
        assert(strictly_sorted(v)) by {
            assert forall|i: int, j: int| 0 <= i < j < v.len() implies v[i] < v[j] by {
                if j == v0.len() {
                    assert(v[i] == v0[i]);
                } else {
                    assert(v[i] == v0[i] && v[j] == v0[j]);
                }
            }
        }
        assert(v.to_set() =~= s) by {
            assert forall|x: usize| v.to_set().contains(x) <==> s.contains(x) by {
                if v.to_set().contains(x) {
                    let k = choose|k: int| 0 <= k < v.len() && v[k] == x;
                    if k < v0.len() {
                        assert(v0[k] == x);
                        assert(v0.to_set().contains(x));
                    }
                }
                if s.contains(x) {
                    if x == m {
                        assert(v[v0.len() as int] == m);
                    } else {
                        assert(rest.contains(x));
                        assert(v0.to_set().contains(x));
                        let k = choose|k: int| 0 <= k < v0.len() && v0[k] == x;
                        assert(v[k] == x);
                    }
                }
            }
        }
        assert(strictly_sorted(v) && v.to_set() == s);
    }
}

/// Checking message types in order for a capability: a `true` answer means
/// each is registered and capable; where each is registered, the answer is
/// `true` exactly when each is capable, and `false` otherwise.
proof fn lemma_scan_capable(registry: &MessageRegistrations, s: Seq<usize>, cap: Capability)
    ensures
        registry.scan_capable(s, cap) == Ok::<bool, InferenceErrorView>(true) ==> forall|k: int| 0 <= k < s.len()
            ==> registry.registered(#[trigger] s[k]) && capable(registry.ops(s[k]), cap),
        (forall|k: int| 0 <= k < s.len() ==> registry.registered(#[trigger] s[k])) ==> (registry.scan_capable(s, cap) is Ok
            && (registry.scan_capable(s, cap) == Ok::<bool, InferenceErrorView>(true)
                <==> forall|k: int| 0 <= k < s.len() ==> capable(registry.ops(#[trigger] s[k]), cap))),
    decreases s.len(),
{
    if s.len() > 0 {
        let rest = s.drop_first();
        lemma_scan_capable(registry, rest, cap);
        assert forall|k: int| 0 < k < s.len() implies #[trigger] s[k] == rest[k - 1] by {}
        if (forall|k: int| 0 <= k < s.len() ==> registry.registered(#[trigger] s[k])) {
            assert forall|k: int| 0 <= k < rest.len() implies registry.registered(#[trigger] rest[k]) by {
                assert(rest[k] == s[k + 1]);
            }
            assert(registry.registered(s[0]));
            if forall|k: int| 0 <= k < s.len() ==> capable(registry.ops(#[trigger] s[k]), cap) {
                assert forall|k: int| 0 <= k < rest.len() implies capable(registry.ops(#[trigger] rest[k]), cap) by {
                    assert(rest[k] == s[k + 1]);
                }
                assert(capable(registry.ops(s[0]), cap));
            }
        }
        if registry.scan_capable(s, cap) == Ok::<bool, InferenceErrorView>(true) {
            assert forall|k: int| 0 <= k < s.len() implies registry.registered(#[trigger] s[k]) && capable(registry.ops(s[k]), cap) by {
                if k > 0 {
                    assert(s[k] == rest[k - 1]);
                }
            }
        }
    }
}

/// Message types that are all within the registry name no unknown index.
proof fn lemma_types_known(registry: &MessageRegistrations, s: Seq<usize>)
    requires
        forall|k: int| 0 <= k < s.len() ==> #[trigger] s[k] < registry.operations@.len(),
    ensures
        registry.first_unknown_index(s) is None,
        registry.ambiguous(s) == Err::<Option<usize>, InferenceErrorView>(InferenceErrorView::AmbiguousMessageType(s)),
    decreases s.len(),
{
    if s.len() > 0 {
        let rest = s.drop_first();
        assert(s[0] < registry.operations@.len());
        assert forall|k: int| 0 <= k < rest.len() implies #[trigger] rest[k] < registry.operations@.len() by {
            assert(rest[k] == s[k + 1]);
        }
        lemma_types_known(registry, rest);
    }
}

/// Registered message types have no unregistered one among them.
proof fn lemma_all_registered(registry: &MessageRegistrations, s: Seq<usize>)
    requires
        forall|k: int| 0 <= k < s.len() ==> registry.registered(#[trigger] s[k]),
    ensures
        registry.first_unregistered(s) is None,
    decreases s.len(),
{
    if s.len() > 0 {
        let rest = s.drop_first();
        assert(registry.registered(s[0]));
        assert forall|k: int| 0 <= k < rest.len() implies registry.registered(#[trigger] rest[k]) by {
            assert(rest[k] == s[k + 1]);
        }
        lemma_all_registered(registry, rest);
    }
}

/// The type that the targets of a clone share, when they take more than
/// one type: JSON, only where JSON is registered and every one of those
/// types can be deserialized; and no type at all where each is registered
/// but some cannot be deserialized. Targets that all take one type share it.
pub proof fn law_shared_output_type(inferences: &Inferences, registry: &MessageRegistrations, targets: Seq<u64>)
    requires
        forall|k: int| 0 <= k < targets.len() ==> inferences.evaluations@.contains_key(#[trigger] targets[k]),
    ensures
        ({
            let types = port_types(inferences.evaluations@, targets);
            let shared = same_output_outcome(inferences, registry, targets);
            &&& (exists|a: usize, b: usize| types.contains(a) && types.contains(b) && a != b) ==> {
                &&& shared matches Ok(Some(j)) ==> registry.json_index == Some(j)
                    && forall|t: usize| #[trigger] types.contains(t) ==> registry.registered(t) && registry.ops(t).deserialize
                &&& (forall|t: usize| #[trigger] types.contains(t) ==> registry.registered(t))
                    && (exists|t: usize| types.contains(t) && !registry.ops(t).deserialize)
                    ==> shared == Ok::<Option<usize>, InferenceErrorView>(None)
                &&& (forall|t: usize| #[trigger] types.contains(t) ==> registry.registered(t) && registry.ops(t).deserialize)
                    ==> shared == Ok::<Option<usize>, InferenceErrorView>(registry.json_index)
            }
            &&& (forall|t: usize| #[trigger] types.contains(t) ==> t == types.choose()) && types.len() > 0
                ==> shared == Ok::<Option<usize>, InferenceErrorView>(Some(types.choose()))
            &&& types.len() == 0 ==> shared == Ok::<Option<usize>, InferenceErrorView>(None)
        }),
{
    let evals = inferences.evaluations@;
    let types = port_types(evals, targets);
    let shared = same_output_outcome(inferences, registry, targets);
    lemma_no_unknown_port(evals, targets);
    lemma_port_types_finite(evals, targets);
    lemma_sorted_exists(types);
    let s = sorted_of(types);
    assert forall|t: usize| #[trigger] types.contains(t) <==> s.contains(t) by {
        assert(s.to_set().contains(t) == s.contains(t));
    }
    assert forall|k: int| 0 <= k < s.len() implies types.contains(#[trigger] s[k]) by {
        assert(s.contains(s[k]));
    }
    lemma_scan_capable(registry, s, Capability::Deserialize);
    if exists|a: usize, b: usize| types.contains(a) && types.contains(b) && a != b {
        let (a, b) = choose|a: usize, b: usize| types.contains(a) && types.contains(b) && a != b;
        assert(s.contains(a) && s.contains(b));
        assert(s.len() >= 2) by {
            let i = choose|i: int| 0 <= i < s.len() && s[i] == a;
            let j = choose|j: int| 0 <= j < s.len() && s[j] == b;
            assert(i != j);
        }
        let scan = registry.scan_capable(s, Capability::Deserialize);
        assert(shared == match registry.json_index {
            None => Ok(None),
            Some(json) => match scan {
                Err(e) => Err(e),
                Ok(false) => Ok(None),
                Ok(true) => Ok(Some(json)),
            },
        });
        if shared is Ok && shared->Ok_0 is Some {
            assert(scan == Ok::<bool, InferenceErrorView>(true));
            assert forall|t: usize| #[trigger] types.contains(t) implies registry.registered(t) && registry.ops(t).deserialize by {
                let k = choose|k: int| 0 <= k < s.len() && s[k] == t;
                assert(registry.registered(s[k]) && capable(registry.ops(s[k]), Capability::Deserialize));
            }
        }
        if forall|t: usize| #[trigger] types.contains(t) ==> registry.registered(t) {
            assert forall|k: int| 0 <= k < s.len() implies registry.registered(#[trigger] s[k]) by {
                assert(types.contains(s[k]));
            }
            assert(scan is Ok);
            if exists|t: usize| types.contains(t) && !registry.ops(t).deserialize {
                let t = choose|t: usize| types.contains(t) && !registry.ops(t).deserialize;
                let k = choose|k: int| 0 <= k < s.len() && s[k] == t;
                assert(!capable(registry.ops(s[k]), Capability::Deserialize));
                assert(!(forall|k2: int| 0 <= k2 < s.len() ==> capable(registry.ops(#[trigger] s[k2]), Capability::Deserialize)));
                assert(scan != Ok::<bool, InferenceErrorView>(true));
                assert(scan is Ok);
                assert(!scan->Ok_0);
                assert(shared == Ok::<Option<usize>, InferenceErrorView>(None));
            }
            if forall|t: usize| #[trigger] types.contains(t) ==> registry.registered(t) && registry.ops(t).deserialize {
                assert forall|k: int| 0 <= k < s.len() implies capable(registry.ops(#[trigger] s[k]), Capability::Deserialize) by {
                    assert(types.contains(s[k]));
                }
                assert(scan == Ok::<bool, InferenceErrorView>(true));
                assert(shared == Ok::<Option<usize>, InferenceErrorView>(registry.json_index));
            }
        }
    }
    if types.len() > 0 {
        let c = types.choose();
        assert(types.contains(c));
        assert(s.contains(c));
        if forall|t: usize| #[trigger] types.contains(t) ==> t == c {
            assert(s.len() == 1) by {
                if s.len() >= 2 {
                    assert(types.contains(s[0]) && types.contains(s[1]));
                    assert(s[0] < s[1]);
                }
            }
            assert(types.contains(s[0]));
            assert(shared == Ok::<Option<usize>, InferenceErrorView>(Some(c)));
        }
    }
    if types.len() == 0 {
        if s.len() > 0 {
            assert(types.contains(s[0]));
            assert(types.remove(s[0]).len() + 1 == types.len());
        }
        assert(shared == Ok::<Option<usize>, InferenceErrorView>(None));
    }
}

/// Where several message types arrive at a clone and its targets share a
/// type, the clone takes that type only if every arriving type converts
/// into it; where some registered arriving type does not, the evaluation
/// reports the arriving types as ambiguous.
pub proof fn law_clone_converts_all_incoming(registry: &MessageRegistrations, incoming: Seq<usize>, target: usize)
    requires
        incoming.len() > 1,
    ensures
        clone_input_outcome(registry, incoming, Ok(Some(target))) matches Ok(Some(t)) ==> t == target
            && forall|k: int| 0 <= k < incoming.len() ==> registry.ops(#[trigger] incoming[k]).into_impls@.contains(target),
        (forall|k: int| 0 <= k < incoming.len() ==> registry.registered(#[trigger] incoming[k]))
            && (exists|k: int| 0 <= k < incoming.len() && !registry.ops(#[trigger] incoming[k]).into_impls@.contains(target))
            ==> clone_input_outcome(registry, incoming, Ok(Some(target)))
                == Err::<Option<usize>, InferenceErrorView>(InferenceErrorView::AmbiguousMessageType(incoming)),
        (forall|k: int| 0 <= k < incoming.len() ==> registry.registered(#[trigger] incoming[k])
            && registry.ops(incoming[k]).into_impls@.contains(target))
            && registry.registered(target) && registry.ops(target).fork_clone
            ==> clone_input_outcome(registry, incoming, Ok(Some(target))) == Ok::<Option<usize>, InferenceErrorView>(Some(target)),
{
    if forall|k: int| 0 <= k < incoming.len() ==> registry.registered(#[trigger] incoming[k]) {
        lemma_all_registered(registry, incoming);
        assert forall|k: int| 0 <= k < incoming.len() implies #[trigger] incoming[k] < registry.operations@.len() by {
            assert(registry.registered(incoming[k]));
        }
        lemma_types_known(registry, incoming);
    }
}

/// What a clone takes in otherwise: the one arriving type, where it can be
/// cloned; and, where several arrive and the targets share no type, JSON
/// only where every arriving type can be serialized.
pub proof fn law_clone_single_or_json(registry: &MessageRegistrations, incoming: Seq<usize>)
    ensures
        incoming.len() == 1 && registry.registered(incoming[0]) && registry.ops(incoming[0]).fork_clone
            ==> clone_input_outcome(registry, incoming, Ok(None)) == Ok::<Option<usize>, InferenceErrorView>(Some(incoming[0])),
        incoming.len() > 1 ==> (clone_input_outcome(registry, incoming, Ok(None)) matches Ok(Some(t)) ==> registry.json_index == Some(t)
            && forall|k: int| 0 <= k < incoming.len() ==> registry.registered(#[trigger] incoming[k]) && registry.ops(incoming[k]).serialize),
{
    lemma_scan_capable(registry, incoming, Capability::Serialize);
    if incoming.len() > 1 {
        if clone_input_outcome(registry, incoming, Ok(None)) is Ok && clone_input_outcome(registry, incoming, Ok(None))->Ok_0 is Some {
            assert(registry.scan_capable(incoming, Capability::Serialize) == Ok::<bool, InferenceErrorView>(true));
            assert forall|k: int| 0 <= k < incoming.len() implies registry.registered(#[trigger] incoming[k]) && registry.ops(incoming[k]).serialize by {
                assert(capable(registry.ops(incoming[k]), Capability::Serialize));
            }
        }
    }
}

/// Where several message types arrive at a split, it takes JSON, and only
/// where every one of them can be serialized.
pub proof fn law_split_several_incoming(registry: &MessageRegistrations, incoming: Seq<usize>)
    requires
        incoming.len() > 1,
    ensures
        split_input_outcome(registry, incoming) matches Ok(Some(t)) ==> registry.json_index == Some(t)
            && forall|k: int| 0 <= k < incoming.len() ==> registry.registered(#[trigger] incoming[k]) && registry.ops(incoming[k]).serialize,
        split_input_outcome(registry, incoming) is Ok && split_input_outcome(registry, incoming)->Ok_0 is None ==> false,
{
    lemma_scan_capable(registry, incoming, Capability::Serialize);
    if split_input_outcome(registry, incoming) is Ok && split_input_outcome(registry, incoming)->Ok_0 is Some {
        assert(registry.scan_capable(incoming, Capability::Serialize) == Ok::<bool, InferenceErrorView>(true));
        assert forall|k: int| 0 <= k < incoming.len() implies registry.registered(#[trigger] incoming[k]) && registry.ops(incoming[k]).serialize by {
            assert(capable(registry.ops(incoming[k]), Capability::Serialize));
        }
    }
}

/// Where more than one message type arrives at a result fork, its input
/// type cannot be concluded; where exactly one arrives and it is a
/// registered result that can be forked, the fork takes it.
pub proof fn law_result_input_needs_one_incoming(inferences: &Inferences, registry: &MessageRegistrations,
    incoming: Seq<usize>, ok: u64, err: u64)
    ensures
        (exists|i: int, j: int| 0 <= i < incoming.len() && 0 <= j < incoming.len() && incoming[i] != incoming[j])
            ==> result_input_outcome(inferences, registry, incoming, ok, err) == Ok::<Option<usize>, InferenceErrorView>(None),
        incoming.len() == 1 && registry.registered(incoming[0]) && registry.ops(incoming[0]).fork_result is Some
            ==> result_input_outcome(inferences, registry, incoming, ok, err) == Ok::<Option<usize>, InferenceErrorView>(Some(incoming[0])),
{
}

/// A single arriving message type that can be split is split as itself;
/// JSON is taken only for a single arriving type that cannot be split but
/// can be serialized.
pub proof fn law_split_takes_splittable_type(registry: &MessageRegistrations, incoming: Seq<usize>)
    requires
        incoming.len() == 1,
    ensures
        registry.registered(incoming[0]) && registry.ops(incoming[0]).split is Some
            ==> split_input_outcome(registry, incoming) == Ok::<Option<usize>, InferenceErrorView>(Some(incoming[0])),
        split_input_outcome(registry, incoming) matches Ok(Some(t)) ==> (t != incoming[0] ==> registry.registered(incoming[0])
            && registry.ops(incoming[0]).split is None && registry.ops(incoming[0]).serialize && registry.json_index == Some(t)),
{
}

/// A message type that can be serialized can be turned into a script
/// message, and one that can be deserialized can be made from one; so can
/// a message made of buffer keys that listen.
pub proof fn law_script_messages(ops: MessageOperations, registrations: &MessageRegistrations, script_index: Option<usize>)
    ensures
        ops.serialize ==> into_script_supported(ops, registrations, script_index),
        ops.deserialize ==> from_script_supported(ops, registrations, script_index),
        ops.listen ==> into_script_supported(ops, registrations, script_index)
            && from_script_supported(ops, registrations, script_index),
        script_index matches Some(s) && ops.into_impls@.contains(s) ==> into_script_supported(ops, registrations, script_index),
        script_index matches Some(s) && ops.from_impls@.contains(s) ==> from_script_supported(ops, registrations, script_index),
{
}

} // verus!

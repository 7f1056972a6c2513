//! One step of message type inference: take the port at the front of the
//! queue, evaluate its constraint against what is known so far, record a new
//! message type and queue again the ports that depend on it.
//!
//! The message types known so far live twice: in the inference state, which
//! also holds the queue, and in the evaluations that constraints read. The
//! two are kept in step (see [`synced`]).

use vstd::prelude::*;
use crate::constraints::{eval_view, ConstraintContext, InferenceError, InferenceErrorView, Inferences, MessageRegistrations};
use crate::evaluation::{evaluation_holds, hints_view, Constraint};
use crate::inference::{enqueue_all, Dependents, InferenceState};

verus! {

broadcast use vstd::std_specs::hash::group_hash_axioms;

/// The message type that `state` holds for `port`, if any.
pub open spec fn type_of(state: &InferenceState, port: u64) -> Option<usize> {
    if state.types().contains_key(port) {
        Some(state.types()[port])
    } else {
        None
    }
}

/// The evaluations that constraints read agree with the message types of the
/// inference state, port by port.
pub open spec fn synced(state: &InferenceState, inferences: &Inferences) -> bool {
    forall|p: u64| #[trigger] inferences.evaluations@.contains_key(p) ==> inferences.evaluations@[p] == type_of(state, p)
}

/// `r` is what evaluating `port` may give: an unknown port fails, a port
/// without a constraint settles nothing, and a constrained port gives what
/// its constraint gives.
pub open spec fn port_evaluation_holds(
    inferences: &Inferences,
    registry: &MessageRegistrations,
    port: u64,
    hints: Option<Seq<Result<Option<usize>, InferenceErrorView>>>,
    r: Result<Option<usize>, InferenceErrorView>,
) -> bool {
    if !inferences.evaluations@.contains_key(port) {
        r == Err::<Option<usize>, InferenceErrorView>(InferenceErrorView::UnknownPort(port))
    } else if !inferences.constraints@.contains_key(port) {
        r == Ok::<Option<usize>, InferenceErrorView>(None)
    } else {
        evaluation_holds(&inferences.constraints@[port], inferences, registry, hints, r)
    }
}

/// An evaluation `evaluated` of `port` brings news: a message type that
/// differs from the one known so far.
pub open spec fn changes(state: &InferenceState, port: u64, evaluated: Option<usize>) -> bool {
    evaluated matches Some(t) && type_of(state, port) != Some(t)
}

impl InferenceState {
    /// Every port of `ports` waits to be evaluated once, and each known
    /// message type of `inferences` is taken as the port's type.
    pub fn start(ports: &Vec<u64>, inferences: &Inferences) -> (s: Self)
        requires
            ports@.no_duplicates(),
        ensures
            s.wf(),
            s.queued() == ports@,
            forall|p: u64| #[trigger] s.types().contains_key(p) ==> ports@.contains(p),
            forall|p: u64| ports@.contains(p) && #[trigger] inferences.evaluations@.contains_key(p)
                ==> type_of(&s, p) == inferences.evaluations@[p],
            forall|p: u64| ports@.contains(p) && !#[trigger] inferences.evaluations@.contains_key(p)
                ==> type_of(&s, p) is None,
            (forall|p: u64| #[trigger] inferences.evaluations@.contains_key(p) ==> ports@.contains(p))
                ==> synced(&s, inferences),
    {
        let mut s = InferenceState::new(ports);
        let mut i: usize = 0;
        while i < ports.len()
            invariant
                i <= ports.len(),
                ports@.no_duplicates(),
                s.wf(),
                s.queued() == ports@,
                forall|p: u64| #[trigger] s.types().contains_key(p) ==> ports@.take(i as int).contains(p),
                forall|p: u64| ports@.take(i as int).contains(p) && #[trigger] inferences.evaluations@.contains_key(p)
                    ==> type_of(&s, p) == inferences.evaluations@[p],
                forall|p: u64| ports@.take(i as int).contains(p) && !#[trigger] inferences.evaluations@.contains_key(p)
                    ==> type_of(&s, p) is None,
            decreases ports.len() - i,
        {
            let port = ports[i];
            assert(ports@.take(i + 1) =~= ports@.take(i as int).push(port));
            assert(ports@.take(i + 1)[i as int] == port);
            assert forall|p: u64| ports@.take(i as int).contains(p) implies ports@.take(i + 1).contains(p) by {
                let k = choose|k: int| 0 <= k < i && ports@.take(i as int)[k] == p;
                assert(ports@.take(i + 1)[k] == p);
            }
            assert(!ports@.take(i as int).contains(port)) by {
                if ports@.take(i as int).contains(port) {
                    let k = choose|k: int| 0 <= k < i && ports@.take(i as int)[k] == port;
                    assert(ports@[k] == ports@[i as int]);
                }
            }
            match inferences.evaluations.get(&port) {
                Some(Some(t)) => {
                    s.fixed(port, *t);
                },
                _ => {},
            }
            i += 1;
        }
        assert(ports@.take(ports@.len() as int) =~= ports@);
        s
    }
}

/// Evaluate the port at the front of the queue of `state`. Returns
/// `Ok(false)` where nothing waits, and `Ok(true)` once a port was evaluated:
/// its constraint, if it has one, is evaluated against `inferences`, with
/// `hints` the evaluations of the buffer hints where that constraint is on
/// a buffer; a new message type is recorded in both `state` and
/// `inferences`, and the ports that depend on it are queued again. Where the
/// evaluation fails, the port has left the queue and its error is returned.
pub fn inference_step(
    state: &mut InferenceState,
    inferences: &mut Inferences,
    registry: &MessageRegistrations,
    dependents: &Dependents,
    hints: Option<Vec<Result<Option<usize>, InferenceError>>>,
) -> (r: Result<bool, InferenceError>)
    requires
        old(state).wf(),
        old(inferences).wf(),
        synced(old(state), old(inferences)),
    ensures
        final(state).wf(),
        final(inferences).wf(),
        synced(final(state), final(inferences)),
        r == Ok::<bool, InferenceError>(false) <==> old(state).queued().len() == 0,
        old(state).queued().len() == 0 ==> *final(state) == *old(state) && *final(inferences) == *old(inferences),
        old(state).queued().len() > 0 ==> {
            let port = old(state).queued()[0];
            let rest = old(state).queued().drop_first();
            &&& r matches Err(e) ==> {
                &&& port_evaluation_holds(old(inferences), registry, port, hints_view(hints), Err(e@))
                &&& final(state).queued() == rest
                &&& final(state).types() == old(state).types()
                &&& *final(inferences) == *old(inferences)
            }
            &&& r is Ok ==> exists|evaluated: Option<usize>| {
                &&& #[trigger] port_evaluation_holds(old(inferences), registry, port, hints_view(hints), Ok(evaluated))
                &&& changes(old(state), port, evaluated) ==> {
                    &&& final(state).types() == old(state).types().insert(port, evaluated->0)
                    &&& final(state).queued() == enqueue_all(rest, dependents.of(port))
                    &&& final(inferences).evaluations@ == old(inferences).evaluations@.insert(port, evaluated)
                }
                &&& !changes(old(state), port, evaluated) ==> {
                    &&& final(state).types() == old(state).types()
                    &&& final(state).queued() == rest
                    &&& final(inferences).evaluations@ == old(inferences).evaluations@
                }
            }
            &&& r is Ok ==> r == Ok::<bool, InferenceError>(true)
            &&& final(inferences).connections_into@ == old(inferences).connections_into@
            &&& final(inferences).redirections_into@ == old(inferences).redirections_into@
            &&& final(inferences).buffer_hints@ == old(inferences).buffer_hints@
            &&& final(inferences).constraints@ == old(inferences).constraints@
        },
{
    let ghost hv = hints_view(hints);
    let port = match state.next_port() {
        Some(p) => p,
        None => return Ok(false),
    };
    let evaluated = {
        let known = inferences.evaluations.contains_key(&port);
        if !known {
            Err(InferenceError::UnknownPort(port))
        } else {
            match inferences.constraints.get(&port) {
                None => Ok(None),
                Some(c) => {
                    let ctx = ConstraintContext { inferences: &*inferences, registry };
                    c.evaluate(&ctx, hints)
                },
            }
        }
    };
    let ghost ev = eval_view(evaluated);
    assert(port_evaluation_holds(old(inferences), registry, port, hv, ev));
    let evaluated = match evaluated {
        Ok(t) => t,
        Err(e) => return Err(e),
    };
    let deps = dependents.get(port);
    let changed = state.apply_evaluation(port, evaluated, &deps);
    if changed {
        inferences.evaluations.insert(port, evaluated);
    }
    proof {
        assert(port_evaluation_holds(old(inferences), registry, port, hv, Ok(evaluated)));
    }
    Ok(true)
}

} // verus!

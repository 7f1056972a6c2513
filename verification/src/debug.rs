//! Debugging of workflow execution: breakpoints, paused sessions, and the
//! roster of requests held back while their session is paused.
//!
//! Sessions are nested. To tell whether one session descends from another,
//! these functions take the lineage of the session in question: the session
//! itself followed by each of its ancestors.

use vstd::prelude::*;
use std::collections::HashSet;
use crate::request::{RequestId, position_of};

verus! {

broadcast use vstd::std_specs::hash::group_hash_axioms;

/// `session`, whose lineage is `lineage`, descends from `ancestor` (a session
/// descends from itself).
pub open spec fn descends_from(lineage: Seq<u64>, ancestor: u64) -> bool {
    lineage.contains(ancestor)
}

/// The debugging behavior of workflow execution.
pub struct Debug {
    /// When a message is sent to an operation in this set, its session is
    /// paused.
    pub breakpoints: HashSet<u64>,
    /// Sessions that have debugging active.
    pub debug_sessions: HashSet<u64>,
    /// Sessions whose messages stay in the input storage of their target
    /// until the user steps them forward.
    pub paused_sessions: HashSet<u64>,
}

impl Debug {
    /// No breakpoints, no debug sessions, nothing paused.
    pub fn new() -> (d: Self)
        ensures
            d.breakpoints@ == Set::<u64>::empty(),
            d.debug_sessions@ == Set::<u64>::empty(),
            d.paused_sessions@ == Set::<u64>::empty(),
    {
        Debug {
            breakpoints: HashSet::new(),
            debug_sessions: HashSet::new(),
            paused_sessions: HashSet::new(),
        }
    }

    /// Deactivate debugging: unpause all sessions and stop breakpoints from
    /// pausing any. Breakpoints stay set.
    pub fn deactivate(&mut self)
        ensures
            final(self).debug_sessions@ == Set::<u64>::empty(),
            final(self).paused_sessions@ == Set::<u64>::empty(),
            final(self).breakpoints@ == old(self).breakpoints@,
    {
        self.debug_sessions.clear();
        self.paused_sessions.clear();
    }

    /// Whether any debugging is active: some session is paused, or some
    /// session could be paused by a breakpoint.
    pub fn is_active(&self) -> (b: bool)
        ensures
            b == (!self.paused_sessions@.is_empty() || (!self.debug_sessions@.is_empty()
                && !self.breakpoints@.is_empty())),
    {
        let is_paused = !self.paused_sessions.is_empty();
        let can_pause = !self.debug_sessions.is_empty() && !self.breakpoints.is_empty();
        is_paused || can_pause
    }

    /// A message of the session with lineage `lineage` is sent to `target`.
    /// If the target is a breakpoint and the session descends from a debug
    /// session, that debug session is paused (the nearest one, if several).
    pub fn evaluate_break(&mut self, lineage: &Vec<u64>, target: u64)
        ensures
            final(self).breakpoints@ == old(self).breakpoints@,
            final(self).debug_sessions@ == old(self).debug_sessions@,
            (old(self).breakpoints@.contains(target) && exists|s: u64|
                old(self).debug_sessions@.contains(s) && descends_from(lineage@, s)) ==> exists|
                s: u64,
            |
                #![trigger old(self).debug_sessions@.contains(s)]
                old(self).debug_sessions@.contains(s) && descends_from(lineage@, s)
                    && final(self).paused_sessions@ == old(self).paused_sessions@.insert(s),
            !(old(self).breakpoints@.contains(target) && exists|s: u64|
                old(self).debug_sessions@.contains(s) && descends_from(lineage@, s))
                ==> final(self).paused_sessions@ == old(self).paused_sessions@,
    {
        let mut i: usize = 0;
        let mut found: Option<u64> = None;
        while i < lineage.len()
            invariant
                i <= lineage.len(),
                found is None ==> forall|j: int|
                    0 <= j < i ==> !self.debug_sessions@.contains(#[trigger] lineage@[j]),
                found matches Some(s) ==> self.debug_sessions@.contains(s) && lineage@.contains(
                    s,
                ),
            decreases lineage.len() - i,
        {
            if found.is_none() && self.debug_sessions.contains(&lineage[i]) {
                found = Some(lineage[i]);
            }
            i += 1;
        }
        if let Some(debug_session) = found {
            assert(descends_from(lineage@, debug_session));
            if self.breakpoints.contains(&target) {
                self.paused_sessions.insert(debug_session);
            }
        } else {
            assert forall|s: u64|
                self.debug_sessions@.contains(s) implies !descends_from(lineage@, s) by {
                if lineage@.contains(s) {
                    let j = choose|j: int| 0 <= j < lineage@.len() && lineage@[j] == s;
                    assert(!self.debug_sessions@.contains(lineage@[j]));
                }
            }
        }
    }

    /// Whether the session with lineage `lineage` is paused: it descends from
    /// a paused session.
    pub fn is_paused(&self, lineage: &Vec<u64>) -> (b: bool)
        ensures
            b == exists|s: u64| self.paused_sessions@.contains(s) && descends_from(lineage@, s),
    {
        let mut i: usize = 0;
        while i < lineage.len()
            invariant
                i <= lineage.len(),
                forall|j: int|
                    0 <= j < i ==> !self.paused_sessions@.contains(#[trigger] lineage@[j]),
            decreases lineage.len() - i,
        {
            if self.paused_sessions.contains(&lineage[i]) {
                assert(descends_from(lineage@, lineage@[i as int]));
                return true;
            }
            i += 1;
        }
        assert forall|s: u64|
            self.paused_sessions@.contains(s) implies !descends_from(lineage@, s) by {
            if lineage@.contains(s) {
                let j = choose|j: int| 0 <= j < lineage@.len() && lineage@[j] == s;
                assert(!self.paused_sessions@.contains(lineage@[j]));
            }
        }
        false
    }
}

/// With debugging deactivated (no debug sessions, nothing paused), a
/// breakpoint pauses no session, and no session counts as paused.
pub proof fn law_deactivated_never_pauses(debug: Debug, lineage: Seq<u64>)
    requires
        debug.debug_sessions@ == Set::<u64>::empty(),
        debug.paused_sessions@ == Set::<u64>::empty(),
    ensures
        !exists|s: u64| debug.debug_sessions@.contains(s) && descends_from(lineage, s),
        !exists|s: u64| debug.paused_sessions@.contains(s) && descends_from(lineage, s),
{
}

/// Whether stepping forward selects held-back request `k` of `d`: its
/// session descends from the stepped session and, if an operation is given,
/// it belongs to that operation.
pub open spec fn steps(d: Seq<RequestId>, operation: Option<u64>, in_session: Seq<bool>, k: int) -> bool {
    match operation {
        Some(op) => d[k].source == op && in_session[k],
        None => in_session[k],
    }
}

/// The items of `d` whose flag equals `keep`, in order.
pub open spec fn select<A>(d: Seq<A>, flags: Seq<bool>, keep: bool) -> Seq<A>
    decreases d.len(),
{
    if d.len() == 0 {
        Seq::empty()
    } else {
        let rest = select(d.drop_last(), flags.drop_last(), keep);
        if flags.last() == keep {
            rest.push(d.last())
        } else {
            rest
        }
    }
}

/// Requests that were held back because their session is paused, and
/// requests that have been let through once.
pub struct DebugRoster {
    deferrals: Vec<RequestId>,
    allow: Vec<RequestId>,
}

impl DebugRoster {
    /// The requests held back, in the order they were first held.
    pub closed spec fn deferred(&self) -> Seq<RequestId> {
        self.deferrals@
    }

    /// The requests that may go through once.
    pub closed spec fn allowed(&self) -> Set<RequestId> {
        self.allow@.to_set()
    }

    /// No request is listed twice.
    pub closed spec fn wf(&self) -> bool {
        self.allow@.no_duplicates()
    }

    /// An empty roster.
    pub fn new() -> (r: Self)
        ensures
            r.wf(),
            r.deferred() == Seq::<RequestId>::empty(),
            r.allowed() == Set::<RequestId>::empty(),
    {
        let r = DebugRoster { deferrals: Vec::new(), allow: Vec::new() };
        assert(r.allow@.to_set() =~= Set::<RequestId>::empty());
        r
    }

    /// The requests held back, in the order they were first held.
    pub fn deferred_requests(&self) -> (r: &Vec<RequestId>)
        ensures
            r@ == self.deferred(),
    {
        &self.deferrals
    }

    /// Whether an operation may take request `id` of a paused session. A
    /// request that was let through goes through once. Otherwise the request
    /// is held back, and listed among the deferrals if it was not yet.
    pub fn is_allowed(&mut self, id: RequestId) -> (b: bool)
        requires
            old(self).wf(),
        ensures
            final(self).wf(),
            b == old(self).allowed().contains(id),
            final(self).allowed() == old(self).allowed().remove(id),
            b ==> final(self).deferred() == old(self).deferred(),
            !b ==> final(self).deferred() == if old(self).deferred().contains(id) {
                old(self).deferred()
            } else {
                old(self).deferred().push(id)
            },
    {
        proof {
            self.allow@.unique_seq_to_set();
        }
        if let Some(i) = position_of(&self.allow, id) {
            let ghost a = self.allow@;
            self.allow.remove(i);
            proof {
                assert forall|x: RequestId| #[trigger] self.allow@.contains(x) <==> (a.contains(x)
                    && x != id) by {
                    if a.contains(x) && x != id {
                        let k = choose|k: int| 0 <= k < a.len() && a[k] == x;
                        if k < i {
                            assert(self.allow@[k] == x);
                        } else {
                            assert(self.allow@[k - 1] == x);
                        }
                    }
                }
                assert(self.allow@.to_set() =~= a.to_set().remove(id));
                assert(self.allow@.no_duplicates()) by {
                    assert forall|p: int, q: int|
                        0 <= p < q < self.allow@.len() implies self.allow@[p] != self.allow@[q] by {
                        let pp = if p < i { p } else { p + 1 };
                        let qq = if q < i { q } else { q + 1 };
                        assert(self.allow@[p] == a[pp]);
                        assert(self.allow@[q] == a[qq]);
                    }
                }
            }
            return true;
        }
        assert(self.allow@.to_set().remove(id) =~= self.allow@.to_set());
        if position_of(&self.deferrals, id).is_some() {
            return false;
        }
        self.deferrals.push(id);
        false
    }

    /// Step a paused session forward: let through the oldest held-back
    /// request whose session descends from the stepped session (which
    /// `in_session` tells for each held-back request) and, if `operation` is
    /// given, that belongs to that operation. Returns the request let through.
    pub fn pop_next_in_session(&mut self, operation: Option<u64>, in_session: &Vec<bool>) -> (r:
        Option<RequestId>)
        requires
            old(self).wf(),
            in_session@.len() == old(self).deferred().len(),
        ensures
            final(self).wf(),
            r is None ==> {
                &&& forall|k: int|
                    0 <= k < old(self).deferred().len() ==> !#[trigger] steps(
                        old(self).deferred(),
                        operation,
                        in_session@,
                        k,
                    )
                &&& final(self).deferred() == old(self).deferred()
                &&& final(self).allowed() == old(self).allowed()
            },
            r matches Some(id) ==> exists|k: int|
                0 <= k < old(self).deferred().len() && #[trigger] steps(
                    old(self).deferred(),
                    operation,
                    in_session@,
                    k,
                ) && old(self).deferred()[k] == id && (forall|j: int|
                    0 <= j < k ==> !steps(old(self).deferred(), operation, in_session@, j))
                    && final(self).deferred() == old(self).deferred().remove(k)
                    && final(self).allowed() == old(self).allowed().insert(id),
    {
        let ghost d = self.deferrals@;
        let ghost a0 = self.allow@;
        let mut i: usize = 0;
        while i < self.deferrals.len()
            invariant
                self.deferrals@ == d,
                self.allow@ == a0,
                a0.no_duplicates(),
                a0 == old(self).allow@,
                d == old(self).deferrals@,
                in_session@.len() == d.len(),
                i <= d.len(),
                forall|j: int| 0 <= j < i ==> !steps(d, operation, in_session@, j),
            decreases d.len() - i,
        {
            let is_hit = match operation {
                Some(op) => self.deferrals[i].source == op && in_session[i],
                None => in_session[i],
            };
            if is_hit {
                let next = self.deferrals.remove(i);
                assert(steps(d, operation, in_session@, i as int));
                assert(self.deferrals@ == d.remove(i as int));
                if position_of(&self.allow, next).is_none() {
                    self.allow.push(next);
                    assert forall|x: RequestId| self.allow@.contains(x) <==> (a0.contains(x) || x == next) by {
                        if self.allow@.contains(x) {
                            let k = choose|k: int| 0 <= k < self.allow@.len() && self.allow@[k] == x;
                            if k < a0.len() {
                                assert(a0[k] == x);
                            }
                        }
                        if a0.contains(x) {
                            let k = choose|k: int| 0 <= k < a0.len() && a0[k] == x;
                            assert(self.allow@[k] == x);
                        }
                        assert(self.allow@[a0.len() as int] == next);
                    }
                    proof {
                        assert(self.allow@.no_duplicates()) by {
                            assert forall|p: int, q: int|
                                0 <= p < q < self.allow@.len() implies self.allow@[p]
                                != self.allow@[q] by {
                                if q == self.allow@.len() - 1 {
                                    assert(self.allow@[p] == a0[p]);
                                    assert(a0.contains(a0[p]));
                                } else {
                                    assert(self.allow@[p] == a0[p]);
                                    assert(self.allow@[q] == a0[q]);
                                }
                            }
                        }
                    }
                }
                assert(self.allow@.to_set() =~= a0.to_set().insert(next));
                let ghost k = i as int;
                assert(0 <= k < d.len() && steps(d, operation, in_session@, k) && d[k] == next
                    && (forall|j: int| 0 <= j < k ==> !steps(d, operation, in_session@, j))
                    && self.deferrals@ == d.remove(k) && self.allow@.to_set() == a0.to_set().insert(next));
                assert(steps(old(self).deferred(), operation, in_session@, k));
                assert(old(self).allowed() == a0.to_set());
                return Some(next);
            }
            i += 1;
        }
        None
    }

    /// Release every held-back request whose session is no longer paused;
    /// `paused` tells for each held-back request whether its session is
    /// paused. Returns the released requests, in order.
    pub fn release_unpaused(&mut self, paused: &Vec<bool>) -> (released: Vec<RequestId>)
        requires
            old(self).wf(),
            paused@.len() == old(self).deferred().len(),
        ensures
            final(self).wf(),
            final(self).allowed() == old(self).allowed(),
            final(self).deferred() == select(old(self).deferred(), paused@, true),
            released@ == select(old(self).deferred(), paused@, false),
    {
        let ghost d = self.deferrals@;
        let mut kept: Vec<RequestId> = Vec::new();
        let mut released: Vec<RequestId> = Vec::new();
        let mut i: usize = 0;
        while i < self.deferrals.len()
            invariant
                self.deferrals@ == d,
                paused@.len() == d.len(),
                i <= d.len(),
                kept@ == select(d.take(i as int), paused@.take(i as int), true),
                released@ == select(d.take(i as int), paused@.take(i as int), false),
            decreases d.len() - i,
        {
            assert(d.take(i + 1).drop_last() =~= d.take(i as int));
            assert(paused@.take(i + 1).drop_last() =~= paused@.take(i as int));
            if paused[i] {
                kept.push(self.deferrals[i]);
            } else {
                released.push(self.deferrals[i]);
            }
            i += 1;
        }
        assert(d.take(d.len() as int) =~= d);
        assert(paused@.take(d.len() as int) =~= paused@);
        self.deferrals = kept;
        released
    }
}

/// A request that stepping forward lets through passes the next check of it,
/// and only that one: `stepped` is the roster after the step, `checked` after
/// the check that let the request through.
pub proof fn law_let_through_once(before: DebugRoster, stepped: DebugRoster, checked: DebugRoster, id: RequestId)
    requires
        stepped.allowed() == before.allowed().insert(id),
        checked.allowed() == stepped.allowed().remove(id),
    ensures
        stepped.allowed().contains(id),
        !checked.allowed().contains(id),
{
}

} // verus!

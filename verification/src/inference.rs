//! The bookkeeping of message type inference over the ports of a diagram.
//!
//! Ports are known by integer ids. How a port's constraint evaluates depends
//! on the registry and on the operations of the diagram, so the caller
//! evaluates and hands the result in; this module decides what follows from
//! it: which ports must be evaluated again, whether redirections are
//! circular, and whether every port got a message type.

use vstd::prelude::*;
use std::collections::HashMap;

verus! {

broadcast use vstd::std_specs::hash::group_hash_axioms;

/// Whether `v` holds `x`.
pub fn vec_contains(v: &Vec<u64>, x: u64) -> (b: bool)
    ensures
        b == v@.contains(x),
{
    let mut i: usize = 0;
    while i < v.len()
        invariant
            i <= v.len(),
            forall|j: int| 0 <= j < i ==> v@[j] != x,
        decreases v.len() - i,
    {
        if v[i] == x {
            assert(v@[i as int] == x);
            return true;
        }
        i += 1;
    }
    false
}

/// Follow the redirections of `m` from `start`, `n` times.
pub open spec fn follow(m: Map<u64, u64>, start: u64, n: nat) -> u64
    decreases n,
{
    if n == 0 {
        start
    } else {
        let prev = follow(m, start, (n - 1) as nat);
        if m.contains_key(prev) {
            m[prev]
        } else {
            prev
        }
    }
}

/// Following the redirections of `m` from `start` leaves them after `n` steps:
/// every port before is redirected, the port reached is not.
pub open spec fn leaves_after(m: Map<u64, u64>, start: u64, n: nat) -> bool {
    &&& !m.contains_key(follow(m, start, n))
    &&& forall|k: nat| k < n ==> m.contains_key(#[trigger] follow(m, start, k))
}

/// Following the redirections of `m` from `start` leaves them eventually.
pub open spec fn terminates(m: Map<u64, u64>, start: u64) -> bool {
    exists|n: nat| leaves_after(m, start, n)
}

/// `path` follows the redirections of `m`, and its last port repeats an
/// earlier one: a circular redirection.
pub open spec fn is_circular_path(m: Map<u64, u64>, path: Seq<u64>) -> bool {
    &&& path.len() >= 2
    &&& forall|k: int| 0 <= k < path.len() - 1 ==> m.contains_key(#[trigger] path[k]) && m[path[k]]
        == path[k + 1]
    &&& path.drop_last().contains(path.last())
}

/// Look for a circular redirection among `redirects`. Returns the ports
/// visited from some redirected port up to and including the first repeated
/// one, or `None` when following the redirections from any port always
/// leaves them.
pub fn find_circular_redirect(redirects: &HashMap<u64, u64>) -> (r: Option<Vec<u64>>)
    ensures
        r matches Some(path) ==> is_circular_path(redirects@, path@),
        r is None ==> forall|s: u64| #[trigger] redirects@.contains_key(s) ==> terminates(redirects@, s),
{
    let ghost m = redirects@;
    let ghost mut done: Seq<u64> = Seq::empty();
    proof {
        vstd::std_specs::hash::axiom_spec_keys_iter(redirects);
    }
    for redirect_from in it: redirects.keys()
        invariant
            m == redirects@,
            it.seq().unref().to_set() == m.dom(),
            done.len() == it.index(),
            forall|j: int| 0 <= j < done.len() ==> done[j] == *it.seq()[j],
            it.index() == it.seq().len() ==> done.to_set() == m.dom(),
            forall|j: int| 0 <= j < done.len() ==> terminates(m, #[trigger] done[j]),
    {
        let start = *redirect_from;
        match chain_from(redirects, start) {
            Some(path) => {
                return Some(path);
            },
            None => {},
        }
        let ghost old_done = done;
        proof {
            done = done.push(start);
            assert forall|j: int| 0 <= j < done.len() implies terminates(m, #[trigger] done[j]) by {
                if j < old_done.len() {
                    assert(done[j] == old_done[j]);
                } else {
                    assert(done[j] == start);
                }
            }
        }
        assert(it.index() + 1 == it.seq().len() ==> done =~= it.seq().unref());
    }
    proof {
        assert forall|s: u64| #[trigger] m.contains_key(s) implies terminates(m, s) by {
            assert(done.to_set().contains(s));
            let j = choose|j: int| 0 <= j < done.len() && done[j] == s;
            assert(terminates(m, done[j]));
        }
    }
    None
}

/// Follow the redirections from `start` until they are left (`None`) or a
/// port repeats (the path up to the repeat).
fn chain_from(redirects: &HashMap<u64, u64>, start: u64) -> (r: Option<Vec<u64>>)
    ensures
        r matches Some(path) ==> is_circular_path(redirects@, path@),
        r is None ==> terminates(redirects@, start),
{
    let ghost m = redirects@;
    let mut visited: Vec<u64> = Vec::new();
    let mut next: Option<u64> = Some(start);
    while next.is_some()
        invariant
            m == redirects@,
            m.dom().finite(),
            forall|k: int| 0 <= k < visited@.len() ==> #[trigger] visited@[k] == follow(m, start, k as nat),
            next matches Some(t) ==> t == follow(m, start, visited@.len() as nat),
            next matches Some(t) ==> forall|k: int| 0 <= k < visited@.len() ==> m.contains_key(#[trigger] visited@[k]),
            next matches Some(t) ==> visited@.no_duplicates(),
            next matches Some(t) ==> visited@.len() <= m.dom().len(),
            next is None ==> {
                &&& visited@.len() > 0
                &&& !m.contains_key(visited@.last())
                &&& forall|k: int| 0 <= k < visited@.len() - 1 ==> m.contains_key(#[trigger] visited@[k])
            },
        decreases m.dom().len() + 1 - visited@.len() + (if next is Some { 1int } else { 0int }),
    {
        let top = next.unwrap();
        let circular = vec_contains(&visited, top);
        let ghost before = visited@;
        visited.push(top);
        if circular {
            proof {
                assert(visited@.drop_last() =~= before);
                assert forall|k: int| 0 <= k < visited@.len() - 1 implies m.contains_key(
                    #[trigger] visited@[k],
                ) && m[visited@[k]] == visited@[k + 1] by {
                    assert(visited@[k] == follow(m, start, k as nat));
                    if k + 1 < before.len() {
                        assert(visited@[k + 1] == follow(m, start, (k + 1) as nat));
                    } else {
                        assert(visited@[k + 1] == top);
                    }
                }
            }
            return Some(visited);
        }
        match redirects.get(&top) {
            Some(t) => {
                proof {
                    assert(visited@.no_duplicates()) by {
                        assert forall|p: int, q: int| 0 <= p < q < visited@.len() implies visited@[p] != visited@[q] by {
                            if q == visited@.len() - 1 {
                                assert(before.contains(before[p]));
                            }
                        }
                    }
                    assert(visited@.to_set().subset_of(m.dom())) by {
                        assert forall|x: u64| visited@.to_set().contains(x) implies m.dom().contains(x) by {
                            let k = choose|k: int| 0 <= k < visited@.len() && visited@[k] == x;
                        }
                    }
                    visited@.unique_seq_to_set();
                    vstd::set_lib::lemma_len_subset(visited@.to_set(), m.dom());
                    assert(follow(m, start, visited@.len() as nat) == m[top]);
                }
                next = Some(*t);
            },
            None => {
                next = None;
            },
        }
    }
    proof {
        let n = (visited@.len() - 1) as nat;
        assert(visited@[n as int] == follow(m, start, n));
        assert forall|k: nat| k < n implies m.contains_key(#[trigger] follow(m, start, k)) by {
            assert(visited@[k as int] == follow(m, start, k));
        }
        assert(leaves_after(m, start, n));
    }
    None
}

/// `m` lists `p` among the ports of `d`.
pub open spec fn listed(m: Map<u64, Vec<u64>>, d: u64, p: u64) -> bool {
    m.contains_key(d) && m[d]@.contains(p)
}

/// The dependents of each port: for each port that some constraint depends
/// on, the ports whose constraints depend on it.
pub struct Dependents {
    map: HashMap<u64, Vec<u64>>,
}

impl Dependents {
    /// The ports that depend on `port`.
    pub closed spec fn of(&self, port: u64) -> Seq<u64> {
        if self.map@.contains_key(port) {
            self.map@[port]@
        } else {
            Seq::empty()
        }
    }

    /// Invert the dependencies of the constraints: `constraints` lists each
    /// constrained port with the ports that its constraint depends on.
    pub fn new(constraints: &Vec<(u64, Vec<u64>)>) -> (d: Self)
        ensures
            forall|dep: u64, port: u64|
                #[trigger] d.of(dep).contains(port) <==> exists|i: int|
                    0 <= i < constraints@.len() && #[trigger] constraints@[i].0 == port
                        && constraints@[i].1@.contains(dep),
    {
        let mut map: HashMap<u64, Vec<u64>> = HashMap::new();
        let mut i: usize = 0;
        while i < constraints.len()
            invariant
                i <= constraints.len(),
                forall|dep: u64, port: u64|
                    #[trigger] listed(map@, dep, port) <==> exists|k: int|
                        0 <= k < i && constraints@[k].0 == port
                            && constraints@[k].1@.contains(dep),
            decreases constraints.len() - i,
        {
            let port = constraints[i].0;
            let deps = &constraints[i].1;
            let mut j: usize = 0;
            while j < deps.len()
                invariant
                    i < constraints.len(),
                    port == constraints@[i as int].0,
                    deps == &constraints@[i as int].1,
                    j <= deps.len(),
                    forall|dep: u64, p: u64|
                        #[trigger] listed(map@, dep, p) <==> (exists|k: int|
                            0 <= k < i && constraints@[k].0 == p
                                && constraints@[k].1@.contains(dep)) || (p == port
                            && deps@.take(j as int).contains(dep)),
                decreases deps.len() - j,
            {
                let dep = deps[j];
                let ghost before = map@;
                let mut list = match map.remove(&dep) {
                    Some(list) => list,
                    None => Vec::new(),
                };
                let ghost old_list = list@;
                list.push(port);
                map.insert(dep, list);
                proof {
                    assert(deps@.take(j + 1) =~= deps@.take(j as int).push(dep));
                    assert forall|d: u64, p: u64|
                        #[trigger] listed(map@, d, p) <==> (exists|k: int|
                            0 <= k < i && constraints@[k].0 == p
                                && constraints@[k].1@.contains(d)) || (p == port
                            && deps@.take(j + 1).contains(d)) by {
                        assert(deps@.take(j + 1)[j as int] == dep);
                        assert(deps@.take(j + 1).contains(d) <==> (deps@.take(j as int).contains(d) || d == dep)) by {
                            if deps@.take(j + 1).contains(d) {
                                let q = choose|q: int| 0 <= q < j + 1 && #[trigger] deps@.take(j + 1)[q] == d;
                                if q < j {
                                    assert(deps@.take(j as int)[q] == d);
                                }
                            }
                            if deps@.take(j as int).contains(d) {
                                let q = choose|q: int| 0 <= q < j && #[trigger] deps@.take(j as int)[q] == d;
                                assert(deps@.take(j + 1)[q] == d);
                            }
                        }
                        if d == dep {
                            assert(map@[d]@ == old_list.push(port));
                            if old_list.contains(p) {
                                assert(listed(before, d, p));
                            }
                            if listed(before, d, p) {
                                assert(old_list.contains(p));
                                let q = choose|q: int| 0 <= q < old_list.len() && old_list[q] == p;
                                assert(map@[d]@[q] == p);
                            }
                            assert(map@[d]@[old_list.len() as int] == port);
                        } else {
                            assert(map@.contains_key(d) == before.contains_key(d));
                            assert(listed(map@, d, p) == listed(before, d, p));
                        }
                    }
                }
                j += 1;
            }
            proof {
                assert(deps@.take(deps@.len() as int) =~= deps@);
                assert forall|dep: u64, p: u64|
                    #[trigger] listed(map@, dep, p) <==> exists|k: int|
                        0 <= k < i + 1 && constraints@[k].0 == p
                            && constraints@[k].1@.contains(dep) by {
                    if p == port && deps@.contains(dep) {
                        assert(constraints@[i as int].0 == p);
                    }
                }
            }
            i += 1;
        }
        let d = Dependents { map };
        assert forall|dep: u64, port: u64| #[trigger] d.of(dep).contains(port) <==> listed(map@, dep, port) by {}
        d
    }

    /// The ports that depend on `port`.
    pub fn get(&self, port: u64) -> (r: Vec<u64>)
        ensures
            r@ == self.of(port),
    {
        match self.map.get(&port) {
            Some(list) => list.clone(),
            None => Vec::new(),
        }
    }
}

/// Add each of `deps` to the back of queue `q` unless it is queued already.
pub open spec fn enqueue_all(q: Seq<u64>, deps: Seq<u64>) -> Seq<u64>
    decreases deps.len(),
{
    if deps.len() == 0 {
        q
    } else {
        let q1 = enqueue_all(q, deps.drop_last());
        if q1.contains(deps.last()) {
            q1
        } else {
            q1.push(deps.last())
        }
    }
}

/// The state of message type inference: the ports waiting to be evaluated,
/// in order, and the message type determined so far for each port.
pub struct InferenceState {
    queue: Vec<u64>,
    types: HashMap<u64, usize>,
}

impl InferenceState {
    /// The ports waiting to be evaluated, front first.
    pub closed spec fn queued(&self) -> Seq<u64> {
        self.queue@
    }

    /// The message type determined so far for each port.
    pub closed spec fn types(&self) -> Map<u64, usize> {
        self.types@
    }

    /// No port waits twice.
    pub open spec fn wf(&self) -> bool {
        self.queued().no_duplicates()
    }

    /// Every port waits to be evaluated once; no type is known yet.
    pub fn new(ports: &Vec<u64>) -> (s: Self)
        requires
            ports@.no_duplicates(),
        ensures
            s.wf(),
            s.queued() == ports@,
            s.types() == Map::<u64, usize>::empty(),
    {
        let s = InferenceState { queue: ports.clone(), types: HashMap::new() };
        assert(s.types() =~= Map::<u64, usize>::empty());
        s
    }

    /// Fix the message type of a port, irrespective of any constraint.
    pub fn fixed(&mut self, port: u64, message_type: usize)
        ensures
            final(self).queued() == old(self).queued(),
            final(self).types() == old(self).types().insert(port, message_type),
    {
        self.types.insert(port, message_type);
    }

    /// The message type determined so far for `port`.
    pub fn message_type(&self, port: u64) -> (r: Option<usize>)
        ensures
            r == if self.types().contains_key(port) {
                Some(self.types()[port])
            } else {
                None
            },
    {
        match self.types.get(&port) {
            Some(t) => Some(*t),
            None => None,
        }
    }

    /// The port at the front of the queue, without taking it.
    pub fn peek_port(&self) -> (r: Option<u64>)
        ensures
            self.queued().len() == 0 ==> r is None,
            self.queued().len() > 0 ==> r == Some(self.queued()[0]),
    {
        if self.queue.len() == 0 {
            None
        } else {
            Some(self.queue[0])
        }
    }

    /// Take the port at the front of the queue.
    pub fn next_port(&mut self) -> (r: Option<u64>)
        requires
            old(self).wf(),
        ensures
            final(self).wf(),
            final(self).types() == old(self).types(),
            old(self).queued().len() == 0 ==> r is None && *final(self) == *old(self),
            old(self).queued().len() > 0 ==> r == Some(old(self).queued()[0])
                && final(self).queued() == old(self).queued().drop_first(),
    {
        if self.queue.len() == 0 {
            return None;
        }
        let port = self.queue.remove(0);
        assert(self.queue@ =~= old(self).queue@.drop_first());
        Some(port)
    }

    /// Record what the constraint of `port` evaluated to. A message type that
    /// differs from the one known so far is taken, and every port that
    /// depends on `port` is queued again unless it is queued already.
    /// Returns whether the type of `port` changed.
    pub fn apply_evaluation(&mut self, port: u64, evaluated: Option<usize>, dependents: &Vec<u64>) -> (changed: bool)
        requires
            old(self).wf(),
        ensures
            final(self).wf(),
            changed == (evaluated matches Some(t) && !(old(self).types().contains_key(port)
                && old(self).types()[port] == t)),
            changed ==> final(self).types() == old(self).types().insert(port, evaluated->0)
                && final(self).queued() == enqueue_all(old(self).queued(), dependents@),
            !changed ==> final(self).types() == old(self).types() && final(self).queued()
                == old(self).queued(),
    {
        let t = match evaluated {
            Some(t) => t,
            None => return false,
        };
        match self.types.get(&port) {
            Some(current) => {
                if *current == t {
                    return false;
                }
            },
            None => {},
        }
        self.types.insert(port, t);
        let mut i: usize = 0;
        while i < dependents.len()
            invariant
                i <= dependents.len(),
                self.queue@.no_duplicates(),
                self.queue@ == enqueue_all(old(self).queue@, dependents@.take(i as int)),
                self.types@ == old(self).types@.insert(port, t),
                evaluated == Some(t),
            decreases dependents.len() - i,
        {
            let dep = dependents[i];
            let ghost before = self.queue@;
            assert(dependents@.take(i + 1).drop_last() =~= dependents@.take(i as int));
            if !vec_contains(&self.queue, dep) {
                self.queue.push(dep);
                assert(self.queue@.no_duplicates()) by {
                    assert forall|p: int, q: int| 0 <= p < q < self.queue@.len() implies self.queue@[p] != self.queue@[q] by {
                        if q == before.len() {
                            assert(before.contains(before[p]));
                        }
                    }
                }
            }
            i += 1;
        }
        assert(dependents@.take(dependents@.len() as int) =~= dependents@);
        true
    }

    /// The message type of every port in `ports`, or the first port whose
    /// type could not be inferred.
    pub fn try_infer_types(&self, ports: &Vec<u64>) -> (r: Result<HashMap<u64, usize>, u64>)
        ensures
            r matches Ok(m) ==> (forall|p: u64| #[trigger] m@.contains_key(p) <==> ports@.contains(p))
                && forall|p: u64| #[trigger] m@.contains_key(p) ==> self.types().contains_key(p)
                && m@[p] == self.types()[p],
            r matches Err(p) ==> ports@.contains(p) && !self.types().contains_key(p),
            r is Err <==> exists|k: int| 0 <= k < ports@.len() && !self.types().contains_key(#[trigger] ports@[k]),
    {
        let mut inferred: HashMap<u64, usize> = HashMap::new();
        let mut i: usize = 0;
        while i < ports.len()
            invariant
                i <= ports.len(),
                forall|p: u64| #[trigger] inferred@.contains_key(p) <==> ports@.take(i as int).contains(p),
                forall|p: u64| #[trigger] inferred@.contains_key(p) ==> self.types().contains_key(p) && inferred@[p] == self.types()[p],
                forall|k: int| 0 <= k < i ==> self.types().contains_key(#[trigger] ports@[k]),
            decreases ports.len() - i,
        {
            let port = ports[i];
            assert(ports@.take(i + 1) =~= ports@.take(i as int).push(port));
            assert forall|p: u64| ports@.take(i + 1).contains(p) <==> (ports@.take(i as int).contains(p) || p == port) by {
                if ports@.take(i + 1).contains(p) {
                    let q = choose|q: int| 0 <= q < i + 1 && #[trigger] ports@.take(i + 1)[q] == p;
                    if q < i {
                        assert(ports@.take(i as int)[q] == p);
                    }
                }
                if ports@.take(i as int).contains(p) {
                    let q = choose|q: int| 0 <= q < i && #[trigger] ports@.take(i as int)[q] == p;
                    assert(ports@.take(i + 1)[q] == p);
                }
                assert(ports@.take(i + 1)[i as int] == port);
            }
            match self.types.get(&port) {
                Some(t) => {
                    inferred.insert(port, *t);
                },
                None => {
                    assert(ports@[i as int] == port);
                    return Err(port);
                },
            }
            i += 1;
        }
        assert(ports@.take(ports@.len() as int) =~= ports@);
        Ok(inferred)
    }
}

/// Queueing dependents loses nothing and adds nothing else: the old queue
/// stays in front, every dependent ends up queued, and every port queued
/// afterwards was queued before or is a dependent.
pub proof fn law_enqueue_all(q: Seq<u64>, deps: Seq<u64>)
    ensures
        enqueue_all(q, deps).len() >= q.len(),
        enqueue_all(q, deps).subrange(0, q.len() as int) == q,
        forall|d: u64| deps.contains(d) ==> #[trigger] enqueue_all(q, deps).contains(d),
        forall|x: u64| #[trigger] enqueue_all(q, deps).contains(x) ==> q.contains(x) || deps.contains(x),
    decreases deps.len(),
{
    if deps.len() > 0 {
        let rest = deps.drop_last();
        law_enqueue_all(q, rest);
        let q1 = enqueue_all(q, rest);
        let last = deps.last();
        assert forall|d: u64| deps.contains(d) implies #[trigger] enqueue_all(q, deps).contains(d) by {
            let k = choose|k: int| 0 <= k < deps.len() && deps[k] == d;
            if k < deps.len() - 1 {
                assert(rest[k] == d);
                assert(q1.contains(d));
                let m = choose|m: int| 0 <= m < q1.len() && q1[m] == d;
                if !q1.contains(last) {
                    assert(q1.push(last)[m] == d);
                }
            } else if !q1.contains(last) {
                assert(q1.push(last)[q1.len() as int] == last);
            }
        }
        assert forall|x: u64| #[trigger] enqueue_all(q, deps).contains(x) implies q.contains(x) || deps.contains(x) by {
            if !q1.contains(last) {
                let m = choose|m: int| 0 <= m < q1.len() + 1 && q1.push(last)[m] == x;
                if m < q1.len() {
                    assert(q1[m] == x);
                    assert(enqueue_all(q, rest).contains(x));
                    if rest.contains(x) {
                        let k = choose|k: int| 0 <= k < rest.len() && rest[k] == x;
                        assert(deps[k] == x);
                    }
                } else {
                    assert(deps[deps.len() - 1] == x);
                }
            } else {
                assert(enqueue_all(q, rest).contains(x));
                if rest.contains(x) {
                    let k = choose|k: int| 0 <= k < rest.len() && rest[k] == x;
                    assert(deps[k] == x);
                }
            }
        }
        assert(enqueue_all(q, deps).subrange(0, q.len() as int) =~= q1.subrange(0, q.len() as int));
    } else {
        assert(q.subrange(0, q.len() as int) =~= q);
    }
}

/// Along a circular path, every port reached from its first port is one of
/// the path's ports before the repeat.
proof fn lemma_follow_stays_on_path(m: Map<u64, u64>, path: Seq<u64>, n: nat)
    requires
        is_circular_path(m, path),
    ensures
        exists|k: int| 0 <= k < path.len() - 1 && follow(m, path[0], n) == #[trigger] path[k],
    decreases n,
{
    let last = path.len() - 1;
    if n == 0 {
        assert(follow(m, path[0], 0) == path[0]);
    } else {
        lemma_follow_stays_on_path(m, path, (n - 1) as nat);
        let k = choose|k: int| 0 <= k < path.len() - 1 && follow(m, path[0], (n - 1) as nat) == #[trigger] path[k];
        assert(m.contains_key(path[k]) && m[path[k]] == path[k + 1]);
        if k + 1 < last {
            assert(follow(m, path[0], n) == path[k + 1]);
        } else {
            let i = choose|i: int| 0 <= i < path.drop_last().len() && path.drop_last()[i] == path.last();
            assert(path[i] == path[last]);
            assert(follow(m, path[0], n) == path[i]);
        }
    }
}

/// A circular redirection is never left: what `find_circular_redirect`
/// reports as circular does not terminate.
pub proof fn law_circular_path_never_leaves(m: Map<u64, u64>, path: Seq<u64>)
    requires
        is_circular_path(m, path),
    ensures
        !terminates(m, path[0]),
{
    assert forall|n: nat| !leaves_after(m, path[0], n) by {
        lemma_follow_stays_on_path(m, path, n);
        let k = choose|k: int| 0 <= k < path.len() - 1 && follow(m, path[0], n) == #[trigger] path[k];
        assert(m.contains_key(path[k]));
    }
}

} // verus!

//! Storage of buffered messages, one queue per session, kept within the
//! bounds of a retention policy.
//!
//! Each queue is held newest-first (index 0 is the newest entry), which makes
//! "pull the oldest" a `pop` from the back. Contracts speak of the queue in
//! chronological order, oldest first, through [`BufferStorage::entries`].

use vstd::prelude::*;
use std::collections::HashMap;
use std::collections::hash_map::Entry;
use crate::input::{Input, InputStorage, of_session, seq_after};
use crate::any_range::AnyRange;

verus! {

broadcast use vstd::std_specs::hash::group_hash_axioms;

/// What a buffer does with a message when it takes part in a join.
#[derive(Debug, Clone, Copy, PartialEq, Eq, Structural)]
pub enum FetchBehavior {
    /// Pull a value from the buffer while joining
    Pull,
    /// Clone a value from the buffer while joining
    Clone,
}

impl Default for FetchBehavior {
    /// Joining pulls by default.
    fn default() -> (f: Self)
        ensures
            f == FetchBehavior::Pull,
    {
        FetchBehavior::Pull
    }
}

/// How many messages a buffer keeps for each session, and which ones.
#[derive(Debug, Clone, Copy, PartialEq, Eq, Structural)]
pub enum RetentionPolicy {
    /// Keep the newest `n` messages; pushing into a full queue drops the oldest.
    KeepLast(usize),
    /// Keep the first `n` messages; pushing into a full queue hands the new
    /// message back.
    KeepFirst(usize),
    /// Keep every message.
    KeepAll,
}

/// Settings that determine how a buffer behaves.
#[derive(Debug, Clone, Copy, PartialEq, Eq, Structural)]
pub struct BufferSettings {
    retention: RetentionPolicy,
}

impl BufferSettings {
    /// Settings with the given retention policy.
    pub fn new(retention: RetentionPolicy) -> (s: Self)
        ensures
            s.spec_retention() == retention,
    {
        BufferSettings { retention }
    }

    pub closed spec fn spec_retention(self) -> RetentionPolicy {
        self.retention
    }

    /// The retention policy of these settings.
    pub fn retention(&self) -> (r: RetentionPolicy)
        ensures
            r == self.spec_retention(),
    {
        self.retention
    }
}

/// A message held by a buffer, together with the sequence number that it was
/// given when it arrived. While its buffer is traced, `original` keeps the
/// message as it was before the first mutable access to it.
pub struct BufferEntry<T> {
    pub seq: u32,
    pub message: T,
    pub original: Option<T>,
}

impl<T> BufferEntry<T> {
    pub fn new(seq: u32, message: T) -> (e: Self)
        ensures
            e == (BufferEntry { seq, message, original: None }),
    {
        BufferEntry { seq, message, original: None }
    }
}

/// Borrow the message of an entry.
pub fn get_message_ref<T>(entry: &BufferEntry<T>) -> (r: &T)
    ensures
        *r == entry.message,
{
    &entry.message
}

/// Mutable access to one entry of a buffer. Where `tracing` is set, the
/// entry's message is recorded as its original before it is first modified.
pub struct BMut<'a, T> {
    pub entry: &'a mut BufferEntry<T>,
    pub tracing: bool,
}

impl<'a, T> BMut<'a, T> {
    /// View the message without modifying it.
    pub fn get(&self) -> (r: &T)
        ensures
            *r == old(self.entry).message,
    {
        &self.entry.message
    }
}

impl<'a, T: Clone> BMut<'a, T> {
    /// Mutable access to the message. While tracing, an entry that has no
    /// original yet records a copy of its message as the original; an
    /// original that was recorded before is kept.
    pub fn get_mut(&mut self) -> (r: &mut T)
        ensures
            *r == old(self).entry.message,
            final(self).entry.message == *final(r),
            final(self).entry.seq == old(self).entry.seq,
            final(self).tracing == old(self).tracing,
            !(old(self).tracing && old(self).entry.original is None) ==> final(self).entry.original
                == old(self).entry.original,
            old(self).tracing && old(self).entry.original is None ==> {
                let o = final(self).entry.original;
                o is Some && cloned(old(self).entry.message, o.unwrap())
            },
            *final(final(self).entry) == *final(old(self).entry),
    {
        if self.tracing && self.entry.original.is_none() {
            let copy = self.entry.message.clone();
            self.entry.original = Some(copy);
        }
        &mut self.entry.message
    }
}

/// The reverse of a sequence.
pub open spec fn rev<A>(s: Seq<A>) -> Seq<A> {
    Seq::new(s.len(), |i: int| s[s.len() - 1 - i])
}

pub proof fn lemma_rev_insert_front<A>(s: Seq<A>, x: A)
    ensures
        rev(s.insert(0, x)) == rev(s).push(x),
{
    assert(rev(s.insert(0, x)) =~= rev(s).push(x));
}

pub proof fn lemma_rev_push<A>(s: Seq<A>, x: A)
    ensures
        rev(s.push(x)) == rev(s).insert(0, x),
{
    assert(rev(s.push(x)) =~= rev(s).insert(0, x));
}

pub proof fn lemma_rev_drop_last<A>(s: Seq<A>)
    requires
        s.len() > 0,
    ensures
        rev(s.drop_last()) == rev(s).drop_first(),
{
    assert(rev(s.drop_last()) =~= rev(s).drop_first());
}

pub proof fn lemma_rev_remove_front<A>(s: Seq<A>)
    requires
        s.len() > 0,
    ensures
        rev(s.remove(0)) == rev(s).drop_last(),
{
    assert(rev(s.remove(0)) =~= rev(s).drop_last());
}

/// The messages of a chronological sequence of entries.
pub open spec fn messages_of<T>(q: Seq<BufferEntry<T>>) -> Seq<T> {
    q.map_values(|e: BufferEntry<T>| e.message)
}

/// What a push of entry `e` does to a chronological queue `q` under `policy`:
/// the queue afterwards, and the entry that was handed back, if any.
pub open spec fn pushed<T>(q: Seq<BufferEntry<T>>, policy: RetentionPolicy, e: BufferEntry<T>) -> (
    Seq<BufferEntry<T>>,
    Option<BufferEntry<T>>,
) {
    match policy {
        RetentionPolicy::KeepFirst(n) => if q.len() >= n {
            (q, Some(e))
        } else {
            (q.push(e), None)
        },
        RetentionPolicy::KeepLast(n) => if n > 0 && q.len() >= n {
            (q.drop_first().push(e), Some(q[0]))
        } else if n == 0 {
            (q, Some(e))
        } else {
            (q.push(e), None)
        },
        RetentionPolicy::KeepAll => (q.push(e), None),
    }
}

/// What pushing entry `e` in as the oldest does to a chronological queue `q`
/// under `policy`.
pub open spec fn pushed_as_oldest<T>(
    q: Seq<BufferEntry<T>>,
    policy: RetentionPolicy,
    e: BufferEntry<T>,
) -> (Seq<BufferEntry<T>>, Option<BufferEntry<T>>) {
    match policy {
        RetentionPolicy::KeepFirst(n) => if n > 0 && q.len() >= n {
            (q.drop_last().insert(0, e), Some(q.last()))
        } else {
            (q.insert(0, e), None)
        },
        RetentionPolicy::KeepLast(n) => if q.len() >= n {
            (q, Some(e))
        } else {
            (q.insert(0, e), None)
        },
        RetentionPolicy::KeepAll => (q.insert(0, e), None),
    }
}

/// The message of an entry that was handed back, if any.
pub open spec fn message_of<T>(e: Option<BufferEntry<T>>) -> Option<T> {
    match e {
        Some(e) => Some(e.message),
        None => None,
    }
}

/// Force-push each of `msgs` in turn, numbering them from `seq` on.
pub open spec fn force_push_all<T>(
    q: Seq<BufferEntry<T>>,
    policy: RetentionPolicy,
    msgs: Seq<T>,
    seq: u32,
) -> Seq<BufferEntry<T>>
    decreases msgs.len(),
{
    if msgs.len() == 0 {
        q
    } else {
        force_push_all(
            pushed(q, policy, BufferEntry { seq, message: msgs[0], original: None }).0,
            policy,
            msgs.drop_first(),
            seq_after(seq),
        )
    }
}

/// The sequence number reached from `seq` after `n` steps.
pub open spec fn seq_after_n(seq: u32, n: nat) -> u32
    decreases n,
{
    if n == 0 {
        seq
    } else {
        seq_after(seq_after_n(seq, (n - 1) as nat))
    }
}

/// The data of a sequence of inputs.
pub open spec fn data_of<T>(inputs: Seq<Input<T>>) -> Seq<T> {
    inputs.map_values(|x: Input<T>| x.data)
}

/// The queues of a buffer: for each session that the buffer is tracking, the
/// entries that it holds.
pub struct BufferStorage<T> {
    settings: BufferSettings,
    reverse_queues: HashMap<u64, Vec<BufferEntry<T>>>,
    tracing: bool,
}

impl<T> BufferStorage<T> {
    /// The sessions that this buffer is tracking.
    pub closed spec fn sessions(&self) -> Set<u64> {
        self.reverse_queues@.dom()
    }

    /// The entries held for `session`, oldest first; empty for a session that
    /// is not tracked.
    pub closed spec fn entries(&self, session: u64) -> Seq<BufferEntry<T>> {
        if self.reverse_queues@.contains_key(session) {
            rev(self.reverse_queues@[session]@)
        } else {
            Seq::empty()
        }
    }

    /// The retention policy of this buffer.
    pub closed spec fn policy(&self) -> RetentionPolicy {
        self.settings.spec_retention()
    }

    /// Whether this buffer is traced: mutable access then records the
    /// original of each entry that it modifies.
    pub closed spec fn tracing(&self) -> bool {
        self.tracing
    }

    /// The messages held for `session`, oldest first.
    pub open spec fn messages(&self, session: u64) -> Seq<T> {
        messages_of(self.entries(session))
    }

    /// `other` holds the same sessions and queues as `self`, except perhaps
    /// for `session`, and has the same policy.
    pub open spec fn same_except(&self, other: &Self, session: u64) -> bool {
        &&& other.policy() == self.policy()
        &&& other.tracing() == self.tracing()
        &&& forall|s: u64| s != session ==> (#[trigger] other.sessions().contains(s)
            <==> self.sessions().contains(s))
        &&& forall|s: u64| s != session ==> #[trigger] other.entries(s) == self.entries(s)
    }

    /// An empty buffer storage with the given settings.
    pub fn new(settings: BufferSettings) -> (s: Self)
        ensures
            s.policy() == settings.spec_retention(),
            s.sessions() == Set::<u64>::empty(),
            !s.tracing(),
            forall|session: u64| #[trigger] s.entries(session) == Seq::<BufferEntry<T>>::empty(),
    {
        let s = BufferStorage { settings, reverse_queues: HashMap::new(), tracing: false };
        assert(s.sessions() =~= Set::<u64>::empty());
        s
    }

    /// Turn tracing of this buffer on or off.
    pub fn set_tracing(&mut self, on: bool)
        ensures
            final(self).tracing() == on,
            final(self).policy() == old(self).policy(),
            final(self).sessions() == old(self).sessions(),
            forall|session: u64| #[trigger] final(self).entries(session) == old(self).entries(session),
    {
        self.tracing = on;
    }

    /// Whether this buffer is traced.
    pub fn is_tracing(&self) -> (b: bool)
        ensures
            b == self.tracing(),
    {
        self.tracing
    }

    /// The settings of this buffer.
    pub fn settings(&self) -> (s: BufferSettings)
        ensures
            s.spec_retention() == self.policy(),
    {
        self.settings
    }

    /// Whether the buffer is tracking `session`.
    pub fn contains_session(&self, session: u64) -> (b: bool)
        ensures
            b == self.sessions().contains(session),
    {
        self.reverse_queues.contains_key(&session)
    }

    /// How many messages the buffer holds for `session`.
    pub fn count(&self, session: u64) -> (n: usize)
        ensures
            n == self.entries(session).len(),
    {
        match self.reverse_queues.get(&session) {
            Some(q) => q.len(),
            None => 0,
        }
    }

    /// The oldest message held for `session`.
    pub fn oldest(&self, session: u64) -> (r: Option<&T>)
        ensures
            self.entries(session).len() == 0 ==> r is None,
            self.entries(session).len() > 0 ==> r == Some(&self.entries(session)[0].message),
    {
        match self.reverse_queues.get(&session) {
            Some(q) => {
                if q.len() == 0 {
                    None
                } else {
                    Some(&q[q.len() - 1].message)
                }
            },
            None => None,
        }
    }

    /// The newest message held for `session`.
    pub fn newest(&self, session: u64) -> (r: Option<&T>)
        ensures
            self.entries(session).len() == 0 ==> r is None,
            self.entries(session).len() > 0 ==> r == Some(&self.entries(session).last().message),
    {
        match self.reverse_queues.get(&session) {
            Some(q) => {
                if q.len() == 0 {
                    None
                } else {
                    Some(&q[0].message)
                }
            },
            None => None,
        }
    }

    /// The message at `index` for `session`, where index 0 is the oldest.
    pub fn get(&self, session: u64, index: usize) -> (r: Option<&T>)
        ensures
            index >= self.entries(session).len() ==> r is None,
            index < self.entries(session).len() ==> r == Some(
                &self.entries(session)[index as int].message,
            ),
    {
        match self.reverse_queues.get(&session) {
            Some(q) => {
                let len = q.len();
                if len <= index {
                    None
                } else {
                    Some(&q[len - index - 1].message)
                }
            },
            None => None,
        }
    }

    /// Mutable access to the newest entry held for `session`.
    pub fn newest_mut(&mut self, session: u64) -> (r: Option<BMut<'_, T>>)
        ensures
            r matches Some(b) ==> b.tracing == old(self).tracing(),
            old(self).same_except(&*final(self), session),
            final(self).sessions() == old(self).sessions(),
            old(self).entries(session).len() == 0 ==> r is None && final(self).entries(session) == old(self).entries(session),
            old(self).entries(session).len() > 0 ==> r is Some
                && *r.unwrap().entry == old(self).entries(session).last()
                && final(self).entries(session) == old(self).entries(session).update(
                    old(self).entries(session).len() - 1, *final(r.unwrap().entry)),
    {
        let tracing = self.tracing;
        match self.reverse_queues.entry(session) {
            Entry::Occupied(o) => {
                let q = o.into_mut();
                match q.first_mut() {
                    Some(e) => Some(BMut { entry: e, tracing }),
                    None => None,
                }
            },
            Entry::Vacant(_) => None,
        }
    }

    /// Mutable access to the oldest entry held for `session`.
    pub fn oldest_mut(&mut self, session: u64) -> (r: Option<BMut<'_, T>>)
        ensures
            r matches Some(b) ==> b.tracing == old(self).tracing(),
            old(self).same_except(&*final(self), session),
            final(self).sessions() == old(self).sessions(),
            old(self).entries(session).len() == 0 ==> r is None && final(self).entries(session) == old(self).entries(session),
            old(self).entries(session).len() > 0 ==> r is Some
                && *r.unwrap().entry == old(self).entries(session)[0]
                && final(self).entries(session) == old(self).entries(session).update(0, *final(r.unwrap().entry)),
    {
        let tracing = self.tracing;
        match self.reverse_queues.entry(session) {
            Entry::Occupied(o) => {
                let q = o.into_mut();
                match q.last_mut() {
                    Some(e) => Some(BMut { entry: e, tracing }),
                    None => None,
                }
            },
            Entry::Vacant(_) => None,
        }
    }

    /// Mutable access to the entry at `index` for `session`, where index 0
    /// is the oldest.
    pub fn get_mut(&mut self, session: u64, index: usize) -> (r: Option<BMut<'_, T>>)
        ensures
            r matches Some(b) ==> b.tracing == old(self).tracing(),
            old(self).same_except(&*final(self), session),
            final(self).sessions() == old(self).sessions(),
            index >= old(self).entries(session).len() ==> r is None && final(self).entries(session) == old(self).entries(session),
            index < old(self).entries(session).len() ==> r is Some
                && *r.unwrap().entry == old(self).entries(session)[index as int]
                && final(self).entries(session) == old(self).entries(session).update(index as int, *final(r.unwrap().entry)),
    {
        let tracing = self.tracing;
        match self.reverse_queues.entry(session) {
            Entry::Occupied(o) => {
                let q = o.into_mut();
                let len = q.len();
                if index >= len {
                    None
                } else {
                    Some(BMut { entry: &mut q[len - index - 1], tracing })
                }
            },
            Entry::Vacant(_) => None,
        }
    }

    /// Mutable access to the newest entry held for `session`. Where the
    /// session is tracked but holds nothing, first push the message that
    /// `make` produces, with the next sequence number of `input`.
    pub fn newest_mut_or_else(&mut self, input: &mut InputStorage<T>, session: u64, make: impl FnOnce() -> T) -> (r: Option<BMut<'_, T>>)
        requires
            make.requires(()),
        ensures
            r matches Some(b) ==> b.tracing == old(self).tracing(),
            old(self).same_except(&*final(self), session),
            final(self).sessions() == old(self).sessions(),
            !(old(self).sessions().contains(session) && old(self).entries(session).len() == 0) ==> {
                &&& *final(input) == *old(input)
                &&& old(self).entries(session).len() == 0 ==> r is None && final(self).entries(session) == old(self).entries(session)
                &&& old(self).entries(session).len() > 0 ==> r is Some
                    && *r.unwrap().entry == old(self).entries(session).last()
                    && final(self).entries(session) == old(self).entries(session).update(
                        old(self).entries(session).len() - 1, *final(r.unwrap().entry))
            },
            old(self).sessions().contains(session) && old(self).entries(session).len() == 0 ==> {
                &&& final(input).next_seq() == crate::input::seq_after(old(input).next_seq())
                &&& final(input).inputs() == old(input).inputs()
                &&& (old(self).policy() == RetentionPolicy::KeepFirst(0) || old(self).policy() == RetentionPolicy::KeepLast(0))
                    ==> r is None && final(self).entries(session).len() == 0
                &&& !(old(self).policy() == RetentionPolicy::KeepFirst(0) || old(self).policy() == RetentionPolicy::KeepLast(0))
                    ==> r is Some
                        && r.unwrap().entry.seq == old(input).next_seq()
                        && make.ensures((), r.unwrap().entry.message)
                        && final(self).entries(session) == seq![*final(r.unwrap().entry)]
            },
    {
        let retention = self.settings.retention();
        let tracing = self.tracing;
        match self.reverse_queues.entry(session) {
            Entry::Occupied(o) => {
                let q = o.into_mut();
                if q.len() == 0 {
                    let seq = input.increment_seq();
                    let message = make();
                    let ghost e = BufferEntry { seq, message, original: None };
                    proof {
                        assert(rev(q@) =~= Seq::<BufferEntry<T>>::empty());
                    }
                    Self::impl_push(q, retention, seq, message);
                    proof {
                        if retention == RetentionPolicy::KeepFirst(0) || retention == RetentionPolicy::KeepLast(0) {
                            assert(rev(q@).len() == 0);
                        } else {
                            assert(rev(q@) =~= seq![e]);
                            assert(q@ =~= seq![e]);
                        }
                    }
                }
                match q.first_mut() {
                    Some(e) => Some(BMut { entry: e, tracing }),
                    None => None,
                }
            },
            Entry::Vacant(_) => None,
        }
    }

    /// Start tracking `session`, with an empty queue if it was not tracked yet.
    pub fn ensure_session(&mut self, session: u64)
        ensures
            old(self).same_except(&*final(self), session),
            final(self).sessions().contains(session),
            final(self).entries(session) == old(self).entries(session),
    {
        if !self.reverse_queues.contains_key(&session) {
            self.reverse_queues.insert(session, Vec::new());
            assert(rev(Seq::<BufferEntry<T>>::empty()) =~= Seq::<BufferEntry<T>>::empty());
        }
    }

    /// Stop tracking `session`, dropping whatever it held.
    pub fn remove_session(&mut self, session: u64)
        ensures
            old(self).same_except(&*final(self), session),
            !final(self).sessions().contains(session),
            final(self).entries(session).len() == 0,
    {
        self.reverse_queues.remove(&session);
    }

    /// Take the queue of `session` out of the map (empty if not tracked).
    fn take_queue(&mut self, session: u64) -> (q: Vec<BufferEntry<T>>)
        ensures
            final(self).reverse_queues@ == old(self).reverse_queues@.remove(session),
            final(self).settings == old(self).settings,
            final(self).tracing == old(self).tracing,
            rev(q@) == old(self).entries(session),
    {
        match self.reverse_queues.remove(&session) {
            Some(q) => q,
            None => {
                assert(rev(Seq::<BufferEntry<T>>::empty()) =~= Seq::<BufferEntry<T>>::empty());
                Vec::new()
            },
        }
    }

    /// Put a queue for `session` back into the map.
    fn put_queue(&mut self, session: u64, q: Vec<BufferEntry<T>>)
        requires
            !old(self).reverse_queues@.contains_key(session),
        ensures
            final(self).reverse_queues@ == old(self).reverse_queues@.insert(session, q),
            final(self).settings == old(self).settings,
            final(self).tracing == old(self).tracing,
            final(self).entries(session) == rev(q@),
            final(self).sessions() == old(self).sessions().insert(session),
            forall|s: u64| s != session ==> #[trigger] final(self).entries(s) == old(self).entries(s),
    {
        self.reverse_queues.insert(session, q);
    }

    /// Push `message` into a newest-first queue under `retention`, giving it
    /// sequence number `seq`. Returns the entry that had to leave, if any.
    fn impl_push(
        reverse_queue: &mut Vec<BufferEntry<T>>,
        retention: RetentionPolicy,
        seq: u32,
        message: T,
    ) -> (r: Option<BufferEntry<T>>)
        ensures
            (rev(final(reverse_queue)@), r) == pushed(
                rev(old(reverse_queue)@),
                retention,
                BufferEntry { seq, message, original: None },
            ),
    {
        let entry = BufferEntry::new(seq, message);
        let ghost q = old(reverse_queue)@;
        proof {
            lemma_rev_insert_front(q, entry);
        }
        let replaced = match retention {
            RetentionPolicy::KeepFirst(n) => {
                if reverse_queue.len() >= n {
                    return Some(entry);
                }
                None
            },
            RetentionPolicy::KeepLast(n) => {
                if n > 0 && reverse_queue.len() >= n {
                    proof {
                        lemma_rev_drop_last(q);
                        lemma_rev_insert_front(q.drop_last(), entry);
                    }
                    reverse_queue.pop()
                } else if n == 0 {
                    return Some(entry);
                } else {
                    None
                }
            },
            RetentionPolicy::KeepAll => None,
        };
        reverse_queue.insert(0, entry);
        replaced
    }

    /// Push `message` as the newest message of `session`, creating the session
    /// if needed. Returns the message that had to leave the buffer, if any.
    pub fn force_push(&mut self, input: &mut InputStorage<T>, session: u64, message: T) -> (r:
        Option<T>)
        ensures
            old(self).same_except(&*final(self), session),
            final(self).sessions().contains(session),
            final(input).next_seq() == crate::input::seq_after(old(input).next_seq()),
            final(input).inputs() == old(input).inputs(),
            ({
                let (q, out) = pushed(
                    old(self).entries(session),
                    old(self).policy(),
                    BufferEntry { seq: old(input).next_seq(), message, original: None },
                );
                final(self).entries(session) == q && r == message_of(out)
            }),
    {
        let seq = input.increment_seq();
        let retention = self.settings.retention();
        let mut q = self.take_queue(session);
        let removed = Self::impl_push(&mut q, retention, seq, message);
        self.put_queue(session, q);
        match removed {
            Some(e) => Some(e.message),
            None => None,
        }
    }

    /// Push `message` as the newest message of `session`. A session that the
    /// buffer is not tracking gets the message handed straight back. Otherwise
    /// returns the message that had to leave the buffer, if any.
    pub fn push(&mut self, input: &mut InputStorage<T>, session: u64, message: T) -> (r: Option<
        T,
    >)
        ensures
            !old(self).sessions().contains(session) ==> {
                &&& *final(self) == *old(self)
                &&& *final(input) == *old(input)
                &&& r == Some(message)
            },
            old(self).sessions().contains(session) ==> {
                let (q, out) = pushed(
                    old(self).entries(session),
                    old(self).policy(),
                    BufferEntry { seq: old(input).next_seq(), message, original: None },
                );
                &&& old(self).same_except(&*final(self), session)
                &&& final(self).sessions().contains(session)
                &&& final(self).entries(session) == q
                &&& r == message_of(out)
                &&& final(input).next_seq() == crate::input::seq_after(old(input).next_seq())
                &&& final(input).inputs() == old(input).inputs()
            },
    {
        if !self.reverse_queues.contains_key(&session) {
            return Some(message);
        }
        self.force_push(input, session, message)
    }

    /// Push `message` into `session` as if it were the oldest message. A
    /// session that the buffer is not tracking gets the message handed straight
    /// back. Otherwise returns the message that had to leave the buffer, if any.
    pub fn push_as_oldest(&mut self, input: &mut InputStorage<T>, session: u64, message: T) -> (r:
        Option<T>)
        ensures
            !old(self).sessions().contains(session) ==> {
                &&& *final(self) == *old(self)
                &&& *final(input) == *old(input)
                &&& r == Some(message)
            },
            old(self).sessions().contains(session) ==> {
                let (q, out) = pushed_as_oldest(
                    old(self).entries(session),
                    old(self).policy(),
                    BufferEntry { seq: old(input).next_seq(), message, original: None },
                );
                &&& old(self).same_except(&*final(self), session)
                &&& final(self).sessions().contains(session)
                &&& final(self).entries(session) == q
                &&& r == message_of(out)
                &&& final(input).next_seq() == crate::input::seq_after(old(input).next_seq())
                &&& final(input).inputs() == old(input).inputs()
            },
    {
        if !self.reverse_queues.contains_key(&session) {
            return Some(message);
        }
        let retention = self.settings.retention();
        let seq = input.increment_seq();
        let entry = BufferEntry::new(seq, message);
        let mut reverse_queue = self.take_queue(session);
        let ghost q = reverse_queue@;
        proof {
            lemma_rev_push(q, entry);
        }
        let replaced = match retention {
            RetentionPolicy::KeepFirst(n) => {
                if n > 0 && reverse_queue.len() >= n {
                    proof {
                        lemma_rev_remove_front(q);
                        lemma_rev_push(q.remove(0), entry);
                    }
                    Some(reverse_queue.remove(0))
                } else {
                    None
                }
            },
            RetentionPolicy::KeepLast(n) => {
                if reverse_queue.len() >= n {
                    self.put_queue(session, reverse_queue);
                    return Some(entry.message);
                }
                None
            },
            RetentionPolicy::KeepAll => None,
        };
        reverse_queue.push(entry);
        self.put_queue(session, reverse_queue);
        match replaced {
            Some(e) => Some(e.message),
            None => None,
        }
    }

    /// Pull the oldest message out of `session`.
    pub fn pull(&mut self, session: u64) -> (r: Option<T>)
        ensures
            old(self).entries(session).len() == 0 ==> {
                &&& r is None
                &&& *final(self) == *old(self)
            },
            old(self).entries(session).len() > 0 ==> {
                &&& r == Some(old(self).entries(session)[0].message)
                &&& final(self).entries(session) == old(self).entries(session).drop_first()
                &&& final(self).sessions() == old(self).sessions()
                &&& old(self).same_except(&*final(self), session)
            },
    {
        if self.count(session) == 0 {
            return None;
        }
        let mut q = self.take_queue(session);
        proof {
            lemma_rev_drop_last(q@);
        }
        let e = q.pop();
        self.put_queue(session, q);
        match e {
            Some(e) => Some(e.message),
            None => None,
        }
    }

    /// Pull the newest message out of `session`.
    pub fn pull_newest(&mut self, session: u64) -> (r: Option<T>)
        ensures
            old(self).entries(session).len() == 0 ==> {
                &&& r is None
                &&& *final(self) == *old(self)
            },
            old(self).entries(session).len() > 0 ==> {
                &&& r == Some(old(self).entries(session).last().message)
                &&& final(self).entries(session) == old(self).entries(session).drop_last()
                &&& final(self).sessions() == old(self).sessions()
                &&& old(self).same_except(&*final(self), session)
            },
    {
        if self.count(session) == 0 {
            return None;
        }
        let mut q = self.take_queue(session);
        proof {
            lemma_rev_remove_front(q@);
        }
        let e = q.remove(0);
        self.put_queue(session, q);
        Some(e.message)
    }
    /// Drain the entries of `session` at the given positions of the
    /// newest-first queue (position 0 is the newest entry). The drained
    /// messages come out oldest first. A session that is not tracked yields
    /// nothing.
    pub fn drain(&mut self, session: u64, range: &AnyRange) -> (r: Vec<T>)
        requires
            old(self).sessions().contains(session) ==> range.fits(
                old(self).entries(session).len() as int,
            ),
        ensures
            !old(self).sessions().contains(session) ==> {
                &&& r@.len() == 0
                &&& *final(self) == *old(self)
            },
            old(self).sessions().contains(session) ==> {
                let e = old(self).entries(session);
                let lo = e.len() - range.end_index(e.len() as int);
                let hi = e.len() - range.first_index();
                &&& r@ == messages_of(e.subrange(lo, hi))
                &&& final(self).entries(session) == e.subrange(0, lo) + e.subrange(hi, e.len() as int)
                &&& final(self).sessions() == old(self).sessions()
                &&& old(self).same_except(&*final(self), session)
            },
    {
        if !self.reverse_queues.contains_key(&session) {
            return Vec::new();
        }
        let mut q = self.take_queue(session);
        let ghost big_q = q@;
        let len = q.len();
        let (a, b) = range.indices(len);
        let mut taken: Vec<BufferEntry<T>> = Vec::new();
        let mut k: usize = 0;
        while k < b - a
            invariant
                a <= b <= len,
                len == big_q.len(),
                k <= b - a,
                q@ == big_q.subrange(0, a as int) + big_q.subrange(a + k, len as int),
                taken@ == big_q.subrange(a as int, a + k),
            decreases b - a - k,
        {
            let ghost pre_q = q@;
            let entry = q.remove(a);
            assert(entry == big_q[a + k]);
            taken.push(entry);
            k += 1;
            assert(q@ =~= big_q.subrange(0, a as int) + big_q.subrange(a + k, len as int));
            assert(taken@ =~= big_q.subrange(a as int, a + k));
        }
        let ghost mid = big_q.subrange(a as int, b as int);
        let mut out: Vec<T> = Vec::new();
        let mut j: usize = 0;
        while taken.len() > 0
            invariant
                a <= b <= len,
                len == big_q.len(),
                mid == big_q.subrange(a as int, b as int),
                j + taken.len() == b - a,
                taken@ == mid.subrange(0, (b - a - j) as int),
                out@ == messages_of(rev(mid)).subrange(0, j as int),
            decreases taken.len(),
        {
            let entry = taken.pop().unwrap();
            assert(entry == rev(mid)[j as int]);
            out.push(entry.message);
            j += 1;
            assert(out@ =~= messages_of(rev(mid)).subrange(0, j as int));
            assert(taken@ =~= mid.subrange(0, (b - a - j) as int));
        }
        assert(out@ =~= messages_of(rev(mid)));
        let ghost e = rev(big_q);
        assert(rev(mid) =~= e.subrange(len - b, len - a));
        assert(rev(q@) =~= e.subrange(0, len - b) + e.subrange(len - a, len as int));
        self.put_queue(session, q);
        out
    }


    /// Move the queued inputs of `session` into the buffer, newest first, as
    /// if each were force-pushed; the inputs of other sessions stay queued.
    pub fn cleanup_inputs(&mut self, input: &mut InputStorage<T>, session: u64)
        ensures
            old(self).same_except(&*final(self), session),
            final(self).sessions().contains(session),
            final(input).inputs() == of_session(old(input).inputs(), session, false),
            ({
                let moved = data_of(of_session(old(input).inputs(), session, true));
                &&& final(self).entries(session) == force_push_all(
                    old(self).entries(session),
                    old(self).policy(),
                    moved,
                    old(input).next_seq(),
                )
                &&& final(input).next_seq() == seq_after_n(old(input).next_seq(), moved.len())
            }),
    {
        let mut taken = input.take_session(session);
        let ghost moved = data_of(taken@);
        let ghost q0 = self.entries(session);
        let ghost seq0 = input.next_seq();
        self.ensure_session(session);
        let ghost s0 = *self;
        let ghost total = moved.len();
        assert(taken@.len() == taken.len());
        assert(moved.skip(0) =~= moved);
        assert(self.entries(session) == q0);
        assert(self.policy() == old(self).policy());
        let mut k: usize = 0;
        while taken.len() > 0
            invariant
                total == moved.len(),
                total <= usize::MAX,
                k <= total,
                data_of(taken@) == moved.skip(k as int),
                self.sessions().contains(session),
                s0.same_except(self, session),
                s0.policy() == old(self).policy(),
                s0.sessions().contains(session),
                input.inputs() == of_session(old(input).inputs(), session, false),
                input.next_seq() == seq_after_n(seq0, k as nat),
                force_push_all(self.entries(session), self.policy(), moved.skip(k as int), input.next_seq())
                    == force_push_all(q0, old(self).policy(), moved, seq0),
            decreases taken.len(),
        {
            let x = taken.remove(0);
            let ghost seq = input.next_seq();
            let ghost q = self.entries(session);
            proof {
                assert(moved.skip(k as int)[0] == x.data);
                assert(moved.skip(k as int).drop_first() =~= moved.skip(k + 1));
                assert(data_of(taken@) =~= moved.skip(k + 1));
            }
            self.force_push(input, session, x.data);
            k += 1;
        }
        proof {
            assert(moved.skip(total as int) =~= Seq::<T>::empty());
        }
    }

    /// The sessions that the buffer is tracking, each once, in no particular
    /// order.
    pub fn active_sessions(&self) -> (r: Vec<u64>)
        ensures
            r@.to_set() == self.sessions(),
            r@.no_duplicates(),
    {
        let mut out: Vec<u64> = Vec::new();
        proof {
            vstd::std_specs::hash::axiom_spec_keys_iter(&self.reverse_queues);
        }
        for key in it: self.reverse_queues.keys()
            invariant
                it.seq().unref().to_set() == self.sessions(),
                it.seq().unref().no_duplicates(),
                out@.len() == it.index(),
                forall|j: int| 0 <= j < out@.len() ==> out@[j] == *it.seq()[j],
                it.index() == it.seq().len() ==> out@ == it.seq().unref(),
        {
            out.push(*key);
            assert(it.index() + 1 == it.seq().len() ==> out@ =~= it.seq().unref());
        }
        out
    }

    /// References to the messages held for `session`, oldest first.
    pub fn iter(&self, session: u64) -> (r: Vec<&T>)
        ensures
            r@.len() == self.entries(session).len(),
            forall|i: int| 0 <= i < r@.len() ==> *#[trigger] r@[i] == self.entries(session)[i].message,
    {
        let mut out: Vec<&T> = Vec::new();
        match self.reverse_queues.get(&session) {
            Some(q) => {
                let len = q.len();
                let mut i: usize = 0;
                while i < len
                    invariant
                        len == q@.len(),
                        i <= len,
                        q@ == self.reverse_queues@[session]@,
                        self.reverse_queues@.contains_key(session),
                        out@.len() == i,
                        forall|j: int| 0 <= j < i ==> *#[trigger] out@[j] == self.entries(session)[j].message,
                    decreases len - i,
                {
                    out.push(&q[len - 1 - i].message);
                    i += 1;
                }
            },
            None => {},
        }
        out
    }
}


} // verus!

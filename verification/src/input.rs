//! Input storage of an operation: the messages that have arrived for it, each
//! tagged with its session and a sequence number.

use vstd::prelude::*;

verus! {

/// The sequence number that follows `seq`, wrapping around at `u32::MAX`.
pub open spec fn seq_after(seq: u32) -> u32 {
    if seq == u32::MAX {
        0
    } else {
        (seq + 1) as u32
    }
}

/// The inputs of `s` that belong to `session` (`same`), or that do not
/// (`!same`), in order.
pub open spec fn of_session<T>(s: Seq<Input<T>>, session: u64, same: bool) -> Seq<Input<T>>
    decreases s.len(),
{
    if s.len() == 0 {
        Seq::empty()
    } else {
        let rest = of_session(s.drop_last(), session, same);
        if (s.last().session == session) == same {
            rest.push(s.last())
        } else {
            rest
        }
    }
}

/// Data that has been provided as input into an operation, with the session
/// that it belongs to and its sequence number.
pub struct Input<T> {
    pub session: u64,
    pub seq: u32,
    pub data: T,
}

/// The input storage of an operation. Inputs are queued newest-first, and a
/// counter hands out sequence numbers.
pub struct InputStorage<T> {
    reverse_queue: Vec<Input<T>>,
    sequence: u32,
}

impl<T> InputStorage<T> {
    /// The sequence number that the next input will get.
    pub closed spec fn next_seq(&self) -> u32 {
        self.sequence
    }

    /// The queued inputs, newest first.
    pub closed spec fn inputs(&self) -> Seq<Input<T>> {
        self.reverse_queue@
    }

    /// An empty input storage whose first sequence number is 0.
    pub fn new() -> (s: Self)
        ensures
            s.next_seq() == 0,
            s.inputs() == Seq::<Input<T>>::empty(),
    {
        InputStorage { reverse_queue: Vec::new(), sequence: 0 }
    }

    /// Whether any queued input belongs to `session`.
    pub fn contains_session(&self, session: u64) -> (b: bool)
        ensures
            b == exists|i: int| 0 <= i < self.inputs().len() && #[trigger] self.inputs()[i].session
                == session,
    {
        let mut i: usize = 0;
        while i < self.reverse_queue.len()
            invariant
                i <= self.reverse_queue.len(),
                forall|j: int| 0 <= j < i ==> #[trigger] self.inputs()[j].session != session,
            decreases self.reverse_queue.len() - i,
        {
            if self.reverse_queue[i].session == session {
                assert(self.inputs()[i as int].session == session);
                return true;
            }
            i += 1;
        }
        false
    }

    /// Queue `data` for `session` as the newest input. Returns the sequence
    /// number that it got.
    pub fn push(&mut self, session: u64, data: T) -> (seq: u32)
        ensures
            seq == old(self).next_seq(),
            final(self).next_seq() == seq_after(old(self).next_seq()),
            final(self).inputs() == old(self).inputs().insert(0, Input { session, seq, data }),
    {
        let seq = self.increment_seq();
        self.reverse_queue.insert(0, Input { session, seq, data });
        seq
    }

    /// Hand out the next sequence number.
    pub fn increment_seq(&mut self) -> (seq: u32)
        ensures
            seq == old(self).next_seq(),
            final(self).next_seq() == seq_after(old(self).next_seq()),
            final(self).inputs() == old(self).inputs(),
    {
        let seq = self.sequence;
        self.sequence = self.sequence.wrapping_add(1);
        seq
    }

    /// Take the oldest queued input, if any.
    pub fn try_take_input(&mut self) -> (r: Option<Input<T>>)
        ensures
            final(self).next_seq() == old(self).next_seq(),
            old(self).inputs().len() == 0 ==> r is None && final(self).inputs() == old(self).inputs(),
            old(self).inputs().len() > 0 ==> r == Some(old(self).inputs().last())
                && final(self).inputs() == old(self).inputs().drop_last(),
    {
        self.reverse_queue.pop()
    }

    /// Drop every queued input of `session`, keeping the others in order.
    pub fn remove_session(&mut self, session: u64)
        ensures
            final(self).next_seq() == old(self).next_seq(),
            final(self).inputs() == of_session(old(self).inputs(), session, false),
    {
        let ghost all = self.reverse_queue@;
        let mut kept: Vec<Input<T>> = Vec::new();
        let mut rest: Vec<Input<T>> = Vec::new();
        std::mem::swap(&mut rest, &mut self.reverse_queue);
        let ghost n = all.len();
        assert(rest@ == all);
        assert(rest@.len() == rest.len());
        let mut i: usize = 0;
        while rest.len() > 0
            invariant
                rest@ == all.subrange(i as int, n as int),
                i <= n,
                n == all.len(),
                n <= usize::MAX,
                kept@ == of_session(all.take(i as int), session, false),
            decreases rest.len(),
        {
            let x = rest.remove(0);
            assert(x == all[i as int]);
            assert(all.take(i + 1).drop_last() =~= all.take(i as int));
            if x.session != session {
                kept.push(x);
            }
            i += 1;
            assert(rest@ =~= all.subrange(i as int, n as int));
        }
        assert(all.take(n as int) =~= all);
        self.reverse_queue = kept;
    }

    /// Take every queued input of `session` out, newest first, keeping the
    /// others in order.
    pub fn take_session(&mut self, session: u64) -> (taken: Vec<Input<T>>)
        ensures
            final(self).next_seq() == old(self).next_seq(),
            final(self).inputs() == of_session(old(self).inputs(), session, false),
            taken@ == of_session(old(self).inputs(), session, true),
    {
        let ghost all = self.reverse_queue@;
        let mut kept: Vec<Input<T>> = Vec::new();
        let mut mine: Vec<Input<T>> = Vec::new();
        let mut rest: Vec<Input<T>> = Vec::new();
        std::mem::swap(&mut rest, &mut self.reverse_queue);
        let ghost n = all.len();
        assert(rest@ == all);
        assert(rest@.len() == rest.len());
        let mut i: usize = 0;
        while rest.len() > 0
            invariant
                rest@ == all.subrange(i as int, n as int),
                i <= n,
                n == all.len(),
                n <= usize::MAX,
                kept@ == of_session(all.take(i as int), session, false),
                mine@ == of_session(all.take(i as int), session, true),
            decreases rest.len(),
        {
            let x = rest.remove(0);
            assert(x == all[i as int]);
            assert(all.take(i + 1).drop_last() =~= all.take(i as int));
            if x.session != session {
                kept.push(x);
            } else {
                mine.push(x);
            }
            i += 1;
            assert(rest@ =~= all.subrange(i as int, n as int));
        }
        assert(all.take(n as int) =~= all);
        self.reverse_queue = kept;
        mine
    }
}


/// What is known of the session of an input that is being sent.
#[derive(Debug, Clone, Copy, PartialEq, Eq, Structural)]
pub enum SessionState {
    /// The session no longer exists.
    Missing,
    /// The session's series was dropped; `stops_here` when it stops at the
    /// input's target.
    Dropped { stops_here: bool },
    /// The session is running (`active`) or winding down.
    Running { active: bool },
}

/// What becomes of an input that is being sent to a target.
#[derive(Debug, Clone, Copy, PartialEq, Eq, Structural)]
pub enum InputRoute {
    /// The input reached the point where its series was dropped: cancel the
    /// series there. The input is not delivered.
    CancelSeries,
    /// The session is gone or inactive: the input is not delivered.
    Skip,
    /// Note the target as the series' progress and push the input into the
    /// target's storage. It is delivered.
    Push,
    /// The target is a detached series that will not react any more:
    /// despawn the session. The input is not delivered.
    DespawnSession,
    /// The target is unused: the input is dropped as delivered.
    Ignore,
    /// The target holds no storage for this input type: record the failure
    /// and report the target broken.
    Broken,
}

/// Where an input goes. Where only active sessions may receive it
/// (`only_if_active`), a missing or inactive session skips it and a dropped
/// series that stops at this target is cancelled there. Otherwise the input
/// is pushed into the target's storage if it has one (`has_storage`); an
/// unused target drops it; a detached target despawns its session; any
/// other target is broken.
pub fn route_input(only_if_active: bool, state: SessionState, has_storage: bool, unused: bool, detached: bool) -> (r: InputRoute)
    ensures
        r == (if only_if_active && state == SessionState::Missing {
            InputRoute::Skip
        } else if only_if_active && state == (SessionState::Dropped { stops_here: true }) {
            InputRoute::CancelSeries
        } else if only_if_active && state == (SessionState::Running { active: false }) {
            InputRoute::Skip
        } else if has_storage {
            InputRoute::Push
        } else if unused {
            InputRoute::Ignore
        } else if detached {
            InputRoute::DespawnSession
        } else {
            InputRoute::Broken
        }),
{
    if only_if_active {
        match state {
            SessionState::Missing => {
                return InputRoute::Skip;
            },
            SessionState::Dropped { stops_here } => {
                if stops_here {
                    return InputRoute::CancelSeries;
                }
            },
            SessionState::Running { active } => {
                if !active {
                    return InputRoute::Skip;
                }
            },
        }
    }
    if has_storage {
        InputRoute::Push
    } else if unused {
        InputRoute::Ignore
    } else if detached {
        InputRoute::DespawnSession
    } else {
        InputRoute::Broken
    }
}

/// Whether the caller should go on to run the target: only where the input
/// was delivered.
pub fn route_delivers(route: InputRoute) -> (b: bool)
    ensures
        b == (route == InputRoute::Push || route == InputRoute::Ignore),
{
    match route {
        InputRoute::Push | InputRoute::Ignore => true,
        _ => false,
    }
}

} // verus!

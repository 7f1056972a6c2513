//! Laws of buffer retention: what every push and pull keeps.

use vstd::prelude::*;
use vstd::multiset::Multiset;
use crate::buffer_storage::{BufferEntry, RetentionPolicy, pushed, pushed_as_oldest};

verus! {

broadcast use vstd::seq_lib::group_to_multiset_ensures;

/// The multiset of entries that a push leaves behind: the queue afterwards
/// plus the entry that was handed back, if any.
pub open spec fn after_push<T>(r: (Seq<BufferEntry<T>>, Option<BufferEntry<T>>)) -> Multiset<
    BufferEntry<T>,
> {
    match r.1 {
        Some(out) => r.0.to_multiset().insert(out),
        None => r.0.to_multiset(),
    }
}

/// The largest number of entries that `policy` lets a queue hold, if any.
pub open spec fn capacity(policy: RetentionPolicy) -> Option<usize> {
    match policy {
        RetentionPolicy::KeepLast(n) => Some(n),
        RetentionPolicy::KeepFirst(n) => Some(n),
        RetentionPolicy::KeepAll => None,
    }
}

/// A queue respects `policy` when it holds no more entries than the policy allows.
pub open spec fn within_capacity<T>(q: Seq<BufferEntry<T>>, policy: RetentionPolicy) -> bool {
    match capacity(policy) {
        Some(n) => q.len() <= n,
        None => true,
    }
}

/// Pushing never loses or duplicates a message: every entry that was in the
/// queue, and the pushed entry, is afterwards either in the queue or handed
/// back, exactly once.
pub proof fn law_push_conserves_entries<T>(
    q: Seq<BufferEntry<T>>,
    policy: RetentionPolicy,
    e: BufferEntry<T>,
)
    ensures
        after_push(pushed(q, policy, e)) == q.to_multiset().insert(e),
{
    match policy {
        RetentionPolicy::KeepLast(n) => {
            if n > 0 && q.len() >= n {
                let rest = q.drop_first();
                assert(rest =~= q.remove(0));
                assert(q.to_multiset().remove(q[0]).insert(q[0]) =~= q.to_multiset());
            }
        },
        _ => {},
    }
}

/// Pushing in as the oldest never loses or duplicates a message either.
pub proof fn law_push_as_oldest_conserves_entries<T>(
    q: Seq<BufferEntry<T>>,
    policy: RetentionPolicy,
    e: BufferEntry<T>,
)
    ensures
        after_push(pushed_as_oldest(q, policy, e)) == q.to_multiset().insert(e),
{
    assert(q.insert(0, e).to_multiset() =~= q.to_multiset().insert(e));
    match policy {
        RetentionPolicy::KeepFirst(n) => {
            if n > 0 && q.len() >= n {
                let rest = q.drop_last();
                assert(rest =~= q.remove(q.len() - 1));
                assert(rest.insert(0, e).to_multiset() =~= rest.to_multiset().insert(e));
                assert(q.to_multiset().remove(q.last()).insert(q.last()) =~= q.to_multiset());
            }
        },
        _ => {},
    }
}

/// A push keeps a queue within the capacity of its retention policy.
pub proof fn law_push_within_capacity<T>(
    q: Seq<BufferEntry<T>>,
    policy: RetentionPolicy,
    e: BufferEntry<T>,
)
    requires
        within_capacity(q, policy),
    ensures
        within_capacity(pushed(q, policy, e).0, policy),
{
}

/// Pushing in as the oldest keeps a queue within capacity, for every policy
/// but `KeepFirst(0)`, which stores the entry all the same.
pub proof fn law_push_as_oldest_within_capacity<T>(
    q: Seq<BufferEntry<T>>,
    policy: RetentionPolicy,
    e: BufferEntry<T>,
)
    requires
        within_capacity(q, policy),
        policy != RetentionPolicy::KeepFirst(0),
    ensures
        within_capacity(pushed_as_oldest(q, policy, e).0, policy),
{
}

/// `KeepFirst` never displaces what the queue already holds: the old queue is
/// a prefix of the new one.
pub proof fn law_keep_first_keeps_earliest<T>(q: Seq<BufferEntry<T>>, n: usize, e: BufferEntry<T>)
    ensures
        pushed(q, RetentionPolicy::KeepFirst(n), e).0.subrange(0, q.len() as int) == q,
{
    assert(pushed(q, RetentionPolicy::KeepFirst(n), e).0.subrange(0, q.len() as int) =~= q);
}

/// `KeepLast` with room for at least one entry always stores the pushed entry
/// as the newest.
pub proof fn law_keep_last_keeps_newest<T>(q: Seq<BufferEntry<T>>, n: usize, e: BufferEntry<T>)
    requires
        n > 0,
    ensures
        pushed(q, RetentionPolicy::KeepLast(n), e).0.last() == e,
        pushed(q, RetentionPolicy::KeepLast(n), e).0.len() > 0,
{
}

/// Push each entry of `es` in turn.
pub open spec fn push_all<T>(
    q: Seq<BufferEntry<T>>,
    policy: RetentionPolicy,
    es: Seq<BufferEntry<T>>,
) -> Seq<BufferEntry<T>>
    decreases es.len(),
{
    if es.len() == 0 {
        q
    } else {
        push_all(pushed(q, policy, es[0]).0, policy, es.drop_first())
    }
}

/// Under `KeepAll` a buffer is a first-in first-out queue: after pushing a
/// series of entries they stand behind the old entries in the order they
/// were pushed, so pulls hand them out in that order.
pub proof fn law_keep_all_is_fifo<T>(q: Seq<BufferEntry<T>>, es: Seq<BufferEntry<T>>)
    ensures
        push_all(q, RetentionPolicy::KeepAll, es) == q + es,
    decreases es.len(),
{
    if es.len() > 0 {
        law_keep_all_is_fifo(q.push(es[0]), es.drop_first());
        assert(q.push(es[0]) + es.drop_first() =~= q + es);
    } else {
        assert(q + es =~= q);
    }
}

/// Under `KeepAll`, pulling the newest entry undoes a push, and pulling the
/// oldest entry undoes a push as the oldest.
pub proof fn law_keep_all_pull_undoes_push<T>(q: Seq<BufferEntry<T>>, e: BufferEntry<T>)
    ensures
        pushed(q, RetentionPolicy::KeepAll, e).0.last() == e,
        pushed(q, RetentionPolicy::KeepAll, e).0.drop_last() == q,
        pushed_as_oldest(q, RetentionPolicy::KeepAll, e).0[0] == e,
        pushed_as_oldest(q, RetentionPolicy::KeepAll, e).0.drop_first() == q,
{
    assert(q.push(e).drop_last() =~= q);
    assert(q.insert(0, e).drop_first() =~= q);
}

} // verus!

//! Checks and error handling of accessors: sets of buffer keys that are used
//! together.

use vstd::prelude::*;
use vstd::multiset::Multiset;

verus! {

broadcast use vstd::seq_lib::group_to_multiset_ensures;

/// A buffer instance: a buffer together with one of its sessions, both given
/// as entity ids.
#[derive(Debug, Clone, Copy, PartialEq, Eq, Structural)]
pub struct BufferInstanceId {
    pub buffer: u64,
    pub session: u64,
}

/// An accessor has more than one key for some buffer instances.
pub struct OverlapError {
    /// Each buffer instance with more than one key, with the number of keys
    /// it has, in the order the instances first appear.
    pub duplicates: Vec<(BufferInstanceId, usize)>,
}

/// A failure to access the buffers of an accessor; `B` is the error of
/// accessing a single buffer.
pub enum AccessError<B> {
    /// The accessor has keys that are not disjoint.
    NotDisjoint(OverlapError),
    /// Failed to access one of the buffers.
    Inaccessible(B),
    /// Multiple access errors occurred.
    Multiple(Vec<AccessError<B>>),
}

impl<B> AccessError<B> {
    /// Turn a list of access errors into a result: `Ok` for no error, the
    /// error itself for one, and all of them as [`AccessError::Multiple`] for
    /// more.
    pub fn from_list(errors: Vec<AccessError<B>>) -> (r: Result<(), AccessError<B>>)
        ensures
            errors@.len() == 0 ==> r is Ok,
            errors@.len() == 1 ==> r == Err::<(), AccessError<B>>(errors@[0]),
            errors@.len() > 1 ==> (r matches Err(AccessError::Multiple(list)) && list@ == errors@),
    {
        let mut errors = errors;
        if errors.len() > 1 {
            return Err(AccessError::Multiple(errors));
        }
        if let Some(error) = errors.pop() {
            return Err(error);
        }
        Ok(())
    }
}

/// The number of keys for instance `id` among `keys`.
pub open spec fn key_count(keys: Seq<BufferInstanceId>, id: BufferInstanceId) -> nat {
    keys.to_multiset().count(id)
}

/// `dups` lists exactly the instances with more than one key among `keys`,
/// each once, with its number of keys.
pub open spec fn lists_duplicates(
    keys: Seq<BufferInstanceId>,
    dups: Seq<(BufferInstanceId, usize)>,
) -> bool {
    &&& forall|j: int| 0 <= j < dups.len() ==> #[trigger] dups[j].1 == key_count(keys, dups[j].0)
        && dups[j].1 > 1
    &&& forall|id: BufferInstanceId| key_count(keys, id) > 1 ==> exists|j: int|
        0 <= j < dups.len() && #[trigger] dups[j].0 == id
    &&& forall|p: int, q: int| 0 <= p < q < dups.len() ==> dups[p].0 != dups[q].0
}

/// The first position of `id` among the instances of `counts`.
fn find_instance(counts: &Vec<(BufferInstanceId, usize)>, id: BufferInstanceId) -> (r: Option<usize>)
    ensures
        r is None ==> forall|j: int| 0 <= j < counts@.len() ==> counts@[j].0 != id,
        r matches Some(i) ==> i < counts@.len() && counts@[i as int].0 == id,
{
    let mut i: usize = 0;
    while i < counts.len()
        invariant
            i <= counts.len(),
            forall|j: int| 0 <= j < i ==> counts@[j].0 != id,
        decreases counts.len() - i,
    {
        if counts[i].0 == id {
            return Some(i);
        }
        i += 1;
    }
    None
}

/// Check that an accessor is disjoint: no buffer instance has more than one
/// of its keys. The same buffer may appear for different sessions.
pub fn is_disjoint(keys: &Vec<BufferInstanceId>) -> (r: Result<(), OverlapError>)
    ensures
        r is Ok <==> keys@.no_duplicates(),
        r matches Err(e) ==> lists_duplicates(keys@, e.duplicates@) && e.duplicates@.len() > 0,
{
    let mut counts: Vec<(BufferInstanceId, usize)> = Vec::new();
    let mut is_disjoint = true;
    let mut i: usize = 0;
    while i < keys.len()
        invariant
            i <= keys.len(),
            forall|j: int| 0 <= j < counts@.len() ==> #[trigger] counts@[j].1 == key_count(keys@.take(i as int), counts@[j].0)
                && counts@[j].1 >= 1,
            forall|id: BufferInstanceId| key_count(keys@.take(i as int), id) > 0 ==> exists|j: int|
                0 <= j < counts@.len() && #[trigger] counts@[j].0 == id,
            forall|p: int, q: int| 0 <= p < q < counts@.len() ==> counts@[p].0 != counts@[q].0,
            is_disjoint == keys@.take(i as int).no_duplicates(),
            counts@.len() <= i,
            forall|j: int| 0 <= j < counts@.len() ==> #[trigger] counts@[j].1 <= i,
        decreases keys.len() - i,
    {
        let key = keys[i];
        let ghost prev = keys@.take(i as int);
        assert(keys@.take(i + 1) =~= prev.push(key));
        let ghost prev_counts = counts@;
        let ghost mut pos: int = 0;
        match find_instance(&counts, key) {
            Some(k) => {
                let c = counts[k].1;
                assert(c == key_count(prev, key));
                assert(c <= i);
                counts.set(k, (key, c + 1));
                proof { pos = k as int; }
                is_disjoint = false;
                proof {
                    assert(prev.contains(key)) by {
                        assert(prev.to_multiset().count(key) > 0);
                    }
                    let m = choose|m: int| 0 <= m < prev.len() && prev[m] == key;
                    assert(keys@.take(i + 1)[m] == keys@.take(i + 1)[i as int]);
                }
            },
            None => {
                assert(key_count(prev, key) == 0);
                counts.push((key, 1));
                proof {
                    pos = prev_counts.len() as int;
                    if prev.no_duplicates() {
                        assert(keys@.take(i + 1).no_duplicates()) by {
                            assert forall|p: int, q: int| 0 <= p < q < i + 1 implies #[trigger] keys@.take(i + 1)[p] != #[trigger] keys@.take(i + 1)[q] by {
                                if q == i {
                                    if prev[p] == key {
                                        assert(prev.contains(key));
                                        assert(prev.to_multiset().count(key) > 0);
                                    }
                                }
                            }
                        }
                    } else {
                        let (p, q) = choose|p: int, q: int| 0 <= p < q < prev.len() && prev[p] == prev[q];
                        assert(keys@.take(i + 1)[p] == keys@.take(i + 1)[q]);
                    }
                }
            },
        }
        proof {
            let now = keys@.take(i + 1);
            assert(now.to_multiset() == prev.to_multiset().insert(key));
            assert(0 <= pos < counts@.len() && counts@[pos].0 == key);
            assert forall|j: int| 0 <= j < prev_counts.len() implies #[trigger] counts@[j].0 == prev_counts[j].0 by {}
            assert forall|id: BufferInstanceId| key_count(now, id) > 0 implies exists|j: int|
                0 <= j < counts@.len() && #[trigger] counts@[j].0 == id by {
                if id != key {
                    assert(key_count(prev, id) > 0);
                    let j = choose|j: int| 0 <= j < prev_counts.len() && #[trigger] prev_counts[j].0 == id;
                    assert(counts@[j].0 == id);
                } else {
                    assert(counts@[pos].0 == id);
                }
            }
        }
        i += 1;
    }
    assert(keys@.take(keys@.len() as int) =~= keys@);
    if is_disjoint {
        return Ok(());
    }
    let mut duplicates: Vec<(BufferInstanceId, usize)> = Vec::new();
    let mut k: usize = 0;
    while k < counts.len()
        invariant
            k <= counts.len(),
            forall|j: int| 0 <= j < counts@.len() ==> #[trigger] counts@[j].1 == key_count(keys@, counts@[j].0),
            forall|id: BufferInstanceId| key_count(keys@, id) > 0 ==> exists|j: int|
                0 <= j < counts@.len() && #[trigger] counts@[j].0 == id,
            forall|p: int, q: int| 0 <= p < q < counts@.len() ==> counts@[p].0 != counts@[q].0,
            forall|j: int| 0 <= j < duplicates@.len() ==> #[trigger] duplicates@[j].1 == key_count(keys@, duplicates@[j].0)
                && duplicates@[j].1 > 1,
            forall|j: int| #![trigger duplicates@[j]] 0 <= j < duplicates@.len() ==> exists|m: int| 0 <= m < k && #[trigger] counts@[m].0 == duplicates@[j].0,
            forall|m: int| 0 <= m < k && counts@[m].1 > 1 ==> exists|j: int|
                0 <= j < duplicates@.len() && #[trigger] duplicates@[j].0 == counts@[m].0,
            forall|p: int, q: int| 0 <= p < q < duplicates@.len() ==> duplicates@[p].0 != duplicates@[q].0,
        decreases counts.len() - k,
    {
        let entry = counts[k];
        if entry.1 > 1 {
            let ghost before = duplicates@;
            duplicates.push(entry);
            proof {
                assert forall|p: int, q: int| 0 <= p < q < duplicates@.len() implies duplicates@[p].0 != duplicates@[q].0 by {
                    if q == before.len() {
                        let m = choose|m: int| 0 <= m < k && #[trigger] counts@[m].0 == before[p].0;
                        assert(counts@[m].0 != counts@[k as int].0);
                    }
                }
                assert forall|j: int| #![trigger duplicates@[j]] 0 <= j < duplicates@.len() implies exists|m: int| 0 <= m < k + 1 && #[trigger] counts@[m].0 == duplicates@[j].0 by {
                    if j == before.len() {
                        assert(counts@[k as int].0 == duplicates@[j].0);
                    } else {
                        let m = choose|m: int| 0 <= m < k && #[trigger] counts@[m].0 == before[j].0;
                        assert(counts@[m].0 == duplicates@[j].0);
                    }
                }
                assert forall|m: int| 0 <= m < k + 1 && counts@[m].1 > 1 implies exists|j: int|
                    0 <= j < duplicates@.len() && #[trigger] duplicates@[j].0 == counts@[m].0 by {
                    if m == k {
                        assert(duplicates@[before.len() as int].0 == counts@[m].0);
                    } else {
                        let j = choose|j: int| 0 <= j < before.len() && #[trigger] before[j].0 == counts@[m].0;
                        assert(duplicates@[j].0 == counts@[m].0);
                    }
                }
            }
        }
        k += 1;
    }
    proof {
        assert forall|id: BufferInstanceId| key_count(keys@, id) > 1 implies exists|j: int|
            0 <= j < duplicates@.len() && #[trigger] duplicates@[j].0 == id by {
            let m = choose|m: int| 0 <= m < counts@.len() && #[trigger] counts@[m].0 == id;
            assert(counts@[m].1 > 1);
        }
        let (p, q) = choose|p: int, q: int| 0 <= p < q < keys@.len() && keys@[p] == keys@[q];
        lemma_repeated_counts_twice(keys@, p, q);
        let id = keys@[p];
        let j = choose|j: int| 0 <= j < duplicates@.len() && #[trigger] duplicates@[j].0 == id;
    }
    Err(OverlapError { duplicates })
}

/// An instance that occurs at two positions is counted at least twice.
proof fn lemma_repeated_counts_twice(keys: Seq<BufferInstanceId>, p: int, q: int)
    requires
        0 <= p < q < keys.len(),
        keys[p] == keys[q],
    ensures
        key_count(keys, keys[p]) > 1,
{
    let id = keys[p];
    let without = keys.remove(q);
    assert(without[p] == id);
    assert(without.contains(id));
    assert(without.to_multiset().count(id) > 0);
    assert(keys.to_multiset().remove(keys[q]) == without.to_multiset());
}

/// The errors among `results`, in order.
pub open spec fn errors_in<T, B>(results: Seq<Result<Option<T>, AccessError<B>>>) -> Seq<AccessError<B>>
    decreases results.len(),
{
    if results.len() == 0 {
        Seq::empty()
    } else {
        let rest = errors_in(results.drop_last());
        match results.last() {
            Err(e) => rest.push(e),
            Ok(_) => rest,
        }
    }
}

/// The values among `results`, in order.
pub open spec fn values_in<T, B>(results: Seq<Result<Option<T>, AccessError<B>>>) -> Seq<T>
    decreases results.len(),
{
    if results.len() == 0 {
        Seq::empty()
    } else {
        let rest = values_in(results.drop_last());
        match results.last() {
            Ok(Some(v)) => rest.push(v),
            _ => rest,
        }
    }
}

/// Some key had nothing to give.
pub open spec fn has_empty<T, B>(results: Seq<Result<Option<T>, AccessError<B>>>) -> bool {
    exists|k: int| 0 <= k < results.len() && #[trigger] results[k] matches Ok(None)
}

/// Join the values fetched from the keys of an accessor, in order: a key that
/// had nothing to give makes the join give nothing; otherwise the values are
/// collected, and the keys that failed make the join fail as
/// [`AccessError::from_list`] combines their errors.
pub fn join_results<T, B>(results: Vec<Result<Option<T>, AccessError<B>>>) -> (r: Result<
    Option<Vec<T>>,
    AccessError<B>,
>)
    ensures
        has_empty(results@) ==> r matches Ok(None),
        !has_empty(results@) ==> {
            let errs = errors_in(results@);
            &&& errs.len() == 0 ==> (r matches Ok(Some(v)) && v@ == values_in(results@))
            &&& errs.len() == 1 ==> r == Err::<Option<Vec<T>>, AccessError<B>>(errs[0])
            &&& errs.len() > 1 ==> (r matches Err(AccessError::Multiple(list)) && list@ == errs)
        },
{
    let ghost all = results@;
    let mut pending = results;
    let mut errors: Vec<AccessError<B>> = Vec::new();
    let mut fetched: Vec<T> = Vec::new();
    let mut i: usize = 0;
    let n = pending.len();
    while i < n
        invariant
            all == results@,
            n == all.len(),
            i <= n,
            pending@ == all.subrange(i as int, n as int),
            errors@ == errors_in(all.take(i as int)),
            fetched@ == values_in(all.take(i as int)),
            !has_empty(all.take(i as int)),
        decreases n - i,
    {
        let x = pending.remove(0);
        assert(x == all[i as int]);
        assert(all.take(i + 1).drop_last() =~= all.take(i as int));
        assert(pending@ =~= all.subrange(i + 1, n as int));
        match x {
            Ok(Some(v)) => {
                fetched.push(v);
            },
            Ok(None) => {
                assert(all[i as int] matches Ok(None));
                assert(has_empty(all));
                return Ok(None);
            },
            Err(e) => {
                errors.push(e);
            },
        }
        proof {
            assert forall|k: int| 0 <= k < i + 1 implies !(#[trigger] all.take(i + 1)[k] matches Ok(None)) by {
                if k < i {
                    assert(all.take(i + 1)[k] == all.take(i as int)[k]);
                }
            }
        }
        i += 1;
    }
    assert(all.take(n as int) =~= all);
    match AccessError::from_list(errors) {
        Ok(()) => Ok(Some(fetched)),
        Err(e) => Err(e),
    }
}

} // verus!

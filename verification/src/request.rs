//! Identity of a request: the session it belongs to and the operation that
//! received it.

use vstd::prelude::*;

verus! {

/// A request, known by its session and by the operation (its source) that
/// holds it. Both are entity ids given as integers.
#[derive(Debug, Clone, Copy, PartialEq, Eq, Structural)]
pub struct RequestId {
    pub session: u64,
    pub source: u64,
}

/// The first position of `id` in `v`, if any.
pub fn position_of(v: &Vec<RequestId>, id: RequestId) -> (r: Option<usize>)
    ensures
        r is None ==> !v@.contains(id),
        r matches Some(i) ==> i < v@.len() && v@[i as int] == id && forall|j: int|
            0 <= j < i ==> v@[j] != id,
{
    let mut i: usize = 0;
    while i < v.len()
        invariant
            i <= v.len(),
            forall|j: int| 0 <= j < i ==> v@[j] != id,
        decreases v.len() - i,
    {
        if v[i] == id {
            return Some(i);
        }
        i += 1;
    }
    None
}

} // verus!

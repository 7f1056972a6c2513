//! A range of buffer positions given by a start bound and an end bound.

use vstd::prelude::*;

verus! {

/// One end of a range.
#[derive(Debug, Clone, Copy, PartialEq, Eq, Structural)]
pub enum Bound<T> {
    /// The end is part of the range.
    Included(T),
    /// The end is not part of the range.
    Excluded(T),
    /// The range does not end on this side.
    Unbounded,
}

/// Copy the value out of a bound on a borrowed value.
pub fn deref_bound(bound: Bound<&usize>) -> (r: Bound<usize>)
    ensures
        r == match bound {
            Bound::Included(v) => Bound::Included(*v),
            Bound::Excluded(v) => Bound::Excluded(*v),
            Bound::Unbounded => Bound::<usize>::Unbounded,
        },
{
    match bound {
        Bound::Included(v) => Bound::Included(*v),
        Bound::Excluded(v) => Bound::Excluded(*v),
        Bound::Unbounded => Bound::Unbounded,
    }
}

/// A range of `usize` positions.
pub struct AnyRange {
    start_bound: Bound<usize>,
    end_bound: Bound<usize>,
}

impl AnyRange {
    pub closed spec fn spec_start_bound(&self) -> Bound<usize> {
        self.start_bound
    }

    pub closed spec fn spec_end_bound(&self) -> Bound<usize> {
        self.end_bound
    }

    /// Whether position `i` lies within the range.
    pub open spec fn admits(&self, i: int) -> bool {
        &&& match self.spec_start_bound() {
            Bound::Included(lower) => lower <= i,
            Bound::Excluded(lower) => lower < i,
            Bound::Unbounded => true,
        }
        &&& match self.spec_end_bound() {
            Bound::Included(upper) => i <= upper,
            Bound::Excluded(upper) => i < upper,
            Bound::Unbounded => true,
        }
    }

    /// The first position of the range, for a sequence of any length.
    pub open spec fn first_index(&self) -> int {
        match self.spec_start_bound() {
            Bound::Included(lower) => lower as int,
            Bound::Excluded(lower) => lower + 1,
            Bound::Unbounded => 0,
        }
    }

    /// One past the last position of the range, within a sequence of length `len`.
    pub open spec fn end_index(&self, len: int) -> int {
        match self.spec_end_bound() {
            Bound::Included(upper) => upper + 1,
            Bound::Excluded(upper) => upper as int,
            Bound::Unbounded => len,
        }
    }

    /// The range fits a sequence of length `len`: it starts no later than it
    /// ends, and ends within the sequence.
    pub open spec fn fits(&self, len: int) -> bool {
        0 <= self.first_index() <= self.end_index(len) <= len
    }

    /// The range between two borrowed bounds.
    pub fn new(start_bound: Bound<&usize>, end_bound: Bound<&usize>) -> (r: Self)
        ensures
            r.spec_start_bound() == deref_bound_spec(start_bound),
            r.spec_end_bound() == deref_bound_spec(end_bound),
    {
        AnyRange { start_bound: deref_bound(start_bound), end_bound: deref_bound(end_bound) }
    }

    /// The start bound of the range.
    pub fn start_bound(&self) -> (r: Bound<usize>)
        ensures
            r == self.spec_start_bound(),
    {
        self.start_bound
    }

    /// The end bound of the range.
    pub fn end_bound(&self) -> (r: Bound<usize>)
        ensures
            r == self.spec_end_bound(),
    {
        self.end_bound
    }

    /// Whether `item` lies within the range.
    pub fn contains(&self, item: usize) -> (b: bool)
        ensures
            b == self.admits(item as int),
    {
        match self.start_bound {
            Bound::Excluded(lower) => {
                if item <= lower {
                    return false;
                }
            },
            Bound::Included(lower) => {
                if item < lower {
                    return false;
                }
            },
            _ => {},
        }
        match self.end_bound {
            Bound::Excluded(upper) => {
                if upper <= item {
                    return false;
                }
            },
            Bound::Included(upper) => {
                if upper < item {
                    return false;
                }
            },
            _ => {},
        }
        return true;
    }

    /// The positions `[first, end)` that the range covers within a sequence of
    /// length `len`, where it fits.
    pub fn indices(&self, len: usize) -> (r: (usize, usize))
        requires
            self.fits(len as int),
        ensures
            r.0 == self.first_index(),
            r.1 == self.end_index(len as int),
    {
        let first = match self.start_bound {
            Bound::Included(lower) => lower,
            Bound::Excluded(lower) => lower + 1,
            Bound::Unbounded => 0,
        };
        let end = match self.end_bound {
            Bound::Included(upper) => upper + 1,
            Bound::Excluded(upper) => upper,
            Bound::Unbounded => len,
        };
        (first, end)
    }
}

/// The value-bound that [`deref_bound`] gives.
pub open spec fn deref_bound_spec(bound: Bound<&usize>) -> Bound<usize> {
    match bound {
        Bound::Included(v) => Bound::Included(*v),
        Bound::Excluded(v) => Bound::Excluded(*v),
        Bound::Unbounded => Bound::<usize>::Unbounded,
    }
}

/// A position of a sequence that the range fits lies in the range exactly
/// when it lies between the first and end indices that a drain takes.
pub proof fn law_range_admits_its_indices(r: &AnyRange, len: int, i: int)
    requires
        r.fits(len),
        0 <= i < len,
    ensures
        r.admits(i) <==> r.first_index() <= i < r.end_index(len),
{
}

} // verus!

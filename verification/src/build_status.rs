//! Whether an operation of a diagram has finished building.

use vstd::prelude::*;

verus! {

/// Indicate whether the operation has finished building. A deferral carries
/// the reason, of type `R`, why the operation could not finish yet.
#[derive(Debug, Clone)]
pub enum BuildStatus<R> {
    /// The operation has finished building.
    Finished,
    /// The operation needs to make another attempt at building after more
    /// information becomes available.
    Defer {
        /// Progress was made during this run. If no operation makes any
        /// progress within an entire iteration of the build, the diagram
        /// cannot be built.
        progress: bool,
        reason: R,
    },
}

impl<R> BuildStatus<R> {
    /// Indicate that the build of the operation needs to be deferred.
    pub fn defer(reason: R) -> (s: Self)
        ensures
            s == (BuildStatus::Defer { progress: false, reason }),
    {
        BuildStatus::Defer { progress: false, reason }
    }

    /// Indicate that the operation made progress, even if it's deferred.
    pub fn with_progress(self) -> (s: Self)
        ensures
            s == progressed(self),
    {
        match self {
            BuildStatus::Defer { reason, .. } => BuildStatus::Defer { progress: true, reason },
            BuildStatus::Finished => BuildStatus::Finished,
        }
    }

    /// Did this operation make progress on this round? A finished operation
    /// did.
    pub fn made_progress(&self) -> (b: bool)
        ensures
            b == shows_progress(*self),
    {
        match self {
            BuildStatus::Defer { progress, .. } => *progress,
            BuildStatus::Finished => true,
        }
    }

    /// Change this build status into its reason for deferral, if it is a
    /// deferral.
    pub fn into_deferral_reason(self) -> (r: Option<R>)
        ensures
            r == deferral_reason(self),
    {
        match self {
            BuildStatus::Defer { reason, .. } => Some(reason),
            BuildStatus::Finished => None,
        }
    }

    /// Check if the build finished.
    pub fn is_finished(&self) -> (b: bool)
        ensures
            b == (*self is Finished),
    {
        match self {
            BuildStatus::Finished => true,
            BuildStatus::Defer { .. } => false,
        }
    }
}

/// The status after marking progress.
pub open spec fn progressed<R>(s: BuildStatus<R>) -> BuildStatus<R> {
    match s {
        BuildStatus::Defer { reason, .. } => BuildStatus::Defer { progress: true, reason },
        BuildStatus::Finished => BuildStatus::Finished,
    }
}

/// Whether a status counts as progress.
pub open spec fn shows_progress<R>(s: BuildStatus<R>) -> bool {
    match s {
        BuildStatus::Defer { progress, .. } => progress,
        BuildStatus::Finished => true,
    }
}

/// The reason of a deferral, if the status is one.
pub open spec fn deferral_reason<R>(s: BuildStatus<R>) -> Option<R> {
    match s {
        BuildStatus::Defer { reason, .. } => Some(reason),
        BuildStatus::Finished => None,
    }
}

/// Marking progress always makes a status count as progress, keeps whether
/// it is finished and keeps the reason of a deferral; marking it twice is the
/// same as marking it once.
pub proof fn law_with_progress<R>(s: BuildStatus<R>)
    ensures
        shows_progress(progressed(s)),
        (progressed(s) is Finished) == (s is Finished),
        deferral_reason(progressed(s)) == deferral_reason(s),
        progressed(progressed(s)) == progressed(s),
{
}

} // verus!

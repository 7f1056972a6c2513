//! Markers that tell apart the kinds of callbacks by the form of their
//! function.

use vstd::prelude::*;
use std::marker::PhantomData;

verus! {

/// Marks a blocking callback.
pub struct BlockingCallbackMarker<M>(pub PhantomData<M>);

/// Marks an async callback.
pub struct AsyncCallbackMarker<M>(pub PhantomData<M>);

/// Marks a blocking map callback.
pub struct BlockingMapCallbackMarker<M>(pub PhantomData<M>);

/// Marks an async map callback.
pub struct AsyncMapCallbackMarker<M>(pub PhantomData<M>);

} // verus!

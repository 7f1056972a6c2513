//! Output ports: short lists of identifiers that name an output of an
//! operation, such as `["next"]` or `["stream_out", "log"]`.

use vstd::prelude::*;
use crate::identifier::{IdentifierRef, IdentifierView};

verus! {

/// A port named by a single name.
pub fn name_str(name: &str) -> (r: [IdentifierRef; 1])
    ensures
        r@[0]@ == IdentifierView::Name(name@),
{
    [IdentifierRef::name_str(name)]
}

/// A port named by a name followed by a second name.
fn name_pair(first: &str, second: &str) -> (r: [IdentifierRef; 2])
    ensures
        r@[0]@ == IdentifierView::Name(first@),
        r@[1]@ == IdentifierView::Name(second@),
{
    [IdentifierRef::name_str(first), IdentifierRef::name_str(second)]
}

/// A port named by a name followed by an index.
fn name_index(first: &str, index: usize) -> (r: [IdentifierRef; 2])
    ensures
        r@[0]@ == IdentifierView::Name(first@),
        r@[1]@ == IdentifierView::Index(index),
{
    [IdentifierRef::name_str(first), IdentifierRef::Index(index)]
}

/// Get the output port for the next operation.
pub fn next() -> (r: [IdentifierRef; 1])
    ensures
        r@[0]@ == IdentifierView::Name("next"@),
{
    name_str("next")
}

/// The port that cancels.
pub fn cancel() -> (r: [IdentifierRef; 1])
    ensures
        r@[0]@ == IdentifierView::Name("cancel"@),
{
    name_str("cancel")
}

/// The port that disposes.
pub fn dispose() -> (r: [IdentifierRef; 1])
    ensures
        r@[0]@ == IdentifierView::Name("dispose"@),
{
    name_str("dispose")
}

/// The port for an `Ok` result.
pub fn ok() -> (r: [IdentifierRef; 1])
    ensures
        r@[0]@ == IdentifierView::Name("ok"@),
{
    name_str("ok")
}

/// The port for an `Err` result.
pub fn err() -> (r: [IdentifierRef; 1])
    ensures
        r@[0]@ == IdentifierView::Name("err"@),
{
    name_str("err")
}

/// The port that listens to buffers.
pub fn listen() -> (r: [IdentifierRef; 1])
    ensures
        r@[0]@ == IdentifierView::Name("listen"@),
{
    name_str("listen")
}

/// The port that starts a workflow.
pub fn start() -> (r: [IdentifierRef; 1])
    ensures
        r@[0]@ == IdentifierView::Name("start"@),
{
    name_str("start")
}

/// The port that begins cleanup.
pub fn begin_cleanup() -> (r: [IdentifierRef; 1])
    ensures
        r@[0]@ == IdentifierView::Name("begin_cleanup"@),
{
    name_str("begin_cleanup")
}

/// The port for the remaining items.
pub fn remaining() -> (r: [IdentifierRef; 1])
    ensures
        r@[0]@ == IdentifierView::Name("remaining"@),
{
    name_str("remaining")
}

/// The port of a named output stream.
pub fn stream_out(stream: &str) -> (r: [IdentifierRef; 2])
    ensures
        r@[0]@ == IdentifierView::Name("stream_out"@),
        r@[1]@ == IdentifierView::Name(stream@),
{
    name_pair("stream_out", stream)
}

/// The port of an output stream known by its message type.
pub fn anonymous_stream(message_type: &str) -> (r: [IdentifierRef; 2])
    ensures
        r@[0]@ == IdentifierView::Name("anonymous_stream"@),
        r@[1]@ == IdentifierView::Name(message_type@),
{
    name_pair("anonymous_stream", message_type)
}

/// The port for a key.
pub fn keyed(key: &str) -> (r: [IdentifierRef; 2])
    ensures
        r@[0]@ == IdentifierView::Name("keyed"@),
        r@[1]@ == IdentifierView::Name(key@),
{
    name_pair("keyed", key)
}

/// The `index`-th next port.
pub fn next_index(index: usize) -> (r: [IdentifierRef; 2])
    ensures
        r@[0]@ == IdentifierView::Name("next"@),
        r@[1]@ == IdentifierView::Index(index),
{
    name_index("next", index)
}

/// The `index`-th sequential port.
pub fn sequential(index: usize) -> (r: [IdentifierRef; 2])
    ensures
        r@[0]@ == IdentifierView::Name("sequential"@),
        r@[1]@ == IdentifierView::Index(index),
{
    name_index("sequential", index)
}

} // verus!

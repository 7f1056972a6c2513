//! Metadata of the operations that a registered message type supports, as it
//! is shown to users of the diagram registry.
//!
//! Message types are known by their index in the registry. Layout hints of
//! join and listen operations, and buffer access metadata, are held in their
//! JSON form.

use vstd::prelude::*;
use std::collections::HashSet;
use crate::constraints::{MessageOperations, MessageRegistrations};

verus! {

/// An empty JSON object: the marker that an operation is supported.
#[derive(Debug, Clone, Copy, PartialEq, Eq, Structural)]
pub struct JsEmptyObject;

/// Which operations a message type supports, and with which other message
/// types.
pub struct MessageOperationsMetadata {
    deserialize: Option<JsEmptyObject>,
    serialize: Option<JsEmptyObject>,
    into_script_message: Option<JsEmptyObject>,
    from_script_message: Option<JsEmptyObject>,
    fork_clone: Option<JsEmptyObject>,
    unzip: Option<Vec<usize>>,
    fork_result: Option<[usize; 2]>,
    split: Option<usize>,
    join: Option<serde_json::Value>,
    buffer_access: Option<serde_json::Value>,
    listen: Option<serde_json::Value>,
    into: HashSet<usize>,
    try_into: HashSet<usize>,
    from: HashSet<usize>,
    try_from: HashSet<usize>,
}

/// The marker for a supported operation.
pub open spec fn marker(supported: bool) -> Option<JsEmptyObject> {
    if supported {
        Some(JsEmptyObject)
    } else {
        None
    }
}

fn make_marker(supported: bool) -> (r: Option<JsEmptyObject>)
    ensures
        r == marker(supported),
{
    if supported {
        Some(JsEmptyObject)
    } else {
        None
    }
}

/// What operations a message type supports.
pub struct SupportedOperations {
    pub deserialize: bool,
    pub serialize: bool,
    pub into_script_message: bool,
    pub from_script_message: bool,
    pub fork_clone: bool,
}

impl MessageOperationsMetadata {
    pub closed spec fn spec_deserialize(&self) -> Option<JsEmptyObject> { self.deserialize }
    pub closed spec fn spec_serialize(&self) -> Option<JsEmptyObject> { self.serialize }
    pub closed spec fn spec_into_script_message(&self) -> Option<JsEmptyObject> { self.into_script_message }
    pub closed spec fn spec_from_script_message(&self) -> Option<JsEmptyObject> { self.from_script_message }
    pub closed spec fn spec_fork_clone(&self) -> Option<JsEmptyObject> { self.fork_clone }
    pub closed spec fn spec_unzip(&self) -> Option<Vec<usize>> { self.unzip }
    pub closed spec fn spec_fork_result(&self) -> Option<[usize; 2]> { self.fork_result }
    pub closed spec fn spec_split(&self) -> Option<usize> { self.split }
    pub closed spec fn spec_join(&self) -> Option<serde_json::Value> { self.join }
    pub closed spec fn spec_buffer_access(&self) -> Option<serde_json::Value> { self.buffer_access }
    pub closed spec fn spec_listen(&self) -> Option<serde_json::Value> { self.listen }
    pub closed spec fn spec_into(&self) -> Set<usize> { self.into@ }
    pub closed spec fn spec_try_into(&self) -> Set<usize> { self.try_into@ }
    pub closed spec fn spec_from(&self) -> Set<usize> { self.from@ }
    pub closed spec fn spec_try_from(&self) -> Set<usize> { self.try_from@ }

    /// The metadata of a message type from what it supports.
    pub fn new(
        supported: SupportedOperations,
        unzip: Option<Vec<usize>>,
        fork_result: Option<[usize; 2]>,
        split: Option<usize>,
        join: Option<serde_json::Value>,
        buffer_access: Option<serde_json::Value>,
        listen: Option<serde_json::Value>,
        into: HashSet<usize>,
        try_into: HashSet<usize>,
        from: HashSet<usize>,
        try_from: HashSet<usize>,
    ) -> (m: Self)
        ensures
            m.spec_deserialize() == marker(supported.deserialize),
            m.spec_serialize() == marker(supported.serialize),
            m.spec_into_script_message() == marker(supported.into_script_message),
            m.spec_from_script_message() == marker(supported.from_script_message),
            m.spec_fork_clone() == marker(supported.fork_clone),
            m.spec_unzip() == unzip,
            m.spec_fork_result() == fork_result,
            m.spec_split() == split,
            m.spec_join() == join,
            m.spec_buffer_access() == buffer_access,
            m.spec_listen() == listen,
            m.spec_into() == into@,
            m.spec_try_into() == try_into@,
            m.spec_from() == from@,
            m.spec_try_from() == try_from@,
    {
        MessageOperationsMetadata {
            deserialize: make_marker(supported.deserialize),
            serialize: make_marker(supported.serialize),
            into_script_message: make_marker(supported.into_script_message),
            from_script_message: make_marker(supported.from_script_message),
            fork_clone: make_marker(supported.fork_clone),
            unzip,
            fork_result,
            split,
            join,
            buffer_access,
            listen,
            into,
            try_into,
            from,
            try_from,
        }
    }

    pub fn can_deserialize(&self) -> (b: bool)
        ensures b == self.spec_deserialize() is Some,
    {
        self.deserialize.is_some()
    }

    pub fn can_serialize(&self) -> (b: bool)
        ensures b == self.spec_serialize() is Some,
    {
        self.serialize.is_some()
    }

    pub fn into_script_message(&self) -> (b: bool)
        ensures b == self.spec_into_script_message() is Some,
    {
        self.into_script_message.is_some()
    }

    pub fn from_script_message(&self) -> (b: bool)
        ensures b == self.spec_from_script_message() is Some,
    {
        self.from_script_message.is_some()
    }

    pub fn can_fork_clone(&self) -> (b: bool)
        ensures b == self.spec_fork_clone() is Some,
    {
        self.fork_clone.is_some()
    }

    pub fn unzip(&self) -> (r: &Option<Vec<usize>>)
        ensures *r == self.spec_unzip(),
    {
        &self.unzip
    }

    pub fn fork_result(&self) -> (r: &Option<[usize; 2]>)
        ensures *r == self.spec_fork_result(),
    {
        &self.fork_result
    }

    pub fn split_output(&self) -> (r: &Option<usize>)
        ensures *r == self.spec_split(),
    {
        &self.split
    }

    pub fn join(&self) -> (r: &Option<serde_json::Value>)
        ensures *r == self.spec_join(),
    {
        &self.join
    }

    pub fn buffer_access(&self) -> (r: &Option<serde_json::Value>)
        ensures *r == self.spec_buffer_access(),
    {
        &self.buffer_access
    }

    pub fn listen(&self) -> (r: &Option<serde_json::Value>)
        ensures *r == self.spec_listen(),
    {
        &self.listen
    }

    pub fn into_messages(&self) -> (r: &HashSet<usize>)
        ensures r@ == self.spec_into(),
    {
        &self.into
    }

    pub fn try_into_messages(&self) -> (r: &HashSet<usize>)
        ensures r@ == self.spec_try_into(),
    {
        &self.try_into
    }

    pub fn from_messages(&self) -> (r: &HashSet<usize>)
        ensures r@ == self.spec_from(),
    {
        &self.from
    }

    pub fn try_from_messages(&self) -> (r: &HashSet<usize>)
        ensures r@ == self.spec_try_from(),
    {
        &self.try_from
    }
}

/// The registered name, schema and operations of a message type.
pub struct MessageMetadata {
    message_type_name: String,
    schema: Option<serde_json::Value>,
    operations: Option<MessageOperationsMetadata>,
}

impl MessageMetadata {
    pub closed spec fn spec_message_type_name(&self) -> Seq<char> { self.message_type_name@ }
    pub closed spec fn spec_schema(&self) -> Option<serde_json::Value> { self.schema }
    pub closed spec fn spec_operations(&self) -> Option<MessageOperationsMetadata> { self.operations }

    /// The metadata of a message type.
    pub fn new(
        message_type_name: String,
        schema: Option<serde_json::Value>,
        operations: Option<MessageOperationsMetadata>,
    ) -> (m: Self)
        ensures
            m.spec_message_type_name() == message_type_name@,
            m.spec_schema() == schema,
            m.spec_operations() == operations,
    {
        MessageMetadata { message_type_name, schema, operations }
    }

    pub fn message_type_name(&self) -> (r: &String)
        ensures r@ == self.spec_message_type_name(),
    {
        &self.message_type_name
    }

    pub fn schema(&self) -> (r: &Option<serde_json::Value>)
        ensures *r == self.spec_schema(),
    {
        &self.schema
    }

    pub fn operations(&self) -> (r: &Option<MessageOperationsMetadata>)
        ensures *r == self.spec_operations(),
    {
        &self.operations
    }
}


/// A message with operations `ops` can be turned into a script message: it
/// converts into the script message type (`script_index`, if registered),
/// or it accesses buffers with a request that can be serialized, or it is
/// made of buffer keys that listen, or it can be serialized itself.
pub open spec fn into_script_supported(ops: MessageOperations, registrations: &MessageRegistrations, script_index: Option<usize>) -> bool {
    ||| (script_index matches Some(s) && (ops.into_impls@.contains(s) || ops.try_into_impls@.contains(s)))
    ||| (ops.buffer_access matches Some(req) && registrations.registered(req) && registrations.ops(req).serialize)
    ||| ops.listen
    ||| ops.serialize
}

/// A message with operations `ops` can be made from a script message: it
/// converts from the script message type, or it accesses buffers with a
/// request that can be deserialized, or it is made of buffer keys that
/// listen, or it can be deserialized itself.
pub open spec fn from_script_supported(ops: MessageOperations, registrations: &MessageRegistrations, script_index: Option<usize>) -> bool {
    ||| (script_index matches Some(s) && (ops.from_impls@.contains(s) || ops.try_from_impls@.contains(s)))
    ||| (ops.buffer_access matches Some(req) && registrations.registered(req) && registrations.ops(req).deserialize)
    ||| ops.listen
    ||| ops.deserialize
}

/// Whether the request message `req` of a buffer access is registered with
/// operations that can serialize (`serialize`) or deserialize it.
fn request_supports(registrations: &MessageRegistrations, req: usize, serialize: bool) -> (b: bool)
    ensures
        b == (registrations.registered(req) && if serialize {
            registrations.ops(req).serialize
        } else {
            registrations.ops(req).deserialize
        }),
{
    if req < registrations.operations.len() {
        match &registrations.operations[req] {
            Some(ops) => if serialize {
                ops.serialize
            } else {
                ops.deserialize
            },
            None => false,
        }
    } else {
        false
    }
}

impl MessageOperations {
    /// Whether this message can be turned into a script message, where
    /// `script_index` is the index of the script message type, if it is
    /// registered.
    pub fn supports_into_script_message(&self, registrations: &MessageRegistrations, script_index: Option<usize>) -> (b: bool)
        ensures
            b == into_script_supported(*self, registrations, script_index),
    {
        if let Some(s) = script_index {
            if self.into_impls.contains(&s) {
                return true;
            }
            if self.try_into_impls.contains(&s) {
                return true;
            }
        }
        if let Some(req) = self.buffer_access {
            if request_supports(registrations, req, true) {
                return true;
            }
        }
        if self.listen {
            return true;
        }
        self.serialize
    }

    /// Whether this message can be made from a script message, where
    /// `script_index` is the index of the script message type, if it is
    /// registered.
    pub fn supports_from_script_message(&self, registrations: &MessageRegistrations, script_index: Option<usize>) -> (b: bool)
        ensures
            b == from_script_supported(*self, registrations, script_index),
    {
        if let Some(s) = script_index {
            if self.from_impls.contains(&s) {
                return true;
            }
            if self.try_from_impls.contains(&s) {
                return true;
            }
        }
        if let Some(req) = self.buffer_access {
            if request_supports(registrations, req, false) {
                return true;
            }
        }
        if self.listen {
            return true;
        }
        self.deserialize
    }

    /// The operations of this message as its metadata shows them.
    pub fn supported(&self, registrations: &MessageRegistrations, script_index: Option<usize>) -> (s: SupportedOperations)
        ensures
            s.deserialize == self.deserialize,
            s.serialize == self.serialize,
            s.into_script_message == into_script_supported(*self, registrations, script_index),
            s.from_script_message == from_script_supported(*self, registrations, script_index),
            s.fork_clone == self.fork_clone,
    {
        SupportedOperations {
            deserialize: self.deserialize,
            serialize: self.serialize,
            into_script_message: self.supports_into_script_message(registrations, script_index),
            from_script_message: self.supports_from_script_message(registrations, script_index),
            fork_clone: self.fork_clone,
        }
    }
}

} // verus!

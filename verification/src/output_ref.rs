//! References to the outputs of diagram operations.

use vstd::prelude::*;
use crate::identifier::IdentifierView;

verus! {

/// One element of an output key: a name or an index.
#[derive(Debug)]
pub enum NameOrIndex {
    Name(String),
    Index(usize),
}

impl View for NameOrIndex {
    type V = IdentifierView;

    open spec fn view(&self) -> IdentifierView {
        match self {
            NameOrIndex::Name(name) => IdentifierView::Name(name@),
            NameOrIndex::Index(index) => IdentifierView::Index(*index),
        }
    }
}

/// A key that uniquely identifies a specific output of an operation, such as
/// `["next"]`, `["stream_out", "log"]` or `["next", 0]`.
pub struct OutputKey(pub Vec<NameOrIndex>);

impl OutputKey {
    /// The elements of the key.
    pub open spec fn elements(&self) -> Seq<IdentifierView> {
        self.0@.map_values(|e: NameOrIndex| e@)
    }
}

/// A named output of an operation: the namespaces of its operation, the name
/// of its operation within them, and the key of the output.
pub struct NamedOutputRef {
    /// Names that uniquely identify the scope of the output's operation
    pub namespaces: Vec<String>,
    /// The name of the output's operation within the scope of the namespaces
    pub operation: String,
    /// The unique key of the output within its operation
    pub key: OutputKey,
}

/// Builds references to the outputs of one operation.
pub struct NamedOutputBuilder {
    operation: String,
}

/// Start building a reference to an output of `operation`.
pub fn output_ref(operation: &String) -> (b: NamedOutputBuilder)
    ensures
        b.operation() == operation@,
{
    NamedOutputBuilder { operation: operation.clone() }
}

fn name(s: &str) -> (r: NameOrIndex)
    ensures
        r@ == IdentifierView::Name(s@),
{
    NameOrIndex::Name(s.to_owned())
}

fn key1(a: NameOrIndex) -> (k: OutputKey)
    ensures
        k.elements() == seq![a@],
{
    let k = OutputKey(vec![a]);
    assert(k.elements() =~= seq![a@]);
    k
}

fn key2(a: NameOrIndex, b: NameOrIndex) -> (k: OutputKey)
    ensures
        k.elements() == seq![a@, b@],
{
    let k = OutputKey(vec![a, b]);
    assert(k.elements() =~= seq![a@, b@]);
    k
}

impl NamedOutputBuilder {
    /// The name of the operation whose outputs this builds.
    pub closed spec fn operation(&self) -> Seq<char> {
        self.operation@
    }

    /// The output with the given key, in no namespace.
    pub fn key(self, key: OutputKey) -> (r: NamedOutputRef)
        ensures
            r.namespaces@.len() == 0,
            r.operation@ == self.operation(),
            r.key == key,
    {
        NamedOutputRef { namespaces: Vec::new(), operation: self.operation, key }
    }

    /// The `next` output.
    pub fn next(self) -> (r: NamedOutputRef)
        ensures
            r.namespaces@.len() == 0,
            r.operation@ == self.operation(),
            r.key.elements() == seq![IdentifierView::Name("next"@)],
    {
        self.key(key1(name("next")))
    }

    /// The `ok` output.
    pub fn ok(self) -> (r: NamedOutputRef)
        ensures
            r.namespaces@.len() == 0,
            r.operation@ == self.operation(),
            r.key.elements() == seq![IdentifierView::Name("ok"@)],
    {
        self.key(key1(name("ok")))
    }

    /// The `err` output.
    pub fn err(self) -> (r: NamedOutputRef)
        ensures
            r.namespaces@.len() == 0,
            r.operation@ == self.operation(),
            r.key.elements() == seq![IdentifierView::Name("err"@)],
    {
        self.key(key1(name("err")))
    }

    /// The `remaining` output.
    pub fn remaining(self) -> (r: NamedOutputRef)
        ensures
            r.namespaces@.len() == 0,
            r.operation@ == self.operation(),
            r.key.elements() == seq![IdentifierView::Name("remaining"@)],
    {
        self.key(key1(name("remaining")))
    }

    /// The `stream_out` output for `stream`.
    pub fn stream_out(self, stream: &str) -> (r: NamedOutputRef)
        ensures
            r.namespaces@.len() == 0,
            r.operation@ == self.operation(),
            r.key.elements() == seq![IdentifierView::Name("stream_out"@), IdentifierView::Name(stream@)],
    {
        self.key(key2(name("stream_out"), name(stream)))
    }

    /// The `keyed` output for `key`.
    pub fn keyed(self, key: &str) -> (r: NamedOutputRef)
        ensures
            r.namespaces@.len() == 0,
            r.operation@ == self.operation(),
            r.key.elements() == seq![IdentifierView::Name("keyed"@), IdentifierView::Name(key@)],
    {
        self.key(key2(name("keyed"), name(key)))
    }

    /// The `connect` output for `output`.
    pub fn section_output(self, output: &str) -> (r: NamedOutputRef)
        ensures
            r.namespaces@.len() == 0,
            r.operation@ == self.operation(),
            r.key.elements() == seq![IdentifierView::Name("connect"@), IdentifierView::Name(output@)],
    {
        self.key(key2(name("connect"), name(output)))
    }

    /// The `index`-th `next` output.
    pub fn next_index(self, index: usize) -> (r: NamedOutputRef)
        ensures
            r.namespaces@.len() == 0,
            r.operation@ == self.operation(),
            r.key.elements() == seq![IdentifierView::Name("next"@), IdentifierView::Index(index)],
    {
        self.key(key2(name("next"), NameOrIndex::Index(index)))
    }

    /// The `index`-th `sequential` output.
    pub fn sequential(self, index: usize) -> (r: NamedOutputRef)
        ensures
            r.namespaces@.len() == 0,
            r.operation@ == self.operation(),
            r.key.elements() == seq![IdentifierView::Name("sequential"@), IdentifierView::Index(index)],
    {
        self.key(key2(name("sequential"), NameOrIndex::Index(index)))
    }
}

} // verus!

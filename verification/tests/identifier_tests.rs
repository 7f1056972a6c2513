use crossflow::identifier::{Identifier, IdentifierRef};
use crossflow::output_port;
use crossflow::output_ref::{output_ref, NameOrIndex};

fn name_of(id: &IdentifierRef) -> Option<&str> {
    match id {
        IdentifierRef::Name(n) => Some(n.as_str()),
        IdentifierRef::Index(_) => None,
    }
}

#[test]
fn identifier_kinds() {
    let n = IdentifierRef::name_str("hello");
    assert!(n.is_name());
    assert!(!n.is_index());
    let i = IdentifierRef::index(4);
    assert!(i.is_index());
    assert!(!i.is_name());
    assert_eq!(name_of(&IdentifierRef::clone_name("x")), Some("x"));
    assert_eq!(name_of(&IdentifierRef::literal_name("y")), Some("y"));
    assert!(n.to_owned() == n);
    assert!(i.to_owned() == IdentifierRef::from(4usize));
    assert!(IdentifierRef::from(String::from("hello")) == n);
}

#[test]
fn identifier_equality_across_forms() {
    let owned = Identifier::name("a");
    assert!(owned.eq_ref(&IdentifierRef::name_str("a")));
    assert!(!owned.eq_ref(&IdentifierRef::name_str("b")));
    assert!(!owned.eq_ref(&IdentifierRef::index(0)));
    assert!(Identifier::Index(2).eq_ref(&IdentifierRef::index(2)));
    assert!(!Identifier::Index(2).eq_ref(&IdentifierRef::index(3)));
    assert!(owned.to_ref() == IdentifierRef::name_str("a"));
    assert!(IdentifierRef::name_str("a").into_identifier() == owned);
    assert!(Identifier::Index(1) != Identifier::name("1"));
}

#[test]
fn output_ports() {
    assert_eq!(name_of(&output_port::next()[0]), Some("next"));
    assert_eq!(name_of(&output_port::cancel()[0]), Some("cancel"));
    assert_eq!(name_of(&output_port::dispose()[0]), Some("dispose"));
    assert_eq!(name_of(&output_port::ok()[0]), Some("ok"));
    assert_eq!(name_of(&output_port::err()[0]), Some("err"));
    assert_eq!(name_of(&output_port::listen()[0]), Some("listen"));
    assert_eq!(name_of(&output_port::start()[0]), Some("start"));
    assert_eq!(name_of(&output_port::begin_cleanup()[0]), Some("begin_cleanup"));
    assert_eq!(name_of(&output_port::remaining()[0]), Some("remaining"));
    assert_eq!(name_of(&output_port::name_str("custom")[0]), Some("custom"));
    let s = output_port::stream_out("log");
    assert_eq!((name_of(&s[0]), name_of(&s[1])), (Some("stream_out"), Some("log")));
    let a = output_port::anonymous_stream("u32");
    assert_eq!((name_of(&a[0]), name_of(&a[1])), (Some("anonymous_stream"), Some("u32")));
    let k = output_port::keyed("key");
    assert_eq!((name_of(&k[0]), name_of(&k[1])), (Some("keyed"), Some("key")));
    let ni = output_port::next_index(3);
    assert_eq!(name_of(&ni[0]), Some("next"));
    assert!(ni[1] == IdentifierRef::index(3));
    let sq = output_port::sequential(5);
    assert_eq!(name_of(&sq[0]), Some("sequential"));
    assert!(sq[1] == IdentifierRef::index(5));
}

#[test]
fn named_output_refs() {
    let op = String::from("node");
    let r = output_ref(&op).next();
    assert_eq!(r.operation, "node");
    assert!(r.namespaces.is_empty());
    assert!(matches!(r.key.0.as_slice(), [NameOrIndex::Name(n)] if n == "next"));
    let r = output_ref(&op).next_index(2);
    assert!(matches!(r.key.0.as_slice(), [NameOrIndex::Name(n), NameOrIndex::Index(2)] if n == "next"));
    let r = output_ref(&op).section_output("out");
    assert!(matches!(r.key.0.as_slice(), [NameOrIndex::Name(a), NameOrIndex::Name(b)] if a == "connect" && b == "out"));
    let r = output_ref(&op).stream_out("log");
    assert!(matches!(r.key.0.as_slice(), [NameOrIndex::Name(a), NameOrIndex::Name(b)] if a == "stream_out" && b == "log"));
    let r = output_ref(&op).keyed("k");
    assert!(matches!(r.key.0.as_slice(), [NameOrIndex::Name(a), NameOrIndex::Name(b)] if a == "keyed" && b == "k"));
    let r = output_ref(&op).sequential(1);
    assert!(matches!(r.key.0.as_slice(), [NameOrIndex::Name(a), NameOrIndex::Index(1)] if a == "sequential"));
    for (r, name) in [(output_ref(&op).ok(), "ok"), (output_ref(&op).err(), "err"), (output_ref(&op).remaining(), "remaining")] {
        assert!(matches!(r.key.0.as_slice(), [NameOrIndex::Name(n)] if n == name));
    }
}

#[test]
fn identifier_text_forms() {

    assert_eq!(IdentifierRef::Name("next".to_string()).to_text(), "\"next\"");
    assert_eq!(IdentifierRef::Index(0).to_text(), "#0");
    assert_eq!(IdentifierRef::Index(7).to_text(), "#7");
    assert_eq!(IdentifierRef::Index(1204).to_text(), "#1204");
}

use crossflow::build_status::BuildStatus;
use crossflow::cancel::{broken_cancel_target, wait_for_step, CancelTarget, WaitAction, WaitEvent};
use crossflow::message_operations::{JsEmptyObject, MessageMetadata, MessageOperationsMetadata, SupportedOperations};
use crossflow::registration::{ConfigExample, NodeBuilderOptions, SectionBuilderOptions};
use std::collections::HashSet;

#[test]
fn build_status_progress() {
    let s: BuildStatus<&str> = BuildStatus::defer("waiting");
    assert!(!s.made_progress());
    assert!(!s.is_finished());
    let s = s.with_progress();
    assert!(s.made_progress());
    assert_eq!(s.clone().into_deferral_reason(), Some("waiting"));
    let f: BuildStatus<&str> = BuildStatus::Finished;
    assert!(f.made_progress());
    assert!(f.is_finished());
    assert!(f.with_progress().into_deferral_reason().is_none());
}

#[test]
fn builder_options() {
    let example = ConfigExample { description: "d".into(), config: serde_json::Value::Null };
    let o = NodeBuilderOptions::new("node".into())
        .with_default_display_text("Node".into())
        .with_description("does things".into())
        .with_config_examples(vec![example]);
    assert_eq!(o.id, "node");
    assert_eq!(o.default_display_text.as_deref(), Some("Node"));
    assert_eq!(o.description.as_deref(), Some("does things"));
    assert_eq!(o.config_examples.len(), 1);
    let s = SectionBuilderOptions::new("section".into()).with_description("x".into());
    assert_eq!(s.id, "section");
    assert!(s.default_display_text.is_none());
    assert_eq!(s.description.as_deref(), Some("x"));
    assert!(s.config_examples.is_empty());
}

#[test]
fn message_metadata_getters() {
    let mut into = HashSet::new();
    into.insert(3usize);
    let m = MessageOperationsMetadata::new(
        SupportedOperations { deserialize: true, serialize: false, into_script_message: true, from_script_message: false, fork_clone: true },
        Some(vec![1, 2]),
        Some([4, 5]),
        Some(6),
        None,
        None,
        None,
        into,
        HashSet::new(),
        HashSet::new(),
        HashSet::new(),
    );
    assert!(m.can_deserialize());
    assert!(!m.can_serialize());
    assert!(m.into_script_message());
    assert!(!m.from_script_message());
    assert!(m.can_fork_clone());
    assert_eq!(m.unzip(), &Some(vec![1, 2]));
    assert_eq!(m.fork_result(), &Some([4, 5]));
    assert_eq!(m.split_output(), &Some(6));
    assert!(m.join().is_none() && m.listen().is_none() && m.buffer_access().is_none());
    assert!(m.into_messages().contains(&3));
    assert!(m.try_into_messages().is_empty() && m.from_messages().is_empty() && m.try_from_messages().is_empty());
    let meta = MessageMetadata::new("u32".into(), None, Some(m));
    assert_eq!(meta.message_type_name(), "u32");
    assert!(meta.schema().is_none());
    assert!(meta.operations().is_some());
    assert_eq!(JsEmptyObject, JsEmptyObject);
}

#[test]
fn broken_operations_cancel_their_enclosure() {
    assert_eq!(broken_cancel_target(1, Some(2), Some(3)), CancelTarget { target: 2, session: None });
    assert_eq!(broken_cancel_target(1, None, Some(3)), CancelTarget { target: 3, session: Some(3) });
    assert_eq!(broken_cancel_target(1, None, None), CancelTarget { target: 1, session: Some(1) });
}

#[test]
fn waiting_steps() {
    assert_eq!(wait_for_step(false, WaitEvent::Evaluated(true)), WaitAction::Deliver);
    assert_eq!(wait_for_step(false, WaitEvent::Evaluated(false)), WaitAction::RecordSeenAndWait);
    assert_eq!(wait_for_step(false, WaitEvent::Changed), WaitAction::EvaluateAgain);
    assert_eq!(wait_for_step(false, WaitEvent::ReceiverClosed), WaitAction::Stop);
    assert_eq!(wait_for_step(true, WaitEvent::ReceiverClosed), WaitAction::RecordSeenAndWait);
}

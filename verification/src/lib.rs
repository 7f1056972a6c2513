pub mod buffer_storage;
pub mod input;
pub mod any_range;
pub mod buffer_laws;
pub mod identifier;
pub mod output_port;
pub mod request;
pub mod debug;
pub mod build_status;
pub mod registration;
pub mod message_operations;
pub mod output_ref;
pub mod inference;
pub mod cancel;
pub mod callback;
pub mod accessor;
pub mod constraints;
pub mod evaluation;
pub mod gathering;
pub mod solving;
pub mod flow;
pub mod inference_laws;

//! Options for registering node and section builders.

use vstd::prelude::*;

verus! {

/// A JSON value, the form in which example configurations are held.
#[verifier::external_type_specification]
#[verifier::external_body]
pub struct ExJsonValue(serde_json::Value);

/// An example of a configuration for a builder.
pub struct ConfigExample {
    /// A description of what this config is for
    pub description: String,
    /// The value of the config
    pub config: serde_json::Value,
}

/// Options for registering a node builder.
#[non_exhaustive]
pub struct NodeBuilderOptions {
    /// The unique identifier for this node builder.
    pub id: String,
    /// If this is not specified, the id field will be used as the default
    /// display text.
    pub default_display_text: Option<String>,
    /// Optional text to describe the builder.
    pub description: Option<String>,
    /// Examples of configurations that can be used with this node builder.
    pub config_examples: Vec<ConfigExample>,
}

impl NodeBuilderOptions {
    /// Options with the given id and nothing else set.
    pub fn new(id: String) -> (o: Self)
        ensures
            o.id == id,
            o.default_display_text is None,
            o.description is None,
            o.config_examples@.len() == 0,
    {
        NodeBuilderOptions {
            id,
            default_display_text: None,
            description: None,
            config_examples: Vec::new(),
        }
    }

    /// Set the default display text.
    pub fn with_default_display_text(self, text: String) -> (o: Self)
        ensures
            o == (NodeBuilderOptions { default_display_text: Some(text), ..self }),
    {
        NodeBuilderOptions { default_display_text: Some(text), ..self }
    }

    /// Set the description.
    pub fn with_description(self, text: String) -> (o: Self)
        ensures
            o == (NodeBuilderOptions { description: Some(text), ..self }),
    {
        NodeBuilderOptions { description: Some(text), ..self }
    }

    /// Replace the configuration examples.
    pub fn with_config_examples(self, config_examples: Vec<ConfigExample>) -> (o: Self)
        ensures
            o == (NodeBuilderOptions { config_examples, ..self }),
    {
        NodeBuilderOptions { config_examples, ..self }
    }
}

/// Options for registering a section builder.
#[non_exhaustive]
pub struct SectionBuilderOptions {
    /// The unique identifier for this section builder.
    pub id: String,
    /// If this is not specified, the id field will be used as the default
    /// display text.
    pub default_display_text: Option<String>,
    /// Optional text to describe the builder.
    pub description: Option<String>,
    /// Examples of configurations that can be used with this section builder.
    pub config_examples: Vec<ConfigExample>,
}

impl SectionBuilderOptions {
    /// Options with the given id and nothing else set.
    pub fn new(id: String) -> (o: Self)
        ensures
            o.id == id,
            o.default_display_text is None,
            o.description is None,
            o.config_examples@.len() == 0,
    {
        SectionBuilderOptions {
            id,
            default_display_text: None,
            description: None,
            config_examples: Vec::new(),
        }
    }

    /// Set the default display text.
    pub fn with_default_display_text(self, text: String) -> (o: Self)
        ensures
            o == (SectionBuilderOptions { default_display_text: Some(text), ..self }),
    {
        SectionBuilderOptions { default_display_text: Some(text), ..self }
    }

    /// Set the description.
    pub fn with_description(self, text: String) -> (o: Self)
        ensures
            o == (SectionBuilderOptions { description: Some(text), ..self }),
    {
        SectionBuilderOptions { description: Some(text), ..self }
    }

    /// Replace the configuration examples.
    pub fn with_config_examples(self, config_examples: Vec<ConfigExample>) -> (o: Self)
        ensures
            o == (SectionBuilderOptions { config_examples, ..self }),
    {
        SectionBuilderOptions { config_examples, ..self }
    }
}

} // verus!

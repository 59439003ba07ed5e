//! Parser plugin outcomes and component descriptions.
use vstd::prelude::*;

verus! {

#[verifier::external_type_specification]
#[verifier::external_body]
pub struct ExPathBuf(std::path::PathBuf);

/// What the parser does with an attribute, as decided by a plugin.
#[derive(Debug, Clone, Copy, PartialEq, Eq, Structural)]
pub enum AttributeAction {
    /// Process the attribute normally.
    Keep,
    /// Drop the attribute.
    Skip,
    /// Drop the attribute and count it as a binding of the element.
    SkipAndCountBinding,
}

/// Artifacts a plugin hands back after parsing.
#[derive(Debug, PartialEq)]
pub enum ParserPluginArtifacts {
    /// No artifacts.
    NoArtifacts,
    /// `(tag name, template)` pairs, one per component.
    ComponentTemplates(Vec<(String, String)>),
}

/// A registered component.
#[derive(Debug)]
pub struct Component {
    /// The component's tag name.
    pub tag_name: String,
    /// The component's HTML template.
    pub html_content: String,
    /// The component's CSS, if any.
    pub css_content: Option<String>,
    /// CSS custom property names the component uses.
    pub css_tokens: Vec<String>,
    /// Where the component was loaded from.
    pub source_path: std::path::PathBuf,
    /// The component's class name, if any.
    pub class_name: Option<String>,
}

} // verus!

//! Errors reported while parsing templates and directives.
use vstd::prelude::*;

verus! {

/// A parser failure with its message.
#[derive(Debug, Clone, PartialEq)]
pub enum ParserError {
    /// The HTML could not be read.
    Html(String),
    /// A construct is not allowed where it appears.
    Parse(String),
    /// A directive (`<for>`, `<if>`, `<route>`, ...) is malformed.
    Directive(String),
}

} // verus!

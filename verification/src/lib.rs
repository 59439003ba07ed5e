//! Template compilation pieces of the WebUI framework: the protocol data
//! model and its binary encoding, the FAST template conversion, route
//! directive parsing, and attribute-name mapping.
pub mod attrs;
pub mod parser;
pub mod protocol;
pub mod text;

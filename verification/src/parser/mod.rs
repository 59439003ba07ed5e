//! Template parsing pieces: directive errors, `<route>` parsing, build
//! options, and the FAST parser plugin.
pub mod comments;
pub mod component_template;
pub mod attribute_plan;
pub mod directive;
pub mod driver;
pub mod elements;
pub mod error;
pub mod fast;
pub mod html_tree;
pub mod for_directive;
pub mod fast_plugin;
pub mod plugin;
pub mod route_parser;
pub mod scan;
pub mod strategy;
pub mod tokens;

//! The WebUI protocol: the serializable structure that represents compiled
//! templates, its constructors, reference validation and binary encoding.
pub mod condition_expr;
pub mod constructors;
pub mod types;
pub mod web_ui_fragment;
pub mod records;
pub mod webui;
pub mod plugin;
pub mod wire;
pub mod schema;
pub mod decode;
pub mod encode;
pub mod round_trip;
pub mod messages;
pub mod convert;
pub mod protobuf;
pub mod condition_text;

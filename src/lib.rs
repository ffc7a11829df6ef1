//! Injects values from pluggable sources into `%tag:key%` placeholders of a text template.
//!
//! The library is split along the points where outside work happens:
//! - [`template`] scans a template for placeholders and writes resolved values back;
//! - [`source`] maps a placeholder's tag to the source that serves it;
//! - [`seed`] keeps the loaders of one resolution session and decides, step by step, which
//!   loader to build and which key to load; whoever drives it performs those requests;
//! - [`loader`] holds what the built-in loaders decide on their own;
//! - [`laws`] states what holds of every session.
pub mod source;
pub mod template;
pub mod seed;
pub mod laws;
pub mod loader;

pub use source::{Source, SourceId};
pub use template::{Placeholder, placeholders, substitute};
pub use seed::{Action, Event, ParseError, Resolution, Seed};
pub use loader::{
    AwsEc2MetadataLoader, AwsEc2TagLoader, EnvironmentLoader, ParameterError, ParameterReply, Tag,
    TagError, parameter_value,
};

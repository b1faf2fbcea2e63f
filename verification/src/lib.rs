//! Query and compare the semantic version of a crate on crates.io.
//!
//! The library is the pure core of the check: parsing semantic versions,
//! extracting the `max_version` field from a registry response body,
//! comparing versions, and rendering the outcome as a report line.
//! Network transport and terminal output live outside the library and
//! hand it plain values.

pub mod error;
pub mod extract;
pub mod parse;
pub mod pipeline;
pub mod present;
pub mod render;
pub mod text;
pub mod version;

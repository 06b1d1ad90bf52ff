//! Content-matcher resolution and plugin lifecycle management for
//! consumer-driven contract tests.
//!
//! For each request or response part of a recorded interaction, the library
//! decides whether the part's content is handled by the built-in core rules
//! or by an out-of-process content plugin, applies the chosen rule to the
//! interaction, and keeps reference counts for the plugin processes that the
//! contracts share.

pub mod args;
pub mod assoc;
pub mod body;
pub mod catalogue;
pub mod definition;
pub mod interaction;
pub mod manager;
pub mod mime;
pub mod part;
pub mod publish;
pub mod resolver;
pub mod store;
pub mod strutil;

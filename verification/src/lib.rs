//! Builds an ordered search path from layered configuration sources.
//!
//! Each path entry carries requirement flags (administrative privilege,
//! operating system). Layers are merged with a fixed precedence, entries are
//! filtered against the capabilities of the running system, and symbolic
//! segments (`~`, `$NAME`) are replaced from an environment mapping.

pub mod cli;
pub mod config;
pub mod env;
pub mod layers;
pub mod path;
pub mod text;

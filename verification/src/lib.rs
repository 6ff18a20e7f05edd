//! A declarative package, dotfile, service and environment reconciler.
//!
//! The library parses a line-oriented configuration language into a
//! [`config::Config`], merges configuration documents with a defined
//! precedence, plans package installs and removals against the machine's
//! installed set and a persisted ownership ledger, and classifies dotfile
//! mappings by comparing content digests.

pub mod analysis;
pub mod chain;
pub mod clean;
pub mod color;
pub mod config;
pub mod dotfiles;
pub mod env;
pub mod find;
pub mod laws;
pub mod parser;
pub mod planner;
pub mod pm;
pub mod roundtrip;
pub mod services;
pub mod state;
pub mod strutil;

//! Resolves a compact textual invocation language against a hierarchical,
//! user-defined alias dictionary, producing an ordered list of shell command
//! strings.
//!
//! The pieces fit together as a pipeline: a decoded config document becomes an
//! alias dictionary ([`alias`], [`config`]), a target expression or script
//! becomes a sequence of invocations ([`invoc`]), and the resolver
//! ([`command`]) walks each invocation against the dictionary, applying
//! positional argument substitution ([`subst`]) and kind-compatibility checks.

pub mod alias;
pub mod command;
pub mod config;
pub mod error;
pub mod generate;
pub mod invoc;
pub mod prelude;
pub mod subst;
pub mod text;

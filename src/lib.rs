//! Tab completion for a workspace-lifecycle command line: the completion
//! request, the engine that classifies a partial command line and builds its
//! candidates, the renderer that writes them for a shell, and the resolver
//! that maps typed workspace names to canonical ones.

pub mod candidates;
pub mod engine;
pub mod grammar;
pub mod naming;
pub mod output;
pub mod protocol;
pub mod repo;
pub mod runtime;
pub mod text;

//! Hidden-checkpoint engine for Codex-driven Git repositories: the verified core.
use vstd::prelude::*;

pub mod cli;
pub mod codex_hooks;
pub mod config;
pub mod docs_worker;
pub mod domain;
pub mod engine;
pub mod gitparse;
pub mod guard;
pub mod lines;
pub mod numtext;
pub mod order;
pub mod pathspec;
pub mod payload;
pub mod reports;
pub mod stores;
pub mod text;
pub mod visible;
pub mod visible_flow;
pub mod visible_snapshot;

verus! {
} // verus!

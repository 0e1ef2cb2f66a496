//! The checkpoint domain: paths, manifests, decisions, pending episodes and sessions.
pub mod decision;
pub mod delta;
pub mod errors;
pub mod ids;
pub mod intent;
pub mod journal;
pub mod manager;
pub mod manifest;
pub mod policy;
pub mod repopath;
pub mod session;
pub mod session_tracker;
pub mod turn;

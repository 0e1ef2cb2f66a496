//! The checkpoint engine: stream repair and initialization, hidden checkpoints, stop-hook
//! decisions and session commit plans.
pub mod hooks;
pub mod init_stream;
pub mod materialize;
pub mod repair;
pub mod session_commit;
pub mod stop;
pub mod support;

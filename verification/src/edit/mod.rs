//! The decisions behind `edit`, a blocking editor shim suitable as `$EDITOR`.
//!
//! The shim asks the terminal that owns its PTY to open a file, and blocks
//! until the user is done with it. Two marker files carry the answers: one that
//! the terminal writes when it accepts the request, one that it writes when the
//! editor tab is closed and that holds the exit code to report.

pub mod error;
pub mod fallback;
pub mod input;
pub mod markers;
pub mod request;
pub mod run;

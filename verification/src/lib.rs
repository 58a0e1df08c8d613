//! The logic behind lx-term's local features: the blocking editor shim, the
//! registry of edits that wait for an editor tab, and the search of atuin's
//! command history.

pub mod anonymous_id;
pub mod edit;
pub mod file_path;
pub mod hexadecimal;
pub mod history;
pub mod json;
pub mod pending_edit;
pub mod text;
pub mod unique_id;

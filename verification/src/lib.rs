//! Moves files into one repository directory and leaves relative symbolic
//! links behind: the path arithmetic and the decisions, with their proofs.
//!
//! Paths are byte strings, as they are on Unix. Nothing here touches the
//! file system: the caller performs each action that [`adder::Adder`] hands
//! out and reports back what happened.

pub mod adder;
pub mod classify;
pub mod config;
pub mod error;
pub mod path;
pub mod relative;
pub mod skipped;
pub mod tilde;
pub mod user_dirs;

pub use adder::{Action, Adder, Event};
pub use classify::{file_type, FileType, Metadata};
pub use config::Config;
pub use error::Error;
pub use path::to_absolute;
pub use relative::relative_path_from;
pub use skipped::{SkipReason, Skipped};
pub use tilde::{expand_tilde, expand_tilde_in};

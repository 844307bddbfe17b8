//! Stacked pull requests for a change-centric version control system.
//!
//! The library turns a set of local bookmarks and their trunk-to-bookmark
//! change lists into a forest of stacks, plans the minimal set of platform
//! operations needed to submit a stack as pull requests, and executes such a
//! plan against pluggable platform, workspace and progress interfaces.

pub mod codec;
pub mod error;
pub mod graph;
pub mod platform;
pub mod progress;
pub mod strmap;
pub mod submit;
pub mod strutil;
pub mod types;
pub mod vcs;

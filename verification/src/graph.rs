//! Change graph building.
//!
//! Turns local bookmarks and their trunk-to-bookmark change lists into a
//! forest of stacks of segments.

pub mod builder;

//! Shortlink resolution over a tree of named redirect targets.
//!
//! A shortlink path such as `team/bob` is split on `/` into segments, which
//! are looked up one after another in a nested mapping. The result is either
//! the redirect target that the path leads to, or "not found".

pub mod config;
pub mod entry;
pub mod laws;
pub mod path;
pub mod resolve;

pub use config::Config;
pub use entry::{ShortlinkEntry, ShortlinkMap};
pub use path::split_segments;
pub use resolve::find_shortlink;

//! Finding projects with build output under a directory tree, and cleaning
//! them: which paths a scan looks at, what is read out of a manifest, how
//! sizes are summed and shown, in which order projects are listed, and what
//! a cleaning session does on each key and each removal.
//!
//! The library decides and computes; it never touches the file system or
//! the terminal. Its callers walk, read, remove and draw, and hand over
//! what they found as plain values.

pub mod cli;
pub mod clock;
pub mod folder_list;
pub mod listing;
pub mod manifest;
pub mod order;
pub mod path;
pub mod project;
pub mod scan;
pub mod scanner;
pub mod search;
pub mod text;
pub mod ui;
pub mod utils;

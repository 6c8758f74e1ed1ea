//! A live-preview library for a single watched markdown file.
//!
//! The library holds the logic of a small developer utility: it converts a
//! markdown source into a complete HTML page, writes a status record whose
//! timestamp lets a browser poll for changes, debounces filesystem change
//! notifications, and decides what an HTTP handler answers when an artifact
//! is missing or malformed. File and network handling live outside the
//! library; every function here is specified and verified.

pub mod digits;
pub mod page;
pub mod serve;
pub mod status;
pub mod watch;

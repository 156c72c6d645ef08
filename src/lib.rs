//! A single-file web editor: the logic that serves one local file over loopback HTTP.
//!
//! The library decides everything; the program around it performs the I/O it asks for.
pub mod escape;
pub mod template;
pub mod path;
pub mod config;
pub mod page;
pub mod dispatch;

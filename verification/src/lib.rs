//! A browser for an archive of direct-message threads: the archive model,
//! the rendering of messages, statistics over a thread, and the two command
//! consoles (thread mode and message mode) as verified state machines.
pub mod browse;
pub mod console;
pub mod laws;
pub mod listing;
pub mod model;
pub mod render;
pub mod stats;
pub mod text;
pub mod timeline;

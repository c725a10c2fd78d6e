//! A small task tracker: an in-memory ordered list of tasks together with a
//! lossless XML codec that persists the list as a flat sequence of `Task`
//! elements.
//!
//! The task manager owns the ordered task list and its operations; the codec
//! turns the list into a structured document and back, so that a list saved
//! and reloaded is the same list.

pub mod errors;
pub mod laws;
pub mod task;
pub mod task_manager;
pub mod xml_parser;

//! Session state and orchestration logic for a desktop tool that manages a
//! directory of JSON locale files and drives an external translator over it.
//!
//! The library does no I/O of its own: the host probes the filesystem, reads
//! directory listings and file contents, and runs the external translator,
//! handing the results to the functions here as plain values.

pub mod catalog;
pub mod error;
pub mod estimate;
pub mod orchestrate;
pub mod session;
pub mod text;

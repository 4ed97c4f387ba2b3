//! A tailer for a single text log file.
//!
//! The crate is the decision core of a polling log watcher: it tracks the
//! read cursor, the identity of the open physical file, and the drain flag
//! that governs log rotation, and it extracts complete lines from the bytes
//! an embedding reads. The embedding owns the file handle and the poll
//! loop; every state change and every delivery decision is made here, under
//! contract.

pub mod lines;
pub mod watcher;

//! Periodic page-watcher core: extract message blocks from fetched HTML,
//! diff them against a flat-file history, and decide what to notify and
//! what to persist.
//!
//! The crate is organised around one fetch-parse-diff-persist cycle:
//! [`message`] defines the unit of content and trimmed-body equality,
//! [`extract`] turns raw HTML into messages, [`store`] encodes and decodes
//! the blank-line-framed history file, [`delta`] computes which extracted
//! messages are new, and [`cycle`] composes them into a single plan that a
//! thin I/O driver can execute.

pub mod cycle;
pub mod delta;
pub mod extract;
pub mod message;
pub mod store;

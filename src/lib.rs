//! Parallel extraction of ZIP archives from local files or HTTP servers.
//!
//! The library holds the logic that decides what happens: shared seekable
//! readers with independent cursors, the cache and fetch policy of the HTTP
//! range reader, progress accounting, and the per-entry extraction plan.
//! I/O, threads and the archive parser are driven from outside it.
pub mod cloneable_seekable_reader;
pub mod extract;
pub mod progress_updater;
pub mod seekable_http_reader;
pub mod seek;
pub mod source;

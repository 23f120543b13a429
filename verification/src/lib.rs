//! Builds an offline EPUB from a web serial whose chapters are blog posts
//! linked from a table-of-contents page.
//!
//! The library holds the logic of the pipeline: TOC anchor resolution,
//! chapter body assembly, the obfuscated e-mail decoder, date and filename
//! formatting, and the ordering of concurrently fetched results. Network
//! and file I/O live outside it and hand it plain strings.

pub mod assemble;
pub mod chapter;
pub mod dates;
pub mod schedule;
pub mod emails;
pub mod scrape;
pub mod text;

//! Core engine for turning an exported chat archive into per-person,
//! paginated document bundles: message deduplication, topic grouping and
//! record assembly, adaptive single-page-fit pagination, table-of-contents
//! offsets, and the retry policy for the flaky OCR step.

pub mod app;
pub mod categorizer;
pub mod command;
pub mod entities;
pub mod laws;
pub mod paginate;
pub mod pdf_tools;
pub mod pipeline;
pub mod strutil;
pub mod structs;
pub mod toc;

//! Verified core of an archive image-conversion pipeline.
//!
//! The crate turns a templated source/target path pair with a placeholder
//! token into concrete per-archive jobs, plans the unpacking of an archive
//! into a scratch tree (rejecting unsafe entry names), classifies and routes
//! every extracted entry (image conversion vs. verbatim copy), and derives
//! the argument vectors for the external conversion and archiving tools.
//! All path and template logic works on byte strings; the thin I/O shell
//! that opens archives and spawns the tools lives outside this crate.

pub mod convert;
pub mod dispatch;
pub mod errors;
pub mod job;
pub mod paths;
pub mod pipeline;
pub mod pattern;
pub mod text;
pub mod unpack;
pub mod walk;

//! Conversion of text-file line endings between the Unix (`\n`), DOS
//! (`\r\n`) and classic-Mac (`\r`) conventions.
//!
//! The crate holds the content pipeline of such a converter: detection of
//! encoding and byte-order mark, classification of binary content, a
//! line-ending transcoder whose behaviour on a stream of chunks is proved
//! identical to one pass over the whole buffer, and the plan that commits
//! the rewritten bytes to storage atomically.

pub mod binary;
pub mod encoding;
pub mod endings;
pub mod errors;
pub mod options;
pub mod pipeline;
pub mod replace;

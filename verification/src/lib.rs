//! Verified core of a Kotlin/Java language server: semantic-token
//! classification and encoding, source-root discovery and CLI decisions.
pub mod encoding;
pub mod utf;
pub mod text;
pub mod gradle;
pub mod paths;
pub mod source_roots;
pub mod legend;
pub mod cli;
pub mod syntax;
pub mod classify;
pub mod rows;
pub mod index;
pub mod references;
pub mod dump;

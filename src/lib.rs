//! Merges a shared library of file templates into an IDE's per-user
//! template settings document, and works out where its files go.

pub mod pattern;
pub mod text;
pub mod document;
pub mod extract;
pub mod merge;
pub mod laws;
pub mod locate;
pub mod paths;

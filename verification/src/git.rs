//! What the library knows of a Git repository's changes.
pub mod repository;

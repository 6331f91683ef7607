//! Shared error type and file-path helpers.
pub mod error;
pub mod fs;

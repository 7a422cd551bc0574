//! A small file browser library: directory entries, their ordering, the
//! resolution of request paths, and the decisions the HTTP routes make.
pub mod configuration;
pub mod error;
pub mod file;
pub mod listing;
pub mod path;
pub mod sorting;
pub mod text;

//! Tracks which paths of a system are declared by configuration modules,
//! which are not, and which are to be backed up.
pub mod decl;
pub mod declarative;
pub mod fs;
pub mod text;
pub mod presentation;
pub mod untracked;
pub mod config;
pub mod backup;
pub mod tracked_paths;

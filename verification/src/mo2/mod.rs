//! MO2 (Mod Organizer 2) integration: configuration parsing, profile
//! parsing and the path normalization of the virtual file system.

pub mod config;
pub mod profile;
pub mod vfs;

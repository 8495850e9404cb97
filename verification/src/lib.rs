//! Finds "project" directories: a configuration tree of directory
//! specifications is walked against a filesystem listing, and every
//! directory that passes the inclusion and exclusion rules is reported.

pub mod config;
pub mod paths;
pub mod walk;
pub mod yaml;

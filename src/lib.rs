//! A registry of files moved into a store and linked back to where they came from.
//!
//! - `paths`: host paths and their portable form, with the home directory written as
//!   a placeholder.
//! - `tags`: category lists written as comma-separated text.
//! - `registry`: the tracked entries and the lookups over them.
//! - `commands`: what each command decides, and the file system steps it asks for.
//! - `sync`: a model of those steps on the host file system, and what they achieve.

pub mod paths;
pub mod registry;
pub mod tags;
pub mod commands;
pub mod sync;

//! Core of a game mod manager.
//!
//! The library models and verifies the part of the manager that must not go
//! wrong: the manifest of installed mods and its on-disk JSON form, the
//! planning of archive installs and their undoing, the registry of available
//! mods, the lifecycle of download/install/uninstall tasks, and the
//! scheduling of the single exclusively-held resource-directory handle.
//! File, network and archive I/O stay outside; they hand the library plain
//! values and take plans and directives back.

pub mod json;
pub mod kvlist;
pub mod mod_manager;
pub mod orchestrator;
pub mod progress;
pub mod records;
pub mod registry;
pub mod sources;
pub mod tasks;
pub mod text;

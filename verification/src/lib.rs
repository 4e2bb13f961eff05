//! Trigger coordination for a backup daemon: which watched location a
//! filesystem event belongs to, when a location's action is due, and how a
//! finished action settles the location's trigger window.

pub mod backup;
pub mod backup_entity;
pub mod config;
pub mod global;
pub mod path;
pub mod report;
pub mod text;
pub mod watcher;

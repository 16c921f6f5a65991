//! Session process supervision library.
//!
//! Owns the logic of a multi-session terminal supervisor: a registry of
//! PTY-backed shell sessions, point-in-time process-tree inspection, an
//! HTTP status-routing layer that correlates out-of-band status reports
//! to sessions, and the small pure helpers (path classification, branch
//! name sanitising, project hashing) that the surrounding application
//! builds on. All I/O — spawning, signalling, binding, reading the
//! process table — stays outside; this crate makes the decisions and
//! keeps the records.

pub mod strutil;

pub mod errors;

pub mod hashing;

pub mod kvmap;

pub mod process_manager;

pub mod process_tree;

pub mod status_server;

pub mod session_registry;

pub mod bookmarks;

pub mod worktree;

pub mod config_writer;

pub mod backend;

pub mod reporter;

pub mod mcp_protocol;

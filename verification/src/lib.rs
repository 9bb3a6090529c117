//! Core of an interactive application launcher.
//!
//! Given a query string typed incrementally, the library ranks and filters a
//! pool of launchable entries (installed applications and currently running
//! windows) and, on selection, plans how the chosen target is turned into a
//! process invocation (direct exec, terminal-wrapped exec, or cgroup-scoped
//! exec).  Usage counts are kept in a history store that biases the ranking.
//!
//! The library itself performs no I/O: the surrounding program feeds it
//! window, workspace and desktop-file data as plain values, renders the
//! ranked entry list, spawns the planned argument vectors, and persists the
//! serialized history.

pub mod command;
pub mod config;
pub mod entry;
pub mod history;
pub mod launch;
pub mod launcher;
pub mod ranking;
pub mod text;

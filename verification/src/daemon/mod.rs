//! The daemon: the state it keeps, how requests and compositor events change
//! it, and the decisions of the tasks around it.

pub mod app;
pub mod arranging;
pub mod autosave;
pub mod capture;
pub mod commands;
pub mod editing;
pub mod finding;
pub mod groups;
pub mod hydration;
pub mod importing;
pub mod keeping;
pub mod launcher;
pub mod laws;
pub mod recovery;
pub mod refusing;
pub mod requests;
pub mod saving;
pub mod server;
pub mod serving;
pub mod snss;
pub mod state;
pub mod tracking;
pub mod updates;

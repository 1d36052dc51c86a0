//! The command-line client: what its subcommands send, decide and print.

pub mod blocks;
pub mod doctor;
pub mod output;
pub mod panel;
pub mod replies;
pub mod search;
pub mod session;

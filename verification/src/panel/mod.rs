//! The side panel: its connection to the daemon, the rail's behaviour and
//! the settings form, apart from the widgets that show them.

pub mod client;
pub mod rail;
pub mod settings;
pub mod theme;

//! Projects, the windows they hold, and the rules that govern both.

pub mod config;
pub mod events;
pub mod launch;
pub mod listing;
pub mod model;
pub mod restore;
pub mod rules;
pub mod search;
pub mod world;
pub mod ws_names;

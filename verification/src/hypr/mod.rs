//! Hyprland IPC: what goes over the control socket and what comes from the
//! event stream.
//!
//! Models stay tolerant of Hyprland schema drift. This part knows nothing
//! about projects or groups.

pub mod ctl;
pub mod error;
pub mod events;
pub mod model;
pub mod socket;

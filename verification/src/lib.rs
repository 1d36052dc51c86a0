//! A workspace and project manager on top of Hyprland.
//!
//! Projects are named groups of windows, each with a named workspace of its
//! own. A daemon follows the compositor, assigns windows by rules, and serves
//! clients over a socket; a project's apps can be captured and reopened in
//! dependency order.
//!
//! This crate holds what is decided and computed. Reading, writing, waiting and
//! drawing are left to the programs that use it: they hand in plain values and
//! get plain values back.

pub mod cli;
pub mod daemon;
pub mod document;
pub mod domain;
pub mod hypr;
pub mod json;
pub mod numbers;
pub mod outside;
pub mod panel;
pub mod paths;
pub mod pieces;
pub mod proto;
pub mod storage;
pub mod tables;
pub mod text;

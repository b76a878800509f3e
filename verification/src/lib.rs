//! Trimangees shell: the window manager, desktop widgets, command parsing and
//! configuration logic of a small desktop environment, with their contracts.
use vstd::prelude::*;

pub mod geometry;
pub mod shell;
pub mod start_menu;
pub mod taskbar;
pub mod terminal;
pub mod text;
pub mod application_manager;
pub mod boot;
pub mod config;
pub mod desktop;
pub mod desktop_icon;
pub mod desktop_state;
pub mod display;
pub mod explorer_app;
pub mod explorer_state;
pub mod filesystem;
pub mod window_manager;

verus! {

} // verus!

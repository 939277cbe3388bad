//! Verified core of a Hyprland dock: desktop-entry lookup, Hyprland IPC
//! parsing, configuration handling and the dock's layout decisions.

pub mod text;
pub mod app_info;
pub mod hyprland_handler;
pub mod config;
pub mod cli;
pub mod dock;
pub mod icons;
pub mod style;
pub mod session;

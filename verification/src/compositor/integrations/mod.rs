//! The supported compositors' own window records and commands.

pub mod hyprland;
pub mod niri;

//! Compositors seen through the generic `Window` interface.

pub mod niri;

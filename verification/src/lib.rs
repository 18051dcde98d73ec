//! Run-or-raise for window compositors: the decisions that pick which
//! window to focus, or which program to launch, stated and proved.

pub mod application;
pub mod compositor;
pub mod gui;
pub mod input;
pub mod integrations;
pub mod state;
pub mod text;

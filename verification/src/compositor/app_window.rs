//! The compositor-independent record of a window.

use vstd::prelude::*;
use vstd::std_specs::cmp::PartialEqSpecImpl;

verus! {

/// A window as the run-or-raise logic sees it, whichever compositor
/// reported it. Two windows are the same window when their ids agree.
#[derive(Debug, Clone)]
pub struct AppWindow {
    /// The compositor's identifier for the window.
    pub id: String,
    /// The application id (Wayland app id or X11 class) of the window.
    pub app_id: String,
    /// The window title.
    pub title: String,
}

impl AppWindow {
    /// A window record from its three parts.
    pub fn new(id: String, app_id: String, title: String) -> (res: Self)
        ensures
            res.id == id,
            res.app_id == app_id,
            res.title == title,
    {
        AppWindow { id, app_id, title }
    }
}

impl PartialEq for AppWindow {
    fn eq(&self, other: &Self) -> (res: bool) {
        self.id == other.id
    }
}

impl PartialEqSpecImpl for AppWindow {
    open spec fn obeys_eq_spec() -> bool {
        true
    }

    open spec fn eq_spec(&self, other: &Self) -> bool {
        self.id@ == other.id@
    }
}

} // verus!

//! Niri through the generic `Window` interface: numeric window ids and the
//! timestamps of last focus.

use vstd::prelude::*;

pub use crate::compositor::integrations::niri::Timestamp;

use crate::text::{decimal, decimal_string};

verus! {

/// A niri window, read through `crate::compositor::Window`: its id is niri's
/// number and its last focus a `Timestamp`.
pub type NiriWindow = crate::compositor::integrations::niri::Window;

/// The Niri compositor, addressed by numeric window ids.
pub struct NiriCompositor;

impl NiriCompositor {
    /// The arguments of the `niri` call that focuses the window numbered `id`.
    pub fn focus_args(id: u32) -> (res: Vec<String>)
        ensures
            res@.len() == 5,
            res@[0]@ == "msg"@,
            res@[1]@ == "action"@,
            res@[2]@ == "focus-window"@,
            res@[3]@ == "--id"@,
            res@[4]@ == decimal(id as nat),
    {
        let mut res: Vec<String> = Vec::new();
        res.push(String::from_str("msg"));
        res.push(String::from_str("action"));
        res.push(String::from_str("focus-window"));
        res.push(String::from_str("--id"));
        res.push(decimal_string(id));
        res
    }
}

} // verus!

//! What the library knows of compositors: the window record the decisions
//! work on, the compositors it supports, and how one is picked.

use vstd::prelude::*;

pub mod app_window;
pub mod recency;
pub mod detection;
pub mod integrations;

pub use app_window::AppWindow;

verus! {

/// A window as one compositor reports it: an identifier, the application it
/// belongs to, when it was last focused, and its title.
pub trait Window: core::fmt::Debug + Send + Sync {
    /// The compositor's window identifier; identifiers compare for equality.
    type Id: Eq + Clone + core::fmt::Debug + Send + Sync;
    /// The compositor's record of when the window was last focused;
    /// records are ordered, earlier before later.
    type Timestamp: Ord + Clone + core::fmt::Debug + Send + Sync;

    /// The window's identifier.
    spec fn window_id(&self) -> Self::Id;

    /// The window's application id.
    spec fn window_app_id(&self) -> Seq<char>;

    /// When the window was last focused.
    spec fn window_last_focused(&self) -> Self::Timestamp;

    /// The window's title.
    spec fn window_title(&self) -> Seq<char>;

    /// The window's identifier.
    fn id(&self) -> (res: &Self::Id)
        ensures
            *res == self.window_id(),
    ;

    /// The window's application id.
    fn app_id(&self) -> (res: &str)
        ensures
            res@ == self.window_app_id(),
    ;

    /// When the window was last focused.
    fn last_focused(&self) -> (res: &Self::Timestamp)
        ensures
            *res == self.window_last_focused(),
    ;

    /// The window's title.
    fn title(&self) -> (res: &str)
        ensures
            res@ == self.window_title(),
    ;
}

/// The compositors this library can drive.
#[derive(Debug, Clone, Copy, PartialEq, Eq, Structural)]
pub enum CompositorKind {
    Hyprland,
    Niri,
}

impl CompositorKind {
    /// The name by which the compositor is chosen.
    pub open spec fn spec_name(self) -> Seq<char> {
        match self {
            CompositorKind::Hyprland => "hyprland"@,
            CompositorKind::Niri => "niri"@,
        }
    }

    /// The name by which the compositor is chosen.
    pub fn name(&self) -> (res: &'static str)
        ensures
            res@ == self.spec_name(),
    {
        match self {
            CompositorKind::Hyprland => "hyprland",
            CompositorKind::Niri => "niri",
        }
    }
}

/// The supported compositors, in the order in which they are tried.
pub open spec fn supported() -> Seq<CompositorKind> {
    seq![CompositorKind::Hyprland, CompositorKind::Niri]
}

/// The supported compositors, in the order in which they are tried.
pub fn supported_compositors() -> (res: Vec<CompositorKind>)
    ensures
        res@ == supported(),
{
    let mut v: Vec<CompositorKind> = Vec::new();
    v.push(CompositorKind::Hyprland);
    v.push(CompositorKind::Niri);
    assert(v@ =~= supported());
    v
}

} // verus!

//! Hyprland: windows as `hyprctl clients -j` lists them, and the dispatcher
//! that focuses one.

use vstd::prelude::*;

use crate::compositor::recency::{sort_by_rank, sorting_witness, stably_sorted_by};
use crate::compositor::{AppWindow, CompositorKind};
use crate::text::has_prefix;
use crate::text::str_starts_with;

verus! {

/// A window as `hyprctl clients -j` describes it.
#[derive(Debug, Clone)]
pub struct Window {
    /// The window's address, Hyprland's window identifier.
    pub address: String,
    /// The window class, Hyprland's application id.
    pub class: String,
    /// The window's place in the focus history; 0 is the most recently focused.
    pub focus_history_id: u32,
    /// The window title.
    pub title: String,
}

/// The rank by which windows are ordered most recently focused first.
/// Hyprland counts its focus history up from 0 for the window focused last,
/// so the rank is the focus history id itself.
pub open spec fn focus_rank(w: Window) -> int {
    w.focus_history_id as int
}

/// `out` is `inp` ordered from the most to the least recently focused, stably.
pub open spec fn recency_sorted(out: Seq<Window>, inp: Seq<Window>) -> bool {
    stably_sorted_by(out, inp, |w: Window| focus_rank(w))
}

/// The compositor-independent record of a Hyprland window.
pub open spec fn app_window_of(w: Window) -> AppWindow {
    AppWindow { id: w.address, app_id: w.class, title: w.title }
}

impl Window {
    /// The compositor-independent record of this window: the address is its
    /// id and the class its application id.
    pub fn into_app_window(self) -> (res: AppWindow)
        ensures
            res == app_window_of(self),
    {
        AppWindow { id: self.address, app_id: self.class, title: self.title }
    }
}

/// The text Hyprland prints first when a dispatch went wrong without failing.
pub open spec fn warning_marker() -> Seq<char> {
    "warning:"@
}

/// The argument of `hyprctl dispatch` that focuses the window at `address`.
pub open spec fn focus_dispatch(address: Seq<char>) -> Seq<char> {
    "hl.dsp.focus({ window = 'address:"@ + address + "' })"@
}

/// The Hyprland compositor.
pub struct Compositor;

impl Compositor {
    /// Which of the supported compositors this is.
    pub fn kind() -> (res: CompositorKind)
        ensures
            res == CompositorKind::Hyprland,
    {
        CompositorKind::Hyprland
    }

    /// `clients` ordered from the most to the least recently focused; windows
    /// with the same focus history id keep their listed order.
    pub fn by_recency(clients: Vec<Window>) -> (res: Vec<Window>)
        ensures
            recency_sorted(res@, clients@),
            forall|i: int, j: int|
                0 <= i < j < res@.len() ==> #[trigger] res@[i].focus_history_id
                    <= #[trigger] res@[j].focus_history_id,
    {
        let mut ranks: Vec<i128> = Vec::new();
        let mut i: usize = 0;
        while i < clients.len()
            invariant
                i <= clients.len(),
                ranks@.len() == i,
                forall|j: int| 0 <= j < i ==> ranks@[j] as int == focus_rank(#[trigger] clients@[j]),
            decreases clients.len() - i,
        {
            ranks.push(clients[i].focus_history_id as i128);
            i = i + 1;
        }
        let res = sort_by_rank(clients, ranks, Ghost(|w: Window| focus_rank(w)));
        proof {
            let rank = |w: Window| focus_rank(w);
            let p = choose|p: Seq<int>| sorting_witness(res@, clients@, rank, p);
            assert forall|i: int, j: int| 0 <= i < j < res@.len() implies #[trigger] res@[i].focus_history_id
                <= #[trigger] res@[j].focus_history_id by {
                assert(rank(res@[i]) <= rank(res@[j]));
            }
        }
        res
    }

    /// The compositor-independent records of `clients`, in order.
    pub fn into_app_windows(clients: Vec<Window>) -> (res: Vec<AppWindow>)
        ensures
            res@ == clients@.map_values(|w: Window| app_window_of(w)),
    {
        let ghost orig = clients@;
        let mut clients = clients;
        let mut res: Vec<AppWindow> = Vec::new();
        let n = clients.len();
        let mut k: usize = 0;
        while k < n
            invariant
                n == orig.len(),
                k <= n,
                clients@ == orig.skip(k as int),
                res@ == orig.take(k as int).map_values(|w: Window| app_window_of(w)),
            decreases n - k,
        {
            assert(clients@[0] == orig[k as int]);
            let w = clients.remove(0);
            res.push(w.into_app_window());
            assert(clients@ =~= orig.skip(k + 1));
            assert(orig.take(k + 1) =~= orig.take(k as int).push(orig[k as int]));
            assert(res@ =~= orig.take(k + 1).map_values(|w: Window| app_window_of(w)));
            k = k + 1;
        }
        assert(orig.take(n as int) =~= orig);
        res
    }

    /// All windows, most recently focused first, from what
    /// `hyprctl clients -j` listed.
    pub fn windows(clients: Vec<Window>) -> (res: Vec<AppWindow>)
        ensures
            exists|order: Seq<Window>|
                #[trigger] recency_sorted(order, clients@) && res@
                    == order.map_values(|w: Window| app_window_of(w)),
    {
        let sorted = Self::by_recency(clients);
        let res = Self::into_app_windows(sorted);
        assert(recency_sorted(sorted@, clients@));
        res
    }

    /// The focused window among `clients`: the first one whose focus history
    /// id is 0, the place Hyprland gives the window focused last.
    pub fn focused_window(clients: Vec<Window>) -> (res: Option<AppWindow>)
        ensures
            res is None <==> forall|i: int| 0 <= i < clients@.len() ==> #[trigger] clients@[i].focus_history_id != 0,
            res matches Some(w) ==> exists|i: int|
                0 <= i < clients@.len() && #[trigger] clients@[i].focus_history_id == 0 && (forall|j: int|
                    0 <= j < i ==> clients@[j].focus_history_id != 0) && w == app_window_of(clients@[i]),
    {
        let ghost orig = clients@;
        let n = clients.len();
        let mut rest = clients;
        let mut k: usize = 0;
        while k < n
            invariant
                n == orig.len(),
                k <= n,
                orig == clients@,
                rest@ == orig.skip(k as int),
                forall|j: int| 0 <= j < k ==> orig[j].focus_history_id != 0,
            decreases n - k,
        {
            assert(rest@[0] == orig[k as int]);
            let w = rest.remove(0);
            assert(rest@ =~= orig.skip(k + 1));
            if w.focus_history_id == 0 {
                let res = w.into_app_window();
                assert(orig[k as int].focus_history_id == 0);
                assert(res == app_window_of(orig[k as int]));
                return Some(res);
            }
            k = k + 1;
        }
        None
    }

    /// The arguments of the `hyprctl` call that focuses the window at `address`.
    pub fn focus_args(address: &str) -> (res: Vec<String>)
        ensures
            res@.len() == 2,
            res@[0]@ == "dispatch"@,
            res@[1]@ == focus_dispatch(address@),
    {
        let mut arg = String::from_str("hl.dsp.focus({ window = 'address:");
        arg.append(address);
        arg.append("' })");
        let mut res: Vec<String> = Vec::new();
        res.push(String::from_str("dispatch"));
        res.push(arg);
        res
    }

    /// Whether what a dispatch printed is a warning.
    pub fn is_warning(stdout: &str) -> (res: bool)
        ensures
            res == has_prefix(stdout@, warning_marker()),
    {
        str_starts_with(stdout, "warning:")
    }
}

} // verus!

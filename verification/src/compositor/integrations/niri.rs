//! Niri: windows as `niri msg --json` reports them, and the action that
//! focuses one.

use vstd::prelude::*;

use crate::compositor::recency::{sort_by_rank, sorting_witness, stably_sorted_by};
use crate::compositor::{AppWindow, CompositorKind};
use crate::text::{decimal, decimal_string};

verus! {

/// When a window was last focused, as niri records it: seconds and
/// nanoseconds. Timestamps order by seconds, then by nanoseconds.
#[derive(Debug, Clone, Copy, PartialEq, Eq, PartialOrd, Ord, Structural)]
pub struct Timestamp {
    pub secs: u64,
    pub nanos: u32,
}

/// `a` lies before `b`, in the order that `Timestamp`'s `Ord` gives.
pub open spec fn focused_before(a: Timestamp, b: Timestamp) -> bool {
    a.secs < b.secs || (a.secs == b.secs && a.nanos < b.nanos)
}

/// A number that orders timestamps as `focused_before` does.
pub open spec fn timestamp_value(t: Timestamp) -> int {
    t.secs * 4294967296 + t.nanos
}

/// Comparing timestamp values is comparing the timestamps.
pub proof fn lemma_timestamp_value_order(a: Timestamp, b: Timestamp)
    ensures
        focused_before(a, b) <==> timestamp_value(a) < timestamp_value(b),
        a == b <==> timestamp_value(a) == timestamp_value(b),
{
    if a.secs < b.secs {
        assert(a.secs * 4294967296 + 4294967296 <= b.secs * 4294967296) by (nonlinear_arith)
            requires
                a.secs < b.secs,
        ;
    } else if a.secs > b.secs {
        assert(b.secs * 4294967296 + 4294967296 <= a.secs * 4294967296) by (nonlinear_arith)
            requires
                b.secs < a.secs,
        ;
    }
}

/// A window as `niri msg --json windows` describes it.
#[derive(Debug, Clone)]
pub struct Window {
    /// Niri's window identifier.
    pub id: u32,
    /// The window's application id.
    pub app_id: String,
    /// When the window was last focused.
    pub focus_timestamp: Timestamp,
    /// The window title.
    pub title: String,
}

/// The rank by which windows are ordered most recently focused first: the
/// later the focus, the lower the rank.
pub open spec fn focus_rank(w: Window) -> int {
    -timestamp_value(w.focus_timestamp)
}

/// `out` is `inp` ordered from the most to the least recently focused, stably.
pub open spec fn recency_sorted(out: Seq<Window>, inp: Seq<Window>) -> bool {
    stably_sorted_by(out, inp, |w: Window| focus_rank(w))
}

/// The compositor-independent record of a niri window; its id is written in
/// decimal.
pub open spec fn app_window_view(w: Window, r: AppWindow) -> bool {
    &&& r.id@ == decimal(w.id as nat)
    &&& r.app_id == w.app_id
    &&& r.title == w.title
}

impl crate::compositor::Window for Window {
    type Id = u32;

    type Timestamp = Timestamp;

    open spec fn window_id(&self) -> u32 {
        self.id
    }

    open spec fn window_app_id(&self) -> Seq<char> {
        self.app_id@
    }

    open spec fn window_last_focused(&self) -> Timestamp {
        self.focus_timestamp
    }

    open spec fn window_title(&self) -> Seq<char> {
        self.title@
    }

    fn id(&self) -> (res: &u32) {
        &self.id
    }

    fn app_id(&self) -> (res: &str) {
        self.app_id.as_str()
    }

    fn last_focused(&self) -> (res: &Timestamp) {
        &self.focus_timestamp
    }

    fn title(&self) -> (res: &str) {
        self.title.as_str()
    }
}

impl Window {
    /// The compositor-independent record of this window.
    pub fn into_app_window(self) -> (res: AppWindow)
        ensures
            app_window_view(self, res),
    {
        AppWindow { id: decimal_string(self.id), app_id: self.app_id, title: self.title }
    }
}

/// The Niri compositor.
pub struct Compositor;

impl Compositor {
    /// Which of the supported compositors this is.
    pub fn kind() -> (res: CompositorKind)
        ensures
            res == CompositorKind::Niri,
    {
        CompositorKind::Niri
    }

    /// `windows` ordered from the most to the least recently focused; windows
    /// focused at the same time keep their listed order.
    pub fn by_recency(windows: Vec<Window>) -> (res: Vec<Window>)
        ensures
            recency_sorted(res@, windows@),
            forall|i: int, j: int|
                0 <= i < j < res@.len() ==> !focused_before(
                    #[trigger] res@[i].focus_timestamp,
                    #[trigger] res@[j].focus_timestamp,
                ),
    {
        let mut ranks: Vec<i128> = Vec::new();
        let mut i: usize = 0;
        while i < windows.len()
            invariant
                i <= windows.len(),
                ranks@.len() == i,
                forall|j: int|
                    0 <= j < i ==> ranks@[j] as int == focus_rank(#[trigger] windows@[j]),
            decreases windows.len() - i,
        {
            let t = &windows[i].focus_timestamp;
            ranks.push(-((t.secs as i128) * 4294967296 + (t.nanos as i128)));
            i = i + 1;
        }
        let res = sort_by_rank(windows, ranks, Ghost(|w: Window| focus_rank(w)));
        proof {
            let rank = |w: Window| focus_rank(w);
            let p = choose|p: Seq<int>| sorting_witness(res@, windows@, rank, p);
            assert forall|i: int, j: int| 0 <= i < j < res@.len() implies !focused_before(
                #[trigger] res@[i].focus_timestamp,
                #[trigger] res@[j].focus_timestamp,
            ) by {
                assert(rank(res@[i]) <= rank(res@[j]));
                lemma_timestamp_value_order(res@[i].focus_timestamp, res@[j].focus_timestamp);
            }
        }
        res
    }

    /// The compositor-independent records of `windows`, in order.
    pub fn into_app_windows(windows: Vec<Window>) -> (res: Vec<AppWindow>)
        ensures
            res@.len() == windows@.len(),
            forall|i: int| 0 <= i < res@.len() ==> app_window_view(windows@[i], #[trigger] res@[i]),
    {
        let ghost orig = windows@;
        let mut windows = windows;
        let mut res: Vec<AppWindow> = Vec::new();
        let n = windows.len();
        let mut k: usize = 0;
        while k < n
            invariant
                n == orig.len(),
                k <= n,
                windows@ == orig.skip(k as int),
                res@.len() == k,
                forall|i: int| 0 <= i < k ==> app_window_view(orig[i], #[trigger] res@[i]),
            decreases n - k,
        {
            assert(windows@[0] == orig[k as int]);
            let w = windows.remove(0);
            res.push(w.into_app_window());
            assert(windows@ =~= orig.skip(k + 1));
            k = k + 1;
        }
        res
    }

    /// All windows, most recently focused first, from what
    /// `niri msg --json windows` listed.
    pub fn windows(windows: Vec<Window>) -> (res: Vec<AppWindow>)
        ensures
            exists|order: Seq<Window>|
                {
                    &&& #[trigger] recency_sorted(order, windows@)
                    &&& res@.len() == order.len()
                    &&& forall|i: int|
                        0 <= i < res@.len() ==> app_window_view(order[i], #[trigger] res@[i])
                },
    {
        let sorted = Self::by_recency(windows);
        let ghost order = sorted@;
        let res = Self::into_app_windows(sorted);
        assert(recency_sorted(order, windows@));
        res
    }

    /// The focused window, from what `niri msg --json focused-window` reported.
    pub fn focused_window(focused: Option<Window>) -> (res: Option<AppWindow>)
        ensures
            focused is None <==> res is None,
            focused is Some ==> app_window_view(focused->0, res->0),
    {
        match focused {
            Some(w) => Some(w.into_app_window()),
            None => None,
        }
    }

    /// The arguments of the `niri` call that focuses the window with id `id`.
    pub fn focus_args(id: &str) -> (res: Vec<String>)
        ensures
            res@.len() == 5,
            res@[0]@ == "msg"@,
            res@[1]@ == "action"@,
            res@[2]@ == "focus-window"@,
            res@[3]@ == "--id"@,
            res@[4]@ == id@,
    {
        let mut res: Vec<String> = Vec::new();
        res.push(String::from_str("msg"));
        res.push(String::from_str("action"));
        res.push(String::from_str("focus-window"));
        res.push(String::from_str("--id"));
        res.push(String::from_str(id));
        res
    }
}

} // verus!

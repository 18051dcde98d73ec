//! Run-or-raise: launch the program when none of its windows is open,
//! otherwise focus the next of its windows.

use vstd::prelude::*;

use crate::compositor::AppWindow;
use crate::text::{chars_contain, chars_of, contains, lowercase, to_lowercase};

verus! {

/// The key by which windows are grouped: the lowercased application id.
pub open spec fn window_key(w: AppWindow) -> Seq<char> {
    lowercase(w.app_id@)
}

/// The key of the first window whose key contains `search`, if any.
pub open spec fn first_matching_key(ws: Seq<AppWindow>, search: Seq<char>) -> Option<Seq<char>>
    decreases ws.len(),
{
    if ws.len() == 0 {
        None
    } else if contains(window_key(ws[0]), search) {
        Some(window_key(ws[0]))
    } else {
        first_matching_key(ws.drop_first(), search)
    }
}

/// Whether a window's key is `key`.
pub open spec fn key_is(key: Seq<char>) -> spec_fn(AppWindow) -> bool {
    |w: AppWindow| window_key(w) == key
}

/// The windows whose key is `key`, in their order in `ws`.
pub open spec fn windows_with_key(ws: Seq<AppWindow>, key: Seq<char>) -> Seq<AppWindow> {
    ws.filter(key_is(key))
}

/// The window group that `search` selects: all windows that share the key of
/// the first window whose key contains `search`; no window when there is no
/// such window.
pub open spec fn window_group(ws: Seq<AppWindow>, search: Seq<char>) -> Seq<AppWindow> {
    match first_matching_key(ws, search) {
        Some(key) => windows_with_key(ws, key),
        None => Seq::empty(),
    }
}

/// The index of the first window of `ws` whose id is `id`, if any.
pub open spec fn position_of(ws: Seq<AppWindow>, id: Seq<char>) -> Option<int>
    decreases ws.len(),
{
    if ws.len() == 0 {
        None
    } else if ws[0].id@ == id {
        Some(0)
    } else {
        match position_of(ws.drop_first(), id) {
            Some(i) => Some(i + 1),
            None => None,
        }
    }
}

/// The index of the window to focus among `siblings`: the one after the
/// focused window, wrapping around at the end; the first one when no window
/// is focused or the focused window is not among them.
pub open spec fn cycle_target_index(focused: Option<AppWindow>, siblings: Seq<AppWindow>) -> int {
    match focused {
        None => 0,
        Some(f) => match position_of(siblings, f.id@) {
            None => 0,
            Some(i) => (i + 1) % (siblings.len() as int),
        },
    }
}

/// The window ids in `ws` are pairwise different.
pub open spec fn distinct_ids(ws: Seq<AppWindow>) -> bool {
    forall|i: int, j: int| 0 <= i < j < ws.len() ==> ws[i].id@ != ws[j].id@
}

/// `filter` keeps or drops the pushed element and leaves the rest as it was.
pub proof fn lemma_filter_push<A>(s: Seq<A>, pred: spec_fn(A) -> bool, e: A)
    ensures
        pred(e) ==> s.push(e).filter(pred) == s.filter(pred).push(e),
        !pred(e) ==> s.push(e).filter(pred) == s.filter(pred),
{
    reveal(Seq::filter);
    assert(s.push(e).drop_last() =~= s);
}

proof fn lemma_position_of_skip(ws: Seq<AppWindow>, id: Seq<char>, i: int)
    requires
        0 <= i <= ws.len(),
        forall|j: int| 0 <= j < i ==> ws[j].id@ != id,
    ensures
        position_of(ws, id) == match position_of(ws.skip(i), id) {
            Some(k) => Some(k + i),
            None => None::<int>,
        },
    decreases i,
{
    if i > 0 {
        assert(ws.drop_first().skip(i - 1) =~= ws.skip(i));
        lemma_position_of_skip(ws.drop_first(), id, i - 1);
    } else {
        assert(ws.skip(0) =~= ws);
    }
}

proof fn lemma_first_matching_key_skip(ws: Seq<AppWindow>, search: Seq<char>, i: int)
    requires
        0 <= i <= ws.len(),
        forall|j: int| 0 <= j < i ==> !contains(window_key(#[trigger] ws[j]), search),
    ensures
        first_matching_key(ws, search) == first_matching_key(ws.skip(i), search),
    decreases i,
{
    if i > 0 {
        assert(ws.drop_first().skip(i - 1) =~= ws.skip(i));
        assert forall|j: int| 0 <= j < i - 1 implies !contains(
            window_key(#[trigger] ws.drop_first()[j]),
            search,
        ) by {
            assert(ws.drop_first()[j] == ws[j + 1]);
        }
        lemma_first_matching_key_skip(ws.drop_first(), search, i - 1);
    } else {
        assert(ws.skip(0) =~= ws);
    }
}

/// The first matching key is the key of a window whose key contains the
/// search text; there is none exactly when no window's key contains it.
pub proof fn lemma_first_matching_key(ws: Seq<AppWindow>, search: Seq<char>)
    ensures
        first_matching_key(ws, search) is None <==> forall|j: int|
            0 <= j < ws.len() ==> !contains(window_key(#[trigger] ws[j]), search),
        first_matching_key(ws, search) matches Some(k) ==> contains(k, search) && exists|j: int|
            0 <= j < ws.len() && window_key(#[trigger] ws[j]) == k,
    decreases ws.len(),
{
    if ws.len() > 0 {
        lemma_first_matching_key(ws.drop_first(), search);
        if contains(window_key(ws[0]), search) {
        } else {
            if first_matching_key(ws, search) is None {
                assert forall|j: int| 0 <= j < ws.len() implies !contains(
                    window_key(#[trigger] ws[j]),
                    search,
                ) by {
                    if j > 0 {
                        assert(ws[j] == ws.drop_first()[j - 1]);
                    }
                }
            } else {
                let k = first_matching_key(ws, search)->0;
                let j = choose|j: int|
                    0 <= j < ws.drop_first().len() && window_key(#[trigger] ws.drop_first()[j]) == k;
                assert(ws[j + 1] == ws.drop_first()[j]);
            }
        }
    }
}

/// Run-or-raise launches exactly when it has nothing to raise: the window
/// group is empty if and only if no window's lowercased application id
/// contains the search text.
pub proof fn lemma_group_empty_iff_no_match(ws: Seq<AppWindow>, search: Seq<char>)
    ensures
        window_group(ws, search).len() == 0 <==> forall|j: int|
            0 <= j < ws.len() ==> !contains(window_key(#[trigger] ws[j]), search),
{
    lemma_first_matching_key(ws, search);
    if let Some(k) = first_matching_key(ws, search) {
        let j = choose|j: int| 0 <= j < ws.len() && window_key(#[trigger] ws[j]) == k;
        ws.lemma_filter_contains(key_is(k), j);
    }
}

/// Every window of the group belongs to the same application, one whose
/// lowercased application id contains the search text, and every window of
/// that application is in the group.
pub proof fn lemma_group_members(ws: Seq<AppWindow>, search: Seq<char>)
    ensures
        forall|i: int|
            0 <= i < window_group(ws, search).len() ==> {
                &&& contains(window_key(#[trigger] window_group(ws, search)[i]), search)
                &&& first_matching_key(ws, search) == Some(window_key(window_group(ws, search)[i]))
            },
        forall|j: int|
            0 <= j < ws.len() && first_matching_key(ws, search) == Some(window_key(#[trigger] ws[j]))
                ==> window_group(ws, search).contains(ws[j]),
{
    lemma_first_matching_key(ws, search);
    match first_matching_key(ws, search) {
        Some(k) => {
            assert forall|i: int| 0 <= i < window_group(ws, search).len() implies {
                &&& contains(window_key(#[trigger] window_group(ws, search)[i]), search)
                &&& first_matching_key(ws, search) == Some(window_key(window_group(ws, search)[i]))
            } by {
                ws.lemma_filter_pred(key_is(k), i);
            }
            assert forall|j: int|
                0 <= j < ws.len() && first_matching_key(ws, search) == Some(window_key(
                    #[trigger] ws[j],
                )) implies window_group(ws, search).contains(ws[j]) by {
                ws.lemma_filter_contains(key_is(k), j);
            }
        },
        None => {},
    }
}

/// The window focused is always one of the group: the target index lies
/// within the group whenever the group has a window.
pub proof fn lemma_cycle_target_in_group(focused: Option<AppWindow>, siblings: Seq<AppWindow>)
    requires
        siblings.len() > 0,
    ensures
        0 <= cycle_target_index(focused, siblings) < siblings.len(),
{
    if let Some(f) = focused {
        lemma_position_of_bounds(siblings, f.id@);
    }
}

proof fn lemma_position_of_bounds(ws: Seq<AppWindow>, id: Seq<char>)
    ensures
        position_of(ws, id) matches Some(i) ==> 0 <= i < ws.len() && ws[i].id@ == id && forall|j: int|
            0 <= j < i ==> ws[j].id@ != id,
    decreases ws.len(),
{
    if ws.len() > 0 && ws[0].id@ != id {
        lemma_position_of_bounds(ws.drop_first(), id);
        if let Some(i) = position_of(ws, id) {
            assert(ws[i] == ws.drop_first()[i - 1]);
            assert forall|j: int| 0 <= j < i implies ws[j].id@ != id by {
                if j > 0 {
                    assert(ws[j] == ws.drop_first()[j - 1]);
                }
            }
        }
    }
}

/// With pairwise different window ids, the window focused after the `i`-th
/// window of the group is the next one, wrapping around after the last.
pub proof fn lemma_cycle_next(ws: Seq<AppWindow>, i: int)
    requires
        distinct_ids(ws),
        0 <= i < ws.len(),
    ensures
        cycle_target_index(Some(ws[i]), ws) == (i + 1) % (ws.len() as int),
{
    lemma_position_of_skip(ws, ws[i].id@, i);
    assert(ws.skip(i)[0] == ws[i]);
}

/// The index of the window focused after `k` run-or-raise calls, starting
/// with the `i`-th window of the group focused.
pub open spec fn cycle_after(ws: Seq<AppWindow>, i: int, k: nat) -> int
    decreases k,
{
    if k == 0 {
        i
    } else {
        cycle_target_index(Some(ws[cycle_after(ws, i, (k - 1) as nat)]), ws)
    }
}

/// Repeated run-or-raise calls cycle through the whole group: with pairwise
/// different window ids, `k` calls from the `i`-th window reach window
/// `(i + k) mod n`, so every window of the group is reached within `n`
/// calls.
pub proof fn lemma_cycle_visits_all(ws: Seq<AppWindow>, i: int, k: nat)
    requires
        distinct_ids(ws),
        0 <= i < ws.len(),
    ensures
        cycle_after(ws, i, k) == (i + k) % (ws.len() as int),
    decreases k,
{
    let n = ws.len() as int;
    if k > 0 {
        lemma_cycle_visits_all(ws, i, (k - 1) as nat);
        let prev = (i + k - 1) % n;
        lemma_cycle_next(ws, prev);
        assert(((i + k - 1) % n + 1) % n == (i + k) % n) by {
            vstd::arithmetic::div_mod::lemma_add_mod_noop_right(1, i + k - 1, n);
        }
    } else {
        vstd::arithmetic::div_mod::lemma_small_mod(i as nat, n as nat);
    }
}

/// Run-or-raise matches windows against the application id when one is
/// given and against the command otherwise, both lowercased: it finds
/// nothing to raise (and so launches) exactly when no window's lowercased
/// application id contains that text.
pub proof fn lemma_run_launches_iff_no_match(app: Application, ws: Seq<AppWindow>)
    ensures
        window_group(ws, app.search()).len() == 0 <==> forall|j: int|
            0 <= j < ws.len() ==> !contains(
                lowercase((#[trigger] ws[j]).app_id@),
                lowercase(
                    match app.app_id {
                        Some(id) => id@,
                        None => app.app@,
                    },
                ),
            ),
{
    lemma_group_empty_iff_no_match(ws, app.search());
    assert forall|j: int| 0 <= j < ws.len() implies window_key(#[trigger] ws[j]) == lowercase(
        ws[j].app_id@,
    ) by {}
}

/// How the run-or-raise decision proceeds: each stage carries what the
/// compositor answered to the previous action.
pub enum RunStage {
    /// Nothing has been asked yet.
    Start,
    /// The compositor listed these windows, most recently focused first.
    WindowsListed(Vec<AppWindow>),
    /// The window group to cycle through, and the window the compositor
    /// reported as focused, if any.
    FocusFound { siblings: Vec<AppWindow>, focused: Option<AppWindow> },
}

/// What the compositor is asked to do next.
pub enum RunAction {
    /// List all windows, most recently focused first.
    ListWindows,
    /// Launch the program with this command; nothing is left to do after.
    Launch(String),
    /// Report the focused window; the group to cycle through is handed back
    /// with the answer.
    FindFocus(Vec<AppWindow>),
    /// Focus this window; nothing is left to do after.
    Focus(AppWindow),
}

/// A run-or-raise request: the command that launches the program and,
/// optionally, the application id that its windows carry.
pub struct Application {
    /// The command that launches the program.
    pub app: String,
    /// The application id to match windows against, if not the command.
    pub app_id: Option<String>,
}

impl Application {
    /// A request for `app`, whose windows are matched by `app_id` when given
    /// and by `app` otherwise.
    pub fn new(app: String, app_id: Option<String>) -> (res: Self)
        ensures
            res.app == app,
            res.app_id == app_id,
    {
        Application { app, app_id }
    }

    /// The text that window keys are searched for: the application id when
    /// given, the command otherwise, lowercased.
    pub open spec fn search(&self) -> Seq<char> {
        lowercase(
            match self.app_id {
                Some(id) => id@,
                None => self.app@,
            },
        )
    }

    /// Decides the next step of run-or-raise from what the compositor
    /// answered so far.
    ///
    /// First all windows are listed. When no window's lowercased application
    /// id contains the search text, the program is launched. Otherwise the
    /// focused window is asked for, and the window after it in its group is
    /// focused (the group's first window when the focused one is not in it).
    pub fn run(&self, stage: RunStage) -> (action: RunAction)
        requires
            stage matches RunStage::FocusFound { siblings, .. } ==> siblings@.len() > 0,
        ensures
            stage is Start ==> action is ListWindows,
            stage matches RunStage::WindowsListed(ws) ==> {
                let group = window_group(ws@, self.search());
                &&& group.len() == 0 ==> (action matches RunAction::Launch(cmd) && cmd@
                    == self.app@)
                &&& group.len() > 0 ==> (action matches RunAction::FindFocus(siblings)
                    && siblings@ == group)
            },
            stage matches RunStage::FocusFound { siblings, focused } ==> (action matches RunAction::Focus(w)
                && w == siblings@[cycle_target_index(focused, siblings@)]),
            stage matches RunStage::WindowsListed(ws) ==> ((action is Launch) <==> forall|j: int|
                0 <= j < ws@.len() ==> !contains(
                    lowercase((#[trigger] ws@[j]).app_id@),
                    lowercase(
                        match self.app_id {
                            Some(id) => id@,
                            None => self.app@,
                        },
                    ),
                )),
    {
        proof {
            if let RunStage::WindowsListed(ws) = &stage {
                lemma_run_launches_iff_no_match(*self, ws@);
            }
        }
        match stage {
            RunStage::Start => RunAction::ListWindows,
            RunStage::WindowsListed(windows) => {
                let search = match &self.app_id {
                    Some(id) => to_lowercase(id.as_str()),
                    None => to_lowercase(self.app.as_str()),
                };
                let siblings = Self::get_window_group(windows, search.as_str());
                if siblings.len() == 0 {
                    RunAction::Launch(self.app.clone())
                } else {
                    RunAction::FindFocus(siblings)
                }
            },
            RunStage::FocusFound { siblings, focused } => {
                let index = Self::get_cycle_window_target_index(focused.as_ref(), siblings.as_slice());
                let mut siblings = siblings;
                RunAction::Focus(siblings.remove(index))
            },
        }
    }

    /// The index in `sibling_windows` of the window to focus next.
    pub fn get_cycle_window_target_index(
        focused_window: Option<&AppWindow>,
        sibling_windows: &[AppWindow],
    ) -> (res: usize)
        ensures
            res == cycle_target_index(
                match focused_window {
                    Some(w) => Some(*w),
                    None => None,
                },
                sibling_windows@,
            ),
            sibling_windows@.len() > 0 ==> res < sibling_windows@.len(),
    {
        let focused = match focused_window {
            Some(w) => w,
            None => {
                return 0;
            },
        };
        let n = sibling_windows.len();
        let mut i: usize = 0;
        while i < n
            invariant
                focused_window == Some(focused),
                n == sibling_windows@.len(),
                i <= n,
                forall|j: int| 0 <= j < i ==> sibling_windows@[j].id@ != focused.id@,
            decreases n - i,
        {
            if sibling_windows[i].id == focused.id {
                proof {
                    lemma_position_of_skip(sibling_windows@, focused.id@, i as int);
                    assert(sibling_windows@.skip(i as int)[0] == sibling_windows@[i as int]);
                    assert(position_of(sibling_windows@, focused.id@) == Some(i as int));
                }
                return (i + 1) % n;
            }
            i = i + 1;
        }
        proof {
            lemma_position_of_skip(sibling_windows@, focused.id@, n as int);
        }
        0
    }

    /// The window to focus next among `sibling_windows`.
    pub fn get_cycle_window_target<'a>(
        focused_window: Option<&AppWindow>,
        sibling_windows: &'a [AppWindow],
    ) -> (res: &'a AppWindow)
        requires
            sibling_windows@.len() > 0,
        ensures
            *res == sibling_windows@[cycle_target_index(
                match focused_window {
                    Some(w) => Some(*w),
                    None => None,
                },
                sibling_windows@,
            )],
    {
        let index = Self::get_cycle_window_target_index(focused_window, sibling_windows);
        &sibling_windows[index]
    }

    /// The window group among `windows` that `search_string` selects: the
    /// windows whose lowercased application id equals that of the first
    /// window whose lowercased application id contains `search_string`.
    pub fn get_window_group(windows: Vec<AppWindow>, search_string: &str) -> (res: Vec<AppWindow>)
        ensures
            res@ == window_group(windows@, search_string@),
    {
        let search = chars_of(search_string);
        let n = windows.len();
        let mut target: Option<String> = None;
        let mut i: usize = 0;
        while i < n
            invariant_except_break
                target is None,
            invariant
                n == windows@.len(),
                search@ == search_string@,
                i <= n,
                forall|j: int| 0 <= j < i ==> !contains(window_key(#[trigger] windows@[j]), search@),
            ensures
                target is None ==> i == n,
                target matches Some(k) ==> first_matching_key(windows@, search_string@) == Some(k@),
            decreases n - i,
        {
            let key = to_lowercase(windows[i].app_id.as_str());
            let key_chars = chars_of(key.as_str());
            if chars_contain(&key_chars, &search) {
                proof {
                    lemma_first_matching_key_skip(windows@, search@, i as int);
                    assert(windows@.skip(i as int)[0] == windows@[i as int]);
                }
                target = Some(key);
                break;
            }
            i = i + 1;
        }
        let key = match target {
            Some(key) => key,
            None => {
                proof {
                    lemma_first_matching_key_skip(windows@, search@, n as int);
                }
                return Vec::new();
            },
        };
        assert(first_matching_key(windows@, search_string@) == Some(key@));
        let ghost orig = windows@;
        let ghost pred = key_is(key@);
        let mut windows = windows;
        let mut res: Vec<AppWindow> = Vec::new();
        let mut k: usize = 0;
        assert(orig.take(0).filter(pred) =~= Seq::<AppWindow>::empty()) by {
            reveal(Seq::filter);
        }
        while k < n
            invariant
                n == orig.len(),
                k <= n,
                windows@ == orig.skip(k as int),
                res@ == orig.take(k as int).filter(pred),
                pred == key_is(key@),
            decreases n - k,
        {
            assert(windows@[0] == orig[k as int]);
            let w = windows.remove(0);
            assert(windows@ =~= orig.skip(k + 1));
            let wk = to_lowercase(w.app_id.as_str());
            proof {
                assert(orig.take(k + 1) =~= orig.take(k as int).push(w));
                lemma_filter_push(orig.take(k as int), pred, w);
            }
            if wk == key {
                res.push(w);
            }
            k = k + 1;
        }
        assert(orig.take(n as int) =~= orig);
        res
    }
}

} // verus!

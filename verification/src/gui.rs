//! What the picker window shows and how it answers keys: the rows it
//! lists, the row to select, and the text of its header.

use vstd::prelude::*;

use crate::application::window_key;
use crate::compositor::AppWindow;
use crate::state::{
    build_groups,
    find_group,
    first_name_containing,
    initial_index,
    initial_window_idx,
    lemma_first_name_none,
    next_index,
    opt_view,
    Group,
    Picker,
};
use crate::text::{contains, lowercase, to_lowercase};

verus! {

/// The rows that the first `k` groups take in the list: a header row for
/// each group, then a row per window.
pub open spec fn rows_through(es: Seq<Group>, k: int) -> int
    decreases k,
{
    if k <= 0 {
        0
    } else {
        rows_through(es, k - 1) + 1 + es[k - 1].windows@.len()
    }
}

proof fn lemma_rows_monotone(es: Seq<Group>, j: int, k: int)
    requires
        0 <= j <= k,
    ensures
        rows_through(es, j) <= rows_through(es, k),
    decreases k - j,
{
    if j < k {
        lemma_rows_monotone(es, j, k - 1);
    }
}

/// How many groups the list shows before the shown group: all groups that
/// come before it in name order, or all groups when it is missing.
pub open spec fn groups_before(state: Picker) -> int {
    if state.groups.has(state.current_group_name@) {
        state.groups.index_of(state.current_group_name@)
    } else {
        state.groups.entries@.len() as int
    }
}

/// The row of the selected window in the list of all groups, headers
/// included.
pub open spec fn flat_row(state: Picker) -> int {
    rows_through(state.groups.entries@, groups_before(state)) + 1 + state.window_idx
}

fn count_groups_before(state: &Picker) -> (res: usize)
    requires
        state.groups.wf(),
    ensures
        res == groups_before(*state),
        res <= state.groups.entries@.len(),
{
    match state.groups.find(state.current_group_name.as_str()) {
        Some(i) => i,
        None => state.groups.entries.len(),
    }
}

/// Whether the row of the selected window fits an `i32`, the type of list
/// box row indices.
pub fn flat_row_fits(state: &Picker) -> (res: bool)
    requires
        state.groups.wf(),
    ensures
        res == (flat_row(*state) <= i32::MAX),
{
    let idx = count_groups_before(state);
    let es = &state.groups.entries;
    let limit: u128 = 2147483647;
    let mut flat: u128 = 0;
    let mut k: usize = 0;
    while k < idx
        invariant
            idx <= es@.len(),
            k <= idx,
            flat == rows_through(es@, k as int),
            flat <= limit,
            limit == i32::MAX,
            idx == groups_before(*state),
            es@ == state.groups.entries@,
        decreases idx - k,
    {
        flat = flat + 1 + es[k].windows.len() as u128;
        k = k + 1;
        if flat > limit {
            proof {
                assert(flat == rows_through(es@, k as int));
                lemma_rows_monotone(es@, k as int, idx as int);
                assert(flat_row(*state) > i32::MAX);
            }
            return false;
        }
    }
    flat + 1 + state.window_idx as u128 <= limit
}

/// The row of the selected window in the list of all groups, headers
/// included; when the shown group is missing, the row after all groups.
pub fn flat_row_index(state: &Picker) -> (res: i32)
    requires
        state.groups.wf(),
        flat_row(*state) <= i32::MAX,
    ensures
        res == flat_row(*state),
{
    let idx = count_groups_before(state);
    let es = &state.groups.entries;
    let mut flat: usize = 0;
    let mut k: usize = 0;
    while k < idx
        invariant
            idx <= es@.len(),
            k <= idx,
            flat == rows_through(es@, k as int),
            rows_through(es@, idx as int) + 1 + state.window_idx <= i32::MAX,
        decreases idx - k,
    {
        proof {
            lemma_rows_monotone(es@, k + 1, idx as int);
        }
        flat = flat + 1 + es[k].windows.len();
        k = k + 1;
    }
    flat = flat + 1 + state.window_idx;
    flat as i32
}

/// What pressing a key does to the picker.
#[derive(Debug, Clone, Copy, PartialEq, Eq, Structural)]
pub enum KeyPressed {
    /// Close the picker without switching.
    Cancel,
    /// The selection moved: select the row of the selected window.
    Reselect,
    /// Not the picker's key: let the window handle it.
    Proceed,
}

/// Answers a key press: Escape cancels; the trigger key selects the next
/// window of the shown group; any other key is left to the window.
pub fn on_key_pressed(state: &mut Picker, is_escape: bool, is_trigger: bool) -> (res: KeyPressed)
    requires
        old(state).shows_group(),
        !is_escape && is_trigger && old(state).current_windows().len() >= 2 ==> old(
            state,
        ).window_idx < usize::MAX,
    ensures
        is_escape ==> res == KeyPressed::Cancel && *final(state) == *old(state),
        !is_escape && is_trigger ==> {
            &&& res == KeyPressed::Reselect
            &&& final(state).groups == old(state).groups
            &&& final(state).current_group_name == old(state).current_group_name
            &&& final(state).window_idx == next_index(
                old(state).window_idx as int,
                old(state).current_windows().len() as int,
            )
        },
        !is_escape && !is_trigger ==> res == KeyPressed::Proceed && *final(state) == *old(state),
{
    if is_escape {
        KeyPressed::Cancel
    } else if is_trigger {
        state.advance_window();
        KeyPressed::Reselect
    } else {
        KeyPressed::Proceed
    }
}

/// What releasing a key does to the picker.
pub enum KeyReleased<'a> {
    /// Not the Super key: nothing happens.
    Ignored,
    /// Switch to this window and close the picker.
    Picked(&'a AppWindow),
    /// The selection lies outside the shown group: nothing to switch to.
    NoWindow,
}

/// Answers a key release: releasing Super picks the selected window.
pub fn on_key_released(state: &Picker, is_super: bool) -> (res: KeyReleased<'_>)
    requires
        state.shows_group(),
    ensures
        !is_super ==> res is Ignored,
        is_super && state.window_idx < state.current_windows().len() ==> (res matches KeyReleased::Picked(w)
            && *w == state.current_windows()[state.window_idx as int]),
        is_super && state.window_idx >= state.current_windows().len() ==> res is NoWindow,
{
    if !is_super {
        return KeyReleased::Ignored;
    }
    match state.selected_window() {
        Some(w) => KeyReleased::Picked(w),
        None => KeyReleased::NoWindow,
    }
}

/// The header of the picker for the group `app_id`.
pub fn header_text(app_id: &str) -> (res: String)
    ensures
        res@ == "Switch to "@ + app_id@,
{
    let mut s = String::from_str("Switch to ");
    s.append(app_id);
    s
}

/// The application id of the focused window: the first listed window is the
/// most recently focused one.
pub open spec fn focused_key(all_windows: Seq<AppWindow>) -> Option<Seq<char>> {
    if all_windows.len() > 0 {
        Some(window_key(all_windows[0]))
    } else {
        None
    }
}

/// The picker for `search_string` over `all_windows` (most recently focused
/// first), or nothing when no window's lowercased application id contains
/// the lowercased `search_string`, in which case the program is launched.
///
/// The picker groups all windows, shows the first group in name order whose
/// name contains the search text, and selects its first window, or its
/// second when the focused window belongs to that group.
pub fn prepare(all_windows: Vec<AppWindow>, search_string: &str) -> (res: Option<Picker>)
    ensures
        res is None <==> forall|j: int|
            0 <= j < all_windows@.len() ==> !contains(
                window_key(#[trigger] all_windows@[j]),
                lowercase(search_string@),
            ),
        res matches Some(p) ==> {
            &&& p.groups.groups(all_windows@)
            &&& first_name_containing(p.groups.entries@, lowercase(search_string@)) == Some(
                p.current_group_name@,
            )
            &&& p.window_idx == initial_index(
                p.current_windows().len() as int,
                p.current_group_name@,
                focused_key(all_windows@),
            )
            &&& p.wf()
        },
{
    let ghost all = all_windows@;
    let focused_app_id: Option<String> = if all_windows.len() > 0 {
        Some(to_lowercase(all_windows[0].app_id.as_str()))
    } else {
        None
    };
    let groups = build_groups(all_windows);
    proof {
        lemma_first_name_none(groups.entries@, lowercase(search_string@));
    }
    let name = match find_group(&groups, search_string) {
        Some(name) => name,
        None => {
            proof {
                assert forall|j: int| 0 <= j < all.len() implies !contains(
                    window_key(#[trigger] all[j]),
                    lowercase(search_string@),
                ) by {
                    assert(groups.has(window_key(all[j])));
                    let i = groups.index_of(window_key(all[j]));
                    assert(groups.has_at(window_key(all[j]), i));
                }
            }
            return None;
        },
    };
    let i = match groups.find(name.as_str()) {
        Some(i) => i,
        None => {
            proof {
                lemma_first_name_contains(groups.entries@, lowercase(search_string@));
                let k = choose|k: int|
                    0 <= k < groups.entries@.len() && (#[trigger] groups.entries@[k]).name@ == name@;
                assert(groups.has_at(name@, k));
            }
            return None;
        },
    };
    let focused_ref: Option<&str> = match &focused_app_id {
        Some(f) => Some(f.as_str()),
        None => None,
    };
    let idx = initial_window_idx(groups.entries[i].windows.as_slice(), name.as_str(), focused_ref);
    proof {
        let ws = groups.entries@[i as int].windows@;
        assert(ws.len() > 0);
        let pred = crate::application::key_is(name@);
        assert(ws == all.filter(pred));
        assert(opt_view(focused_ref) == focused_key(all));
        assert(!(forall|j: int|
            0 <= j < all.len() ==> !contains(window_key(#[trigger] all[j]), lowercase(search_string@))))
            by {
            assert(ws[0] == all.filter(pred)[0]);
            all.lemma_filter_pred(pred, 0);
            assert(all.filter(pred).contains(ws[0]));
            all.lemma_filter_contains_rev(pred, ws[0]);
            let j = choose|j: int| 0 <= j < all.len() && all[j] == ws[0];
            assert(window_key(all[j]) == name@);
            lemma_first_name_contains(groups.entries@, lowercase(search_string@));
        }
    }
    Some(Picker::new(groups, name, idx))
}

/// The first name containing the search text contains it, and is the name
/// of one of the groups.
proof fn lemma_first_name_contains(es: Seq<Group>, search: Seq<char>)
    ensures
        first_name_containing(es, search) matches Some(n) ==> contains(n, search) && exists|k: int|
            0 <= k < es.len() && (#[trigger] es[k]).name@ == n,
    decreases es.len(),
{
    if es.len() > 0 {
        lemma_first_name_contains(es.drop_first(), search);
        if !contains(es[0].name@, search) {
            if let Some(n) = first_name_containing(es, search) {
                let k = choose|k: int|
                    0 <= k < es.drop_first().len() && (#[trigger] es.drop_first()[k]).name@ == n;
                assert(es[k + 1] == es.drop_first()[k]);
            }
        }
    }
}

} // verus!

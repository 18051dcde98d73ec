//! The window picker's state: windows grouped by application, the group
//! being shown and the window selected in it.

use vstd::prelude::*;

use crate::application::{key_is, lemma_filter_push, window_key, windows_with_key};
use crate::compositor::AppWindow;
use vstd::utf8::is_ascii_chars;

use crate::text::{
    ascii_lower,
    ascii_upper,
    lemma_ascii_lower_concat,
    lemma_ascii_lower_ignores_case,
    lemma_contains_prefix,
    chars_contain,
    chars_of,
    contains,
    lemma_lex_irreflexive,
    lemma_lex_total,
    lemma_lex_transitive,
    lex_lt,
    lowercase,
    str_eq,
    str_less,
    to_lowercase,
};

verus! {

/// The windows of one application, under its lowercased application id.
pub struct Group {
    /// The group's name: the lowercased application id of its windows.
    pub name: String,
    /// The group's windows, in the order they were listed.
    pub windows: Vec<AppWindow>,
}

/// Window groups in ascending order of their names, as a sorted map from
/// name to windows keeps them.
pub struct Groups {
    /// The groups, names strictly ascending.
    pub entries: Vec<Group>,
}

/// Filtering a sequence none of whose items passes leaves nothing.
pub proof fn lemma_filter_none<A>(s: Seq<A>, pred: spec_fn(A) -> bool)
    requires
        forall|i: int| 0 <= i < s.len() ==> !pred(#[trigger] s[i]),
    ensures
        s.filter(pred) == Seq::<A>::empty(),
    decreases s.len(),
{
    reveal(Seq::filter);
    if s.len() > 0 {
        lemma_filter_none(s.drop_last(), pred);
        assert(!pred(s[s.len() - 1]));
    } else {
        assert(s.filter(pred) =~= Seq::<A>::empty());
    }
}

impl Groups {
    /// Names are strictly ascending, so no name occurs twice.
    pub open spec fn wf(&self) -> bool {
        forall|i: int, j: int|
            0 <= i < j < self.entries@.len() ==> lex_lt(
                #[trigger] self.entries@[i].name@,
                #[trigger] self.entries@[j].name@,
            )
    }

    /// The group named `name` is at index `i`.
    pub open spec fn has_at(&self, name: Seq<char>, i: int) -> bool {
        0 <= i < self.entries@.len() && self.entries@[i].name@ == name
    }

    /// Some group is named `name`.
    pub open spec fn has(&self, name: Seq<char>) -> bool {
        exists|i: int| self.has_at(name, i)
    }

    /// The index of the group named `name`, when there is one.
    pub open spec fn index_of(&self, name: Seq<char>) -> int {
        choose|i: int| self.has_at(name, i)
    }

    /// The windows of the group named `name`, when there is one.
    pub open spec fn windows_of(&self, name: Seq<char>) -> Seq<AppWindow> {
        self.entries@[self.index_of(name)].windows@
    }

    /// `self` groups the windows `ws` by key: ascending names, each group
    /// holding exactly the windows of `ws` with its name as key, in order,
    /// no group empty, and every window of `ws` in some group.
    pub open spec fn groups(&self, ws: Seq<AppWindow>) -> bool {
        &&& self.wf()
        &&& forall|i: int|
            0 <= i < self.entries@.len() ==> (#[trigger] self.entries@[i]).windows@
                == windows_with_key(ws, self.entries@[i].name@)
        &&& forall|i: int| 0 <= i < self.entries@.len() ==> (#[trigger] self.entries@[i]).windows@.len() > 0
        &&& forall|j: int| 0 <= j < ws.len() ==> self.has(window_key(#[trigger] ws[j]))
    }

    /// In well-formed groups a name sits at one index only.
    pub proof fn lemma_unique(&self, name: Seq<char>, i: int)
        requires
            self.wf(),
            self.has_at(name, i),
        ensures
            self.has(name),
            self.index_of(name) == i,
    {
        let k = self.index_of(name);
        assert(self.has_at(name, k));
        if k != i {
            lemma_lex_irreflexive(name);
            if k < i {
                assert(lex_lt(self.entries@[k].name@, self.entries@[i].name@));
            } else {
                assert(lex_lt(self.entries@[i].name@, self.entries@[k].name@));
            }
        }
    }

    /// No groups.
    pub fn new() -> (res: Self)
        ensures
            res.entries@.len() == 0,
            res.wf(),
    {
        Groups { entries: Vec::new() }
    }

    /// The number of groups.
    pub fn len(&self) -> (res: usize)
        ensures
            res == self.entries@.len(),
    {
        self.entries.len()
    }

    /// The index of the group named `name`, if there is one.
    pub fn find(&self, name: &str) -> (res: Option<usize>)
        requires
            self.wf(),
        ensures
            res is None <==> !self.has(name@),
            res matches Some(i) ==> i == self.index_of(name@) && self.has_at(name@, i as int),
    {
        let mut i: usize = 0;
        while i < self.entries.len()
            invariant
                self.wf(),
                i <= self.entries@.len(),
                forall|j: int| 0 <= j < i ==> self.entries@[j].name@ != name@,
            decreases self.entries@.len() - i,
        {
            if str_eq(self.entries[i].name.as_str(), name) {
                proof {
                    self.lemma_unique(name@, i as int);
                }
                return Some(i);
            }
            i = i + 1;
        }
        None
    }

    /// Adds `window` at the end of the group named `key`, making that group
    /// in its place in name order when there is none yet.
    pub fn push_window(&mut self, key: String, window: AppWindow)
        requires
            old(self).wf(),
        ensures
            final(self).wf(),
            final(self).has(key@),
            final(self).windows_of(key@) == (if old(self).has(key@) {
                old(self).windows_of(key@)
            } else {
                Seq::<AppWindow>::empty()
            }).push(window),
            forall|n: Seq<char>| n != key@ ==> (#[trigger] final(self).has(n) <==> old(self).has(n)),
            forall|n: Seq<char>| n != key@ && old(self).has(n) ==> #[trigger] final(self).windows_of(n)
                == old(self).windows_of(n),
            final(self).entries@.len() == old(self).entries@.len() + (if old(self).has(key@) {
                0int
            } else {
                1int
            }),
    {
        let n = self.entries.len();
        let mut pos: usize = 0;
        while pos < n && str_less(self.entries[pos].name.as_str(), key.as_str())
            invariant
                n == self.entries@.len(),
                pos <= n,
                forall|j: int| 0 <= j < pos ==> lex_lt(self.entries@[j].name@, key@),
            decreases n - pos,
        {
            pos = pos + 1;
        }
        let ghost old_entries = self.entries@;
        let ghost before = *self;
        proof {
            // every group from `pos` on comes after `key` or is named `key`
            assert forall|j: int| pos <= j < n && old_entries[j].name@ != key@ implies lex_lt(
                key@,
                #[trigger] old_entries[j].name@,
            ) by {
                lemma_lex_total(old_entries[pos as int].name@, key@);
                if old_entries[pos as int].name@ == key@ {
                    assert(j != pos);
                    assert(lex_lt(old_entries[pos as int].name@, old_entries[j].name@));
                } else {
                    assert(lex_lt(key@, old_entries[pos as int].name@));
                    if j != pos {
                        assert(lex_lt(old_entries[pos as int].name@, old_entries[j].name@));
                        lemma_lex_transitive(key@, old_entries[pos as int].name@, old_entries[j].name@);
                    }
                }
            }
            assert forall|j: int| 0 <= j < pos implies old_entries[j].name@ != key@ by {
                lemma_lex_irreflexive(key@);
            }
        }
        if pos < n && str_eq(self.entries[pos].name.as_str(), key.as_str()) {
            proof {
                before.lemma_unique(key@, pos as int);
            }
            let mut group = self.entries.remove(pos);
            group.windows.push(window);
            self.entries.insert(pos, group);
            proof {
                assert forall|i: int| 0 <= i < n implies #[trigger] self.entries@[i].name@
                    == old_entries[i].name@ by {
                    if i != pos {
                        assert(self.entries@[i] == old_entries[i]);
                    }
                }
                assert(self.wf());
                self.lemma_unique(key@, pos as int);
                assert forall|m: Seq<char>| m != key@ implies (#[trigger] self.has(m) <==> before.has(
                    m,
                )) by {
                    if self.has(m) {
                        let i = self.index_of(m);
                        assert(before.has_at(m, i));
                    }
                    if before.has(m) {
                        let i = before.index_of(m);
                        assert(self.has_at(m, i));
                    }
                }
                assert forall|m: Seq<char>| m != key@ && before.has(m) implies #[trigger] self.windows_of(
                    m,
                ) == before.windows_of(m) by {
                    let i = before.index_of(m);
                    assert(self.has_at(m, i));
                    self.lemma_unique(m, i);
                    assert(i != pos);
                    assert(self.entries@[i] == old_entries[i]);
                }
            }
        } else {
            let mut windows: Vec<AppWindow> = Vec::new();
            windows.push(window);
            let ghost key_view = key@;
            self.entries.insert(pos, Group { name: key, windows });
            proof {
                assert(!before.has(key_view)) by {
                    if before.has(key_view) {
                        let i = before.index_of(key_view);
                        assert(before.has_at(key_view, i));
                        if i < pos {
                        } else if i == pos {
                        } else {
                            assert(lex_lt(key_view, old_entries[i].name@));
                            lemma_lex_irreflexive(key_view);
                        }
                    }
                }
                assert forall|i: int, j: int| 0 <= i < j < self.entries@.len() implies lex_lt(
                    #[trigger] self.entries@[i].name@,
                    #[trigger] self.entries@[j].name@,
                ) by {
                    if j < pos {
                        assert(self.entries@[i] == old_entries[i]);
                        assert(self.entries@[j] == old_entries[j]);
                    } else if j == pos {
                        assert(self.entries@[i] == old_entries[i]);
                    } else if i == pos {
                        assert(self.entries@[j] == old_entries[j - 1]);
                    } else if i < pos {
                        assert(self.entries@[i] == old_entries[i]);
                        assert(self.entries@[j] == old_entries[j - 1]);
                    } else {
                        assert(self.entries@[i] == old_entries[i - 1]);
                        assert(self.entries@[j] == old_entries[j - 1]);
                    }
                }
                assert(self.wf());
                assert(self.has_at(key_view, pos as int));
                self.lemma_unique(key_view, pos as int);
                assert(self.entries@[pos as int].windows@ =~= Seq::<AppWindow>::empty().push(
                    self.entries@[pos as int].windows@[0],
                ));
                assert forall|m: Seq<char>| m != key_view implies (#[trigger] self.has(m)
                    <==> before.has(m)) by {
                    if self.has(m) {
                        let i = self.index_of(m);
                        if i < pos {
                            assert(before.has_at(m, i));
                        } else {
                            assert(before.has_at(m, i - 1));
                        }
                    }
                    if before.has(m) {
                        let i = before.index_of(m);
                        if i < pos {
                            assert(self.has_at(m, i));
                        } else {
                            assert(self.has_at(m, i + 1));
                        }
                    }
                }
                assert forall|m: Seq<char>| m != key_view && before.has(m) implies #[trigger] self.windows_of(
                    m,
                ) == before.windows_of(m) by {
                    let i = before.index_of(m);
                    if i < pos {
                        assert(self.has_at(m, i));
                        self.lemma_unique(m, i);
                    } else {
                        assert(self.has_at(m, i + 1));
                        self.lemma_unique(m, i + 1);
                    }
                }
            }
        }
    }
}

/// Groups `windows` by their lowercased application id; within a group the
/// windows keep their order.
pub fn build_groups(windows: Vec<AppWindow>) -> (res: Groups)
    ensures
        res.groups(windows@),
{
    let ghost orig = windows@;
    let n = windows.len();
    let mut windows = windows;
    let mut groups = Groups::new();
    let mut k: usize = 0;
    while k < n
        invariant
            n == orig.len(),
            k <= n,
            windows@ == orig.skip(k as int),
            groups.groups(orig.take(k as int)),
        decreases n - k,
    {
        assert(windows@[0] == orig[k as int]);
        let w = windows.remove(0);
        assert(windows@ =~= orig.skip(k + 1));
        let key = to_lowercase(w.app_id.as_str());
        let ghost prefix = orig.take(k as int);
        let ghost next = orig.take(k + 1);
        let ghost before = groups;
        let ghost key_view = key@;
        assert(next =~= prefix.push(w));
        groups.push_window(key, w);
        proof {
            assert forall|i: int| 0 <= i < groups.entries@.len() implies (#[trigger] groups.entries@[i]).windows@
                == windows_with_key(next, groups.entries@[i].name@) && groups.entries@[i].windows@.len()
                > 0 by {
                let m = groups.entries@[i].name@;
                let pred = key_is(m);
                assert(window_key(w) == key_view);
                lemma_filter_push(prefix, pred, w);
                assert(groups.has_at(m, i));
                groups.lemma_unique(m, i);
                assert(groups.entries@[i].windows@ == groups.windows_of(m));
                if m == key_view {
                    assert(pred(w));
                    assert(windows_with_key(next, m) == windows_with_key(prefix, m).push(w));
                    if !before.has(m) {
                        assert forall|j: int| 0 <= j < prefix.len() implies !pred(#[trigger] prefix[j]) by {
                            assert(before.has(window_key(prefix[j])));
                        }
                        lemma_filter_none(prefix, pred);
                        assert(windows_with_key(prefix, m) == Seq::<AppWindow>::empty());
                    } else {
                        let bi = before.index_of(m);
                        assert(before.has_at(m, bi));
                        before.lemma_unique(m, bi);
                        assert(before.entries@[bi].windows@ == windows_with_key(prefix, before.entries@[bi].name@));
                        assert(before.windows_of(m) == windows_with_key(prefix, m));
                    }
                } else {
                    assert(!pred(w));
                    assert(windows_with_key(next, m) == windows_with_key(prefix, m));
                    assert(groups.has(m));
                    assert(before.has(m));
                    let bi = before.index_of(m);
                    assert(before.has_at(m, bi));
                    before.lemma_unique(m, bi);
                    assert(before.entries@[bi].windows@ == windows_with_key(prefix, before.entries@[bi].name@));
                    assert(groups.windows_of(m) == before.windows_of(m));
                }
            }
            assert forall|j: int| 0 <= j < next.len() implies groups.has(window_key(#[trigger] next[j])) by {
                if j < k {
                    assert(next[j] == prefix[j]);
                    assert(before.has(window_key(prefix[j])));
                }
            }
        }
        k = k + 1;
    }
    assert(orig.take(n as int) =~= orig);
    groups
}


/// The name of the first group, in name order, whose name contains `search`.
pub open spec fn first_name_containing(es: Seq<Group>, search: Seq<char>) -> Option<Seq<char>>
    decreases es.len(),
{
    if es.len() == 0 {
        None
    } else if contains(es[0].name@, search) {
        Some(es[0].name@)
    } else {
        first_name_containing(es.drop_first(), search)
    }
}

proof fn lemma_first_name_skip(es: Seq<Group>, search: Seq<char>, i: int)
    requires
        0 <= i <= es.len(),
        forall|j: int| 0 <= j < i ==> !contains((#[trigger] es[j]).name@, search),
    ensures
        first_name_containing(es, search) == first_name_containing(es.skip(i), search),
    decreases i,
{
    if i > 0 {
        assert(es.drop_first().skip(i - 1) =~= es.skip(i));
        assert forall|j: int| 0 <= j < i - 1 implies !contains(
            (#[trigger] es.drop_first()[j]).name@,
            search,
        ) by {
            assert(es.drop_first()[j] == es[j + 1]);
        }
        lemma_first_name_skip(es.drop_first(), search, i - 1);
    } else {
        assert(es.skip(0) =~= es);
    }
}

/// No group's name contains `search` exactly when there is no first one.
pub proof fn lemma_first_name_none(es: Seq<Group>, search: Seq<char>)
    ensures
        first_name_containing(es, search) is None <==> forall|j: int|
            0 <= j < es.len() ==> !contains((#[trigger] es[j]).name@, search),
    decreases es.len(),
{
    if es.len() > 0 {
        lemma_first_name_none(es.drop_first(), search);
        if first_name_containing(es, search) is None {
            assert forall|j: int| 0 <= j < es.len() implies !contains((#[trigger] es[j]).name@, search) by {
                if j > 0 {
                    assert(es[j] == es.drop_first()[j - 1]);
                }
            }
        } else {
            if !contains(es[0].name@, search) {
                let j = choose|j: int|
                    0 <= j < es.len() - 1 && contains((#[trigger] es.drop_first()[j]).name@, search);
                assert(es[j + 1] == es.drop_first()[j]);
            }
        }
    }
}

/// The name picked is the first one in name order that contains the search
/// text: it is the name of a group at some index `i`, that name contains the
/// text, and no group before index `i` does; no name is picked exactly when
/// no group's name contains the text.
pub proof fn lemma_first_name_is_first(es: Seq<Group>, search: Seq<char>)
    ensures
        first_name_containing(es, search) is None <==> forall|j: int|
            0 <= j < es.len() ==> !contains((#[trigger] es[j]).name@, search),
        first_name_containing(es, search) matches Some(n) ==> exists|i: int|
            {
                &&& 0 <= i < es.len()
                &&& (#[trigger] es[i]).name@ == n
                &&& contains(n, search)
                &&& forall|j: int| 0 <= j < i ==> !contains((#[trigger] es[j]).name@, search)
            },
    decreases es.len(),
{
    lemma_first_name_none(es, search);
    if es.len() > 0 {
        lemma_first_name_is_first(es.drop_first(), search);
        if !contains(es[0].name@, search) {
            if let Some(n) = first_name_containing(es, search) {
                let rest = es.drop_first();
                let i = choose|i: int|
                    {
                        &&& 0 <= i < rest.len()
                        &&& (#[trigger] rest[i]).name@ == n
                        &&& contains(n, search)
                        &&& forall|j: int| 0 <= j < i ==> !contains((#[trigger] rest[j]).name@, search)
                    };
                assert(es[i + 1] == rest[i]);
                assert forall|j: int| 0 <= j < i + 1 implies !contains((#[trigger] es[j]).name@, search) by {
                    if j > 0 {
                        assert(es[j] == rest[j - 1]);
                    }
                }
            }
        } else {
            assert(es[0].name@ == first_name_containing(es, search)->0);
        }
    }
}

/// The name of the first group, in name order, whose name contains the
/// lowercased `search_string`.
pub fn find_group(groups: &Groups, search_string: &str) -> (res: Option<String>)
    ensures
        res is None <==> first_name_containing(groups.entries@, lowercase(search_string@)) is None,
        res matches Some(name) ==> first_name_containing(
            groups.entries@,
            lowercase(search_string@),
        ) == Some(name@),
        is_ascii_chars(search_string@) ==> (res is None <==> first_name_containing(
            groups.entries@,
            ascii_lower(search_string@),
        ) is None),
        is_ascii_chars(search_string@) ==> (res matches Some(name) ==> first_name_containing(
            groups.entries@,
            ascii_lower(search_string@),
        ) == Some(name@)),
        res is None <==> forall|j: int|
            0 <= j < groups.entries@.len() ==> !contains(
                (#[trigger] groups.entries@[j]).name@,
                lowercase(search_string@),
            ),
        res matches Some(name) ==> exists|i: int|
            {
                &&& 0 <= i < groups.entries@.len()
                &&& (#[trigger] groups.entries@[i]).name@ == name@
                &&& contains(name@, lowercase(search_string@))
                &&& forall|j: int|
                    0 <= j < i ==> !contains(
                        (#[trigger] groups.entries@[j]).name@,
                        lowercase(search_string@),
                    )
            },
{
    proof {
        lemma_first_name_is_first(groups.entries@, lowercase(search_string@));
    }
    let search = to_lowercase(search_string);
    let search_chars = chars_of(search.as_str());
    let n = groups.entries.len();
    let mut i: usize = 0;
    while i < n
        invariant
            n == groups.entries@.len(),
            search_chars@ == lowercase(search_string@),
            is_ascii_chars(search_string@) ==> search_chars@ == ascii_lower(search_string@),
            i <= n,
            forall|j: int| 0 <= j < i ==> !contains((#[trigger] groups.entries@[j]).name@, search_chars@),
        decreases n - i,
    {
        let name_chars = chars_of(groups.entries[i].name.as_str());
        if chars_contain(&name_chars, &search_chars) {
            proof {
                lemma_first_name_skip(groups.entries@, search_chars@, i as int);
                assert(groups.entries@.skip(i as int)[0] == groups.entries@[i as int]);
            }
            return Some(groups.entries[i].name.clone());
        }
        i = i + 1;
    }
    proof {
        lemma_first_name_skip(groups.entries@, search_chars@, n as int);
    }
    None
}

/// Group search ignores ASCII case: an ASCII search text selects the same
/// group as its ASCII-uppercased and its ASCII-lowercased forms, since
/// `find_group` searches for the lowercased text.
pub proof fn lemma_find_group_ignores_ascii_case(es: Seq<Group>, s: Seq<char>)
    requires
        is_ascii_chars(s),
    ensures
        is_ascii_chars(ascii_upper(s)),
        is_ascii_chars(ascii_lower(s)),
        first_name_containing(es, ascii_lower(ascii_upper(s))) == first_name_containing(
            es,
            ascii_lower(s),
        ),
        first_name_containing(es, ascii_lower(ascii_lower(s))) == first_name_containing(
            es,
            ascii_lower(s),
        ),
{
    lemma_ascii_lower_ignores_case(s);
}

/// Lengthening a search text that found no group never finds one: a name
/// that contains the lowercased `s + t` contains the lowercased `s`.
pub proof fn lemma_find_group_longer_search(es: Seq<Group>, s: Seq<char>, t: Seq<char>)
    requires
        is_ascii_chars(s),
        is_ascii_chars(t),
        first_name_containing(es, ascii_lower(s)) is None,
    ensures
        is_ascii_chars(s + t),
        first_name_containing(es, ascii_lower(s + t)) is None,
{
    assert(is_ascii_chars(s + t)) by {
        assert forall|i: int| 0 <= i < (s + t).len() implies '\0' <= #[trigger] (s + t)[i] <= '\u{7f}' by {
            if i < s.len() {
                assert((s + t)[i] == s[i]);
            } else {
                assert((s + t)[i] == t[i - s.len()]);
            }
        }
    }
    lemma_ascii_lower_concat(s, t);
    lemma_first_name_none(es, ascii_lower(s));
    lemma_first_name_none(es, ascii_lower(s + t));
    assert forall|j: int| 0 <= j < es.len() implies !contains(
        (#[trigger] es[j]).name@,
        ascii_lower(s + t),
    ) by {
        if contains(es[j].name@, ascii_lower(s + t)) {
            lemma_contains_prefix(es[j].name@, ascii_lower(s), ascii_lower(t));
        }
    }
}

/// The index of the window to select first in a group: the second window
/// when the focused window belongs to the group and the group has at least
/// two windows (the first being the focused one), the first window otherwise.
pub open spec fn initial_index(
    len: int,
    app_id: Seq<char>,
    focused_app_id: Option<Seq<char>>,
) -> int {
    if focused_app_id == Some(lowercase(app_id)) && len >= 2 {
        1
    } else {
        0
    }
}

/// The window first selected is the first or the second of its group,
/// never another: the second exactly when the focused window's application
/// id is the group's name lowercased and the group has two windows or more,
/// however many windows it holds.
pub proof fn lemma_initial_index(len: int, app_id: Seq<char>, focused_app_id: Option<Seq<char>>)
    ensures
        initial_index(len, app_id, focused_app_id) == 0 || initial_index(len, app_id, focused_app_id)
            == 1,
        initial_index(len, app_id, focused_app_id) == 1 <==> (focused_app_id == Some(lowercase(app_id))
            && len >= 2),
        len >= 1 ==> 0 <= initial_index(len, app_id, focused_app_id) < len,
{
}

/// The characters of an optional string.
pub open spec fn opt_view(s: Option<&str>) -> Option<Seq<char>> {
    match s {
        Some(t) => Some(t@),
        None => None,
    }
}

/// The index of the window to select first among `windows`, the group of
/// `app_id`, given the application id of the focused window.
pub fn initial_window_idx(windows: &[AppWindow], app_id: &str, focused_app_id: Option<&str>) -> (res: usize)
    ensures
        res == initial_index(windows@.len() as int, app_id@, opt_view(focused_app_id)),
        res == 0 || res == 1,
        res == 1 <==> (focused_app_id matches Some(f) && f@ == lowercase(app_id@) && windows@.len()
            >= 2),
{
    proof {
        lemma_initial_index(windows@.len() as int, app_id@, opt_view(focused_app_id));
    }
    let lowered = to_lowercase(app_id);
    let is_in_group = match focused_app_id {
        Some(f) => str_eq(f, lowered.as_str()),
        None => false,
    };
    if is_in_group && windows.len() >= 2 {
        1
    } else {
        0
    }
}

/// The index selected after `idx` in a group of `len` windows: the next
/// one, wrapping around, or the same one when the group has one window.
pub open spec fn next_index(idx: int, len: int) -> int {
    if len >= 2 {
        (idx + 1) % len
    } else {
        idx
    }
}

/// The index selected after `k` presses of the trigger key from `idx`.
pub open spec fn index_after(idx: int, len: int, k: nat) -> int
    decreases k,
{
    if k == 0 {
        idx
    } else {
        next_index(index_after(idx, len, (k - 1) as nat), len)
    }
}

/// Pressing the trigger key cycles through the shown group: `k` presses
/// from `idx` select `(idx + k) mod len`, so `len` presses come back to the
/// start and every window is selected on the way.
pub proof fn lemma_advance_cycles(idx: int, len: int, k: nat)
    requires
        0 <= idx < len,
    ensures
        index_after(idx, len, k) == (if len >= 2 {
            (idx + k) % len
        } else {
            idx
        }),
    decreases k,
{
    if k > 0 {
        lemma_advance_cycles(idx, len, (k - 1) as nat);
        if len >= 2 {
            vstd::arithmetic::div_mod::lemma_add_mod_noop_right(1, idx + k - 1, len);
        }
    } else if len >= 2 {
        vstd::arithmetic::div_mod::lemma_small_mod(idx as nat, len as nat);
    }
}

/// Grouping loses no window and mixes no applications: every window is in
/// the group named by its lowercased application id, and every window of a
/// group has the group's name as its lowercased application id.
pub proof fn lemma_groups_partition(g: Groups, ws: Seq<AppWindow>)
    requires
        g.groups(ws),
    ensures
        forall|j: int|
            0 <= j < ws.len() ==> g.windows_of(window_key(#[trigger] ws[j])).contains(ws[j]),
        forall|i: int, k: int|
            0 <= i < g.entries@.len() && 0 <= k < g.entries@[i].windows@.len() ==> window_key(
                #[trigger] g.entries@[i].windows@[k],
            ) == g.entries@[i].name@,
{
    assert forall|j: int| 0 <= j < ws.len() implies g.windows_of(window_key(#[trigger] ws[j])).contains(
        ws[j],
    ) by {
        let n = window_key(ws[j]);
        let i = g.index_of(n);
        assert(g.has(n));
        assert(g.has_at(n, i));
        ws.lemma_filter_contains(key_is(n), j);
    }
    assert forall|i: int, k: int|
        0 <= i < g.entries@.len() && 0 <= k < g.entries@[i].windows@.len() implies window_key(
        #[trigger] g.entries@[i].windows@[k],
    ) == g.entries@[i].name@ by {
        ws.lemma_filter_pred(key_is(g.entries@[i].name@), k);
    }
}

/// The picker: the grouped windows, the group shown and the index of the
/// window selected in it.
pub struct Picker {
    /// All windows, grouped.
    pub groups: Groups,
    /// The name of the group shown.
    pub current_group_name: String,
    /// The index of the selected window within the shown group.
    pub window_idx: usize,
}

impl Picker {
    /// A picker showing the group `current_group_name` with the window at
    /// `window_idx` selected.
    pub fn new(groups: Groups, current_group_name: String, window_idx: usize) -> (res: Self)
        ensures
            res.groups == groups,
            res.current_group_name == current_group_name,
            res.window_idx == window_idx,
    {
        Picker { groups, current_group_name, window_idx }
    }

    /// The shown group exists.
    pub open spec fn shows_group(&self) -> bool {
        self.groups.wf() && self.groups.has(self.current_group_name@)
    }

    /// The shown group exists and the selected window is in it.
    pub open spec fn wf(&self) -> bool {
        self.shows_group() && self.window_idx < self.current_windows().len()
    }

    /// The windows of the shown group.
    pub open spec fn current_windows(&self) -> Seq<AppWindow> {
        self.groups.windows_of(self.current_group_name@)
    }

    /// The windows of the shown group.
    pub fn current_group_windows(&self) -> (res: &[AppWindow])
        requires
            self.shows_group(),
        ensures
            res@ == self.current_windows(),
    {
        match self.groups.find(self.current_group_name.as_str()) {
            Some(i) => self.groups.entries[i].windows.as_slice(),
            None => {
                proof {
                    assert(false);
                }
                self.groups.entries[0].windows.as_slice()
            },
        }
    }

    /// Selects the next window of the shown group, wrapping around at the
    /// end; a group of one window keeps it selected.
    pub fn advance_window(&mut self)
        requires
            old(self).shows_group(),
            old(self).current_windows().len() >= 2 ==> old(self).window_idx < usize::MAX,
        ensures
            final(self).groups == old(self).groups,
            final(self).current_group_name == old(self).current_group_name,
            final(self).window_idx == next_index(
                old(self).window_idx as int,
                old(self).current_windows().len() as int,
            ),
            old(self).wf() ==> final(self).wf(),
    {
        let len = self.current_group_windows().len();
        if len >= 2 {
            self.window_idx = (self.window_idx + 1) % len;
        }
    }

    /// The selected window, if the index lies within the shown group.
    pub fn selected_window(&self) -> (res: Option<&AppWindow>)
        requires
            self.shows_group(),
        ensures
            res is Some <==> self.window_idx < self.current_windows().len(),
            res matches Some(w) ==> *w == self.current_windows()[self.window_idx as int],
    {
        let windows = self.current_group_windows();
        if self.window_idx < windows.len() {
            Some(&windows[self.window_idx])
        } else {
            None
        }
    }
}

} // verus!

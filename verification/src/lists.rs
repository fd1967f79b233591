//! App-local named track lists (Winamp-style playlists kept inside the app,
//! not written to the user's Spotify account).

use vstd::prelude::*;
use crate::text::{trim, trim_chars, chars_of, chars_eq, string_from_chars};

verus! {

/// A named list of track URIs.
#[derive(Clone, Debug, PartialEq, Eq)]
pub struct SavedList {
    pub name: String,
    pub uris: Vec<String>,
}

pub open spec fn uris_view(v: Seq<String>) -> Seq<Seq<char>> {
    v.map_values(|u: String| u@)
}

/// Lists as `(name, uris)`.
pub open spec fn lists_view(v: Seq<SavedList>) -> Seq<(Seq<char>, Seq<Seq<char>>)> {
    v.map_values(|l: SavedList| (l.name@, uris_view(l.uris@)))
}

/// The index of the first list named `name`.
pub open spec fn find_list(ls: Seq<(Seq<char>, Seq<Seq<char>>)>, name: Seq<char>) -> Option<int> {
    if exists|i: int| 0 <= i < ls.len() && #[trigger] ls[i].0 == name {
        Some(choose|i: int| 0 <= i < ls.len() && #[trigger] ls[i].0 == name && forall|j: int| 0 <= j < i ==> ls[j].0 != name)
    } else {
        None
    }
}

/// Saving a list under a (trimmed, non-empty) name replaces the uris of the
/// first list so named, or appends a new list.
pub open spec fn saved(ls: Seq<(Seq<char>, Seq<Seq<char>>)>, name: Seq<char>, uris: Seq<Seq<char>>) -> Seq<(Seq<char>, Seq<Seq<char>>)> {
    let n = trim(name);
    if n.len() == 0 {
        ls
    } else {
        match find_list(ls, n) {
            Some(i) => ls.update(i, (ls[i].0, uris)),
            None => ls.push((n, uris)),
        }
    }
}

/// Adding a track to a (trimmed, non-empty) name appends it to the first list
/// so named unless it is there already, or creates the list with it.
pub open spec fn added(ls: Seq<(Seq<char>, Seq<Seq<char>>)>, name: Seq<char>, uri: Seq<char>) -> Seq<(Seq<char>, Seq<Seq<char>>)> {
    let n = trim(name);
    if n.len() == 0 || uri.len() == 0 {
        ls
    } else {
        match find_list(ls, n) {
            Some(i) => if ls[i].1.contains(uri) {
                ls
            } else {
                ls.update(i, (ls[i].0, ls[i].1.push(uri)))
            },
            None => ls.push((n, seq![uri])),
        }
    }
}

/// Deleting keeps every list not named exactly `name`, in order.
pub open spec fn deleted(ls: Seq<(Seq<char>, Seq<Seq<char>>)>, name: Seq<char>) -> Seq<(Seq<char>, Seq<Seq<char>>)>
    decreases ls.len(),
{
    if ls.len() == 0 {
        ls
    } else if ls.last().0 != name {
        deleted(ls.drop_last(), name).push(ls.last())
    } else {
        deleted(ls.drop_last(), name)
    }
}

pub open spec fn names_unique(ls: Seq<(Seq<char>, Seq<Seq<char>>)>) -> bool {
    forall|i: int, j: int| 0 <= i < j < ls.len() ==> ls[i].0 != ls[j].0
}

proof fn lemma_find_list(ls: Seq<(Seq<char>, Seq<Seq<char>>)>, name: Seq<char>, i: int)
    requires
        0 <= i < ls.len(),
        ls[i].0 == name,
        forall|j: int| 0 <= j < i ==> ls[j].0 != name,
    ensures
        find_list(ls, name) == Some(i),
{
    let k = choose|k: int| 0 <= k < ls.len() && #[trigger] ls[k].0 == name && forall|j: int| 0 <= j < k ==> ls[j].0 != name;
    assert(ls[i].0 == name);
    if k < i {
        assert(ls[k].0 != name);
    }
    if k > i {
        assert(ls[i].0 != name);
    }
}

/// The index of the first list named `name`.
fn list_index(lists: &Vec<SavedList>, name: &Vec<char>) -> (r: Option<usize>)
    ensures
        match r {
            Some(i) => i < lists@.len() && find_list(lists_view(lists@), name@) == Some(i as int),
            None => find_list(lists_view(lists@), name@) is None,
        },
{
    let ghost ls = lists_view(lists@);
    let mut i: usize = 0;
    while i < lists.len()
        invariant
            i <= lists@.len(),
            ls == lists_view(lists@),
            forall|j: int| 0 <= j < i ==> ls[j].0 != name@,
        decreases lists@.len() - i,
    {
        if chars_eq(&chars_of(lists[i].name.as_str()), name) {
            proof {
                lemma_find_list(ls, name@, i as int);
            }
            return Some(i);
        }
        i += 1;
    }
    assert(!exists|k: int| 0 <= k < ls.len() && #[trigger] ls[k].0 == name@);
    None
}

fn clone_strings(v: &Vec<String>) -> (r: Vec<String>)
    ensures
        r@ == v@,
{
    let mut r: Vec<String> = Vec::new();
    let mut i: usize = 0;
    while i < v.len()
        invariant
            i <= v@.len(),
            r@ == v@.take(i as int),
        decreases v@.len() - i,
    {
        r.push(v[i].clone());
        i += 1;
        assert(r@ =~= v@.take(i as int));
    }
    assert(v@.take(i as int) =~= v@);
    r
}

fn contains_uri(uris: &Vec<String>, uri: &String) -> (r: bool)
    ensures
        r == uris_view(uris@).contains(uri@),
{
    let ghost us = uris_view(uris@);
    let target = chars_of(uri.as_str());
    let mut i: usize = 0;
    while i < uris.len()
        invariant
            i <= uris@.len(),
            us == uris_view(uris@),
            target@ == uri@,
            forall|j: int| 0 <= j < i ==> us[j] != uri@,
        decreases uris@.len() - i,
    {
        if chars_eq(&chars_of(uris[i].as_str()), &target) {
            assert(us[i as int] == uri@);
            return true;
        }
        i += 1;
    }
    false
}

/// Create or overwrite the list `name` (trimmed; nothing happens when it is
/// empty) with the given track URIs.
pub fn save_list(lists: &mut Vec<SavedList>, name: String, uris: Vec<String>)
    ensures
        lists_view(final(lists)@) == saved(lists_view(old(lists)@), name@, uris_view(uris@)),
{
    let trimmed = trim_chars(&chars_of(name.as_str()));
    if trimmed.len() == 0 {
        return;
    }
    let ghost before = lists_view(lists@);
    match list_index(lists, &trimmed) {
        Some(i) => {
            let old_name = lists[i].name.clone();
            lists.set(i, SavedList { name: old_name, uris });
            assert(lists_view(lists@) =~= before.update(i as int, (before[i as int].0, uris_view(uris@))));
        },
        None => {
            lists.push(SavedList { name: string_from_chars(&trimmed), uris });
            assert(lists_view(lists@) =~= before.push((trim(name@), uris_view(uris@))));
        },
    }
}

/// Append a track to the list `name` (trimmed), creating the list if there is
/// none; a track already in the list is not added twice. Nothing happens for
/// an empty name or URI.
pub fn add_to_list(lists: &mut Vec<SavedList>, name: String, uri: String)
    ensures
        lists_view(final(lists)@) == added(lists_view(old(lists)@), name@, uri@),
{
    let trimmed = trim_chars(&chars_of(name.as_str()));
    if trimmed.len() == 0 || uri.as_str().is_empty() {
        return;
    }
    let ghost before = lists_view(lists@);
    match list_index(lists, &trimmed) {
        Some(i) => {
            if !contains_uri(&lists[i].uris, &uri) {
                let mut uris = clone_strings(&lists[i].uris);
                uris.push(uri);
                let old_name = lists[i].name.clone();
                lists.set(i, SavedList { name: old_name, uris });
                assert(uris_view(lists@[i as int].uris@) =~= before[i as int].1.push(uri@));
                assert(lists_view(lists@) =~= before.update(i as int, (before[i as int].0, before[i as int].1.push(uri@))));
            }
        },
        None => {
            let mut uris: Vec<String> = Vec::new();
            uris.push(uri);
            lists.push(SavedList { name: string_from_chars(&trimmed), uris });
            assert(uris_view(lists@.last().uris@) =~= seq![uri@]);
            assert(lists_view(lists@) =~= before.push((trim(name@), seq![uri@])));
        },
    }
}

/// Remove every list named exactly `name`.
pub fn delete_list(lists: &mut Vec<SavedList>, name: String)
    ensures
        lists_view(final(lists)@) == deleted(lists_view(old(lists)@), name@),
{
    let ghost before = lists_view(lists@);
    let target = chars_of(name.as_str());
    let mut kept: Vec<SavedList> = Vec::new();
    let mut i: usize = 0;
    while i < lists.len()
        invariant
            i <= lists@.len(),
            before == lists_view(lists@),
            target@ == name@,
            lists_view(kept@) == deleted(before.take(i as int), name@),
        decreases lists@.len() - i,
    {
        let ghost k0 = lists_view(kept@);
        assert(before.take(i + 1).drop_last() =~= before.take(i as int));
        if !chars_eq(&chars_of(lists[i].name.as_str()), &target) {
            let l = SavedList { name: lists[i].name.clone(), uris: clone_strings(&lists[i].uris) };
            kept.push(l);
            assert(lists_view(kept@) =~= k0.push(before[i as int]));
        } else {
            assert(lists_view(kept@) =~= k0);
        }
        i += 1;
    }
    assert(before.take(i as int) =~= before);
    *lists = kept;
}


proof fn lemma_find_result(ls: Seq<(Seq<char>, Seq<Seq<char>>)>, name: Seq<char>)
    ensures
        match find_list(ls, name) {
            Some(i) => 0 <= i < ls.len() && ls[i].0 == name && forall|j: int| 0 <= j < i ==> ls[j].0 != name,
            None => forall|j: int| 0 <= j < ls.len() ==> ls[j].0 != name,
        },
{
    if exists|i: int| 0 <= i < ls.len() && #[trigger] ls[i].0 == name {
        let w = choose|i: int| 0 <= i < ls.len() && #[trigger] ls[i].0 == name;
        lemma_first_occurrence(ls, name, w);
    }
}

proof fn lemma_first_occurrence(ls: Seq<(Seq<char>, Seq<Seq<char>>)>, name: Seq<char>, w: int)
    requires
        0 <= w < ls.len(),
        ls[w].0 == name,
    ensures
        exists|i: int| 0 <= i < ls.len() && #[trigger] ls[i].0 == name && forall|j: int| 0 <= j < i ==> ls[j].0 != name,
    decreases w,
{
    if exists|j: int| 0 <= j < w && #[trigger] ls[j].0 == name {
        let j = choose|j: int| 0 <= j < w && #[trigger] ls[j].0 == name;
        lemma_first_occurrence(ls, name, j);
    } else {
        assert(forall|j: int| 0 <= j < w ==> ls[j].0 != name);
    }
}

/// A list saved under a name can be found again under that name (trimmed),
/// holding exactly the saved tracks.
pub proof fn law_save_then_find(ls: Seq<(Seq<char>, Seq<Seq<char>>)>, name: Seq<char>, uris: Seq<Seq<char>>)
    requires
        trim(name).len() > 0,
    ensures
        ({
            let after = saved(ls, name, uris);
            find_list(after, trim(name)) matches Some(i) && after[i].1 == uris
        }),
{
    let n = trim(name);
    lemma_find_result(ls, n);
    let after = saved(ls, name, uris);
    match find_list(ls, n) {
        Some(i) => {
            assert forall|j: int| 0 <= j < i implies after[j].0 != n by {
                assert(after[j] == ls[j]);
            }
            lemma_find_list(after, n, i);
        },
        None => {
            let i = ls.len() as int;
            assert forall|j: int| 0 <= j < i implies after[j].0 != n by {
                assert(after[j] == ls[j]);
            }
            lemma_find_list(after, n, i);
        },
    }
}

/// Adding a track to a list makes the list hold it.
pub proof fn law_added_track_present(ls: Seq<(Seq<char>, Seq<Seq<char>>)>, name: Seq<char>, uri: Seq<char>)
    requires
        trim(name).len() > 0,
        uri.len() > 0,
    ensures
        ({
            let after = added(ls, name, uri);
            find_list(after, trim(name)) matches Some(i) && after[i].1.contains(uri)
        }),
{
    let n = trim(name);
    lemma_find_result(ls, n);
    let after = added(ls, name, uri);
    match find_list(ls, n) {
        Some(i) => {
            assert forall|j: int| 0 <= j < i implies after[j].0 != n by {
                assert(after[j].0 == ls[j].0);
            }
            lemma_find_list(after, n, i);
            if !ls[i].1.contains(uri) {
                assert(after[i].1[ls[i].1.len() as int] == uri);
            }
        },
        None => {
            let i = ls.len() as int;
            assert forall|j: int| 0 <= j < i implies after[j].0 != n by {
                assert(after[j] == ls[j]);
            }
            lemma_find_list(after, n, i);
            assert(after[i].1[0] == uri);
        },
    }
}

/// Adding the same track to the same list twice is the same as adding it once.
pub proof fn law_add_idempotent(ls: Seq<(Seq<char>, Seq<Seq<char>>)>, name: Seq<char>, uri: Seq<char>)
    ensures
        added(added(ls, name, uri), name, uri) == added(ls, name, uri),
{
    if trim(name).len() > 0 && uri.len() > 0 {
        law_added_track_present(ls, name, uri);
    }
}

/// After deleting a name no list has that name.
pub proof fn law_delete_removes(ls: Seq<(Seq<char>, Seq<Seq<char>>)>, name: Seq<char>)
    ensures
        find_list(deleted(ls, name), name) is None,
    decreases ls.len(),
{
    let d = deleted(ls, name);
    if ls.len() > 0 {
        law_delete_removes(ls.drop_last(), name);
        lemma_find_result(deleted(ls.drop_last(), name), name);
    }
    lemma_find_result(d, name);
}

/// Saving and adding keep list names unique.
pub proof fn law_names_stay_unique(ls: Seq<(Seq<char>, Seq<Seq<char>>)>, name: Seq<char>, uris: Seq<Seq<char>>, uri: Seq<char>)
    requires
        names_unique(ls),
    ensures
        names_unique(saved(ls, name, uris)),
        names_unique(added(ls, name, uri)),
{
    let n = trim(name);
    lemma_find_result(ls, n);
    let s = saved(ls, name, uris);
    let a = added(ls, name, uri);
    assert forall|i: int, j: int| 0 <= i < j < s.len() implies s[i].0 != s[j].0 by {
        if j < ls.len() {
            assert(s[i].0 == ls[i].0 && s[j].0 == ls[j].0);
        }
    }
    assert forall|i: int, j: int| 0 <= i < j < a.len() implies a[i].0 != a[j].0 by {
        if j < ls.len() {
            assert(a[i].0 == ls[i].0 && a[j].0 == ls[j].0);
        }
    }
}

} // verus!

//! Spotify catalogue helpers: the URI scanners that pull playlist and track
//! URIs out of raw rootlist / search replies, the search endpoint, and the
//! records the player window is sent.

use vstd::prelude::*;
use crate::text::{is_white_space, is_whitespace, trim, trim_chars, chars_of, chars_eq,
    string_from_chars, append_chars, utf8_lossy, lossy_chars};

verus! {

/// Length of a Spotify base-62 id.
pub const ID_LEN: usize = 22;

pub open spec fn is_ascii_alnum(c: char) -> bool {
    ||| '0' <= c <= '9'
    ||| 'a' <= c <= 'z'
    ||| 'A' <= c <= 'Z'
}

/// `pat` occurs in `text` at `i`.
pub open spec fn matches_at(text: Seq<char>, pat: Seq<char>, i: int) -> bool {
    0 <= i && i + pat.len() <= text.len() && text.subrange(i, i + pat.len()) == pat
}

/// The 22 characters at `start` are all ASCII letters and digits.
pub open spec fn id_at(text: Seq<char>, start: int) -> bool {
    &&& 0 <= start
    &&& start + ID_LEN <= text.len()
    &&& forall|j: int| start <= j < start + ID_LEN ==> is_ascii_alnum(#[trigger] text[j])
}

/// Scan `text` from `pos` for occurrences of `pat` followed by a 22-character
/// id, collecting each `pat + id` once, in order of first appearance, after
/// those already in `found`. After each occurrence of `pat` the search goes on
/// right behind it; with a `limit`, it stops as soon as `limit` URIs are held.
pub open spec fn scan_from(
    text: Seq<char>,
    pat: Seq<char>,
    pos: int,
    found: Seq<Seq<char>>,
    limit: Option<nat>,
) -> Seq<Seq<char>>
    decreases text.len() - pos,
{
    if pat.len() == 0 || pos < 0 || pos + pat.len() > text.len() {
        found
    } else if matches_at(text, pat, pos) {
        let s = pos + pat.len();
        let uri = pat + text.subrange(s, s + ID_LEN);
        let found2 = if id_at(text, s) && !found.contains(uri) {
            found.push(uri)
        } else {
            found
        };
        if limit matches Some(l) && found2.len() >= l {
            found2
        } else {
            scan_from(text, pat, s, found2, limit)
        }
    } else {
        scan_from(text, pat, pos + 1, found, limit)
    }
}

/// All distinct `pat + id` URIs in `text`, in order, at most `limit` of them.
pub open spec fn scan_uris(text: Seq<char>, pat: Seq<char>, limit: Option<nat>) -> Seq<Seq<char>> {
    scan_from(text, pat, 0, Seq::empty(), limit)
}

fn matches_here(text: &Vec<char>, pat: &Vec<char>, i: usize) -> (r: bool)
    requires
        i + pat.len() <= text.len(),
    ensures
        r == matches_at(text@, pat@, i as int),
{
    let mut j: usize = 0;
    while j < pat.len()
        invariant
            j <= pat.len(),
            i + pat.len() <= text.len(),
            forall|k: int| 0 <= k < j ==> text@[i + k] == pat@[k],
        decreases pat.len() - j,
    {
        if text[i + j] != pat[j] {
            assert(text@.subrange(i as int, i + pat@.len())[j as int] != pat@[j as int]);
            return false;
        }
        j += 1;
    }
    assert(text@.subrange(i as int, i + pat@.len()) =~= pat@);
    true
}

fn is_ascii_alnum_char(c: char) -> (r: bool)
    ensures
        r == is_ascii_alnum(c),
{
    ('0' <= c && c <= '9') || ('a' <= c && c <= 'z') || ('A' <= c && c <= 'Z')
}

fn id_here(text: &Vec<char>, start: usize) -> (r: bool)
    ensures
        r == id_at(text@, start as int),
{
    if start > text.len() || text.len() - start < ID_LEN {
        return false;
    }
    let mut j: usize = start;
    while j < start + ID_LEN
        invariant
            start <= j <= start + ID_LEN <= text.len(),
            forall|k: int| start <= k < j ==> is_ascii_alnum(#[trigger] text@[k]),
        decreases start + ID_LEN - j,
    {
        if !is_ascii_alnum_char(text[j]) {
            return false;
        }
        j += 1;
    }
    true
}

fn contains_chars(found: &Vec<Vec<char>>, uri: &Vec<char>) -> (r: bool)
    ensures
        r == found@.map_values(|v: Vec<char>| v@).contains(uri@),
{
    let ghost views = found@.map_values(|v: Vec<char>| v@);
    let mut i: usize = 0;
    while i < found.len()
        invariant
            i <= found.len(),
            views == found@.map_values(|v: Vec<char>| v@),
            forall|k: int| 0 <= k < i ==> views[k] != uri@,
        decreases found.len() - i,
    {
        if chars_eq(&found[i], uri) {
            assert(views[i as int] == uri@);
            return true;
        }
        i += 1;
    }
    false
}

/// Collect the distinct URIs made of `pat` and a following 22-character id, in
/// order of first appearance, stopping once `limit` are held.
pub fn scan_uri_chars(text: &Vec<char>, pat: &Vec<char>, limit: Option<usize>) -> (r: Vec<Vec<char>>)
    ensures
        r@.map_values(|v: Vec<char>| v@) == scan_uris(
            text@,
            pat@,
            match limit {
                Some(l) => Some(l as nat),
                None => None,
            },
        ),
{
    let ghost lim: Option<nat> = match limit {
        Some(l) => Some(l as nat),
        None => None,
    };
    let mut found: Vec<Vec<char>> = Vec::new();
    let mut pos: usize = 0;
    assert(found@.map_values(|v: Vec<char>| v@) =~= Seq::<Seq<char>>::empty());
    if pat.len() == 0 {
        return found;
    }
    while pos <= text.len() && text.len() - pos >= pat.len()
        invariant
            pat.len() > 0,
            pos <= text.len() + 1,
            lim == (match limit {
                Some(l) => Some(l as nat),
                None => None,
            }),
            scan_from(text@, pat@, pos as int, found@.map_values(|v: Vec<char>| v@), lim)
                == scan_uris(text@, pat@, lim),
        decreases text.len() + 1 - pos,
    {
        let ghost before = found@.map_values(|v: Vec<char>| v@);
        if matches_here(text, pat, pos) {
            let s = pos + pat.len();
            let ghost uri_spec = pat@ + text@.subrange(s as int, s + ID_LEN);
            if id_here(text, s) {
                let mut uri = pat.clone();
                let id = crate::text::copy_range(text, s, s + ID_LEN);
                append_chars(&mut uri, &id);
                assert(uri@ == uri_spec);
                if !contains_chars(&found, &uri) {
                    found.push(uri);
                    assert(found@.map_values(|v: Vec<char>| v@) =~= before.push(uri_spec));
                } else {
                    assert(found@.map_values(|v: Vec<char>| v@) =~= before);
                }
            } else {
                assert(found@.map_values(|v: Vec<char>| v@) =~= before);
            }
            let ghost after = found@.map_values(|v: Vec<char>| v@);
            assert(after == (if id_at(text@, s as int) && !before.contains(uri_spec) {
                before.push(uri_spec)
            } else {
                before
            }));
            assert(scan_from(text@, pat@, pos as int, before, lim) == (if lim matches Some(l)
                && after.len() >= l {
                after
            } else {
                scan_from(text@, pat@, s as int, after, lim)
            }));
            if let Some(l) = limit {
                if found.len() >= l {
                    return found;
                }
            }
            pos = s;
        } else {
            assert(scan_from(text@, pat@, pos as int, before, lim) == scan_from(
                text@,
                pat@,
                pos + 1,
                before,
                lim,
            ));
            pos += 1;
        }
    }
    assert(scan_from(text@, pat@, pos as int, found@.map_values(|v: Vec<char>| v@), lim)
        == found@.map_values(|v: Vec<char>| v@));
    found
}

fn strings_of(v: &Vec<Vec<char>>) -> (r: Vec<String>)
    ensures
        r@.map_values(|s: String| s@) == v@.map_values(|c: Vec<char>| c@),
{
    let mut r: Vec<String> = Vec::new();
    let mut i: usize = 0;
    while i < v.len()
        invariant
            i <= v.len(),
            r@.map_values(|s: String| s@) == v@.subrange(0, i as int).map_values(
                |c: Vec<char>| c@,
            ),
        decreases v.len() - i,
    {
        let ghost prev = r@.map_values(|s: String| s@);
        let st = string_from_chars(&v[i]);
        r.push(st);
        assert(r@.map_values(|s: String| s@) =~= prev.push(v@[i as int]@));
        assert(v@.subrange(0, i + 1).map_values(|c: Vec<char>| c@) =~= v@.subrange(
            0,
            i as int,
        ).map_values(|c: Vec<char>| c@).push(v@[i as int]@));
        i += 1;
        assert(r@.map_values(|s: String| s@) =~= v@.subrange(0, i as int).map_values(
            |c: Vec<char>| c@,
        ));
    }
    assert(v@.subrange(0, i as int) =~= v@);
    r
}

pub open spec fn playlist_prefix() -> Seq<char> {
    seq!['s', 'p', 'o', 't', 'i', 'f', 'y', ':', 'p', 'l', 'a', 'y', 'l', 'i', 's', 't', ':']
}

pub open spec fn track_prefix() -> Seq<char> {
    seq!['s', 'p', 'o', 't', 'i', 'f', 'y', ':', 't', 'r', 'a', 'c', 'k', ':']
}

/// The most track URIs a search returns.
pub const SEARCH_LIMIT: usize = 50;

/// The playlist URIs in a rootlist reply (protobuf, whose URIs appear as
/// literal strings): every distinct `spotify:playlist:<22-char id>`, in order.
pub fn scan_playlist_uris(bytes: &[u8]) -> (r: Vec<String>)
    ensures
        r@.map_values(|s: String| s@) == scan_uris(utf8_lossy(bytes@), playlist_prefix(), None),
{
    let text = lossy_chars(bytes);
    let pat = vec!['s', 'p', 'o', 't', 'i', 'f', 'y', ':', 'p', 'l', 'a', 'y', 'l', 'i', 's', 't', ':'];
    assert(pat@ =~= playlist_prefix());
    let found = scan_uri_chars(&text, &pat, None);
    strings_of(&found)
}

/// The track URIs in a search reply (JSON): the first 50 distinct
/// `spotify:track:<22-char id>`, in order.
pub fn scan_track_uris(bytes: &[u8]) -> (r: Vec<String>)
    ensures
        r@.map_values(|s: String| s@) == scan_uris(utf8_lossy(bytes@), track_prefix(), Some(50)),
{
    let text = lossy_chars(bytes);
    let pat = vec!['s', 'p', 'o', 't', 'i', 'f', 'y', ':', 't', 'r', 'a', 'c', 'k', ':'];
    assert(pat@ =~= track_prefix());
    let found = scan_uri_chars(&text, &pat, Some(SEARCH_LIMIT));
    strings_of(&found)
}

/// A URI the scanners can return: `pat` followed by a 22-character id.
pub open spec fn is_scanned_uri(u: Seq<char>, pat: Seq<char>) -> bool {
    &&& u.len() == pat.len() + ID_LEN
    &&& u.subrange(0, pat.len() as int) == pat
    &&& forall|j: int| pat.len() <= j < u.len() ==> is_ascii_alnum(#[trigger] u[j])
}

proof fn lemma_scan_from(
    text: Seq<char>,
    pat: Seq<char>,
    pos: int,
    found: Seq<Seq<char>>,
    limit: Option<nat>,
)
    requires
        forall|k: int| 0 <= k < found.len() ==> is_scanned_uri(#[trigger] found[k], pat),
        found.no_duplicates(),
        limit matches Some(l) ==> found.len() < l,
    ensures
        ({
            let r = scan_from(text, pat, pos, found, limit);
            &&& forall|k: int| 0 <= k < r.len() ==> is_scanned_uri(#[trigger] r[k], pat)
            &&& r.no_duplicates()
            &&& limit matches Some(l) ==> r.len() <= l
            &&& r.len() >= found.len()
            &&& r.subrange(0, found.len() as int) == found
        }),
    decreases text.len() - pos,
{
    if pat.len() == 0 || pos < 0 || pos + pat.len() > text.len() {
        assert(found.subrange(0, found.len() as int) =~= found);
    } else if matches_at(text, pat, pos) {
        let s = pos + pat.len();
        let uri = pat + text.subrange(s, s + ID_LEN);
        let found2 = if id_at(text, s) && !found.contains(uri) {
            found.push(uri)
        } else {
            found
        };
        if id_at(text, s) && !found.contains(uri) {
            assert(uri.subrange(0, pat.len() as int) =~= pat);
            assert forall|j: int| pat.len() <= j < uri.len() implies is_ascii_alnum(#[trigger] uri[j]) by {
                assert(uri[j] == text[s + j - pat.len()]);
            }
            assert forall|k: int| 0 <= k < found2.len() implies is_scanned_uri(#[trigger] found2[k], pat) by {
                if k < found.len() {
                    assert(found2[k] == found[k]);
                }
            }
            assert forall|a: int, b: int| 0 <= a < found2.len() && 0 <= b < found2.len() && a != b
                implies found2[a] != found2[b] by {
                if a == found.len() {
                    assert(found2[a] == uri);
                    assert(found[b] == found2[b]);
                    if found[b] == uri {
                        assert(found.contains(uri));
                    }
                } else if b == found.len() {
                    assert(found2[b] == uri);
                    assert(found[a] == found2[a]);
                    if found[a] == uri {
                        assert(found.contains(uri));
                    }
                } else {
                    assert(found[a] == found2[a]);
                    assert(found[b] == found2[b]);
                }
            }
        }
        if limit matches Some(l) && found2.len() >= l {
            assert(found2.subrange(0, found.len() as int) =~= found);
        } else {
            lemma_scan_from(text, pat, s, found2, limit);
            let r = scan_from(text, pat, s, found2, limit);
            assert(r.subrange(0, found.len() as int) =~= r.subrange(0, found2.len() as int).subrange(
                0,
                found.len() as int,
            ));
            assert(found2.subrange(0, found.len() as int) =~= found);
        }
    } else {
        lemma_scan_from(text, pat, pos + 1, found, limit);
    }
}

/// Every URI a scan returns is the pattern followed by a 22-character ASCII
/// alphanumeric id, no URI is returned twice, and a limited scan returns at
/// most its limit.
pub proof fn law_scan_uris(text: Seq<char>, pat: Seq<char>, limit: Option<nat>)
    requires
        limit matches Some(l) ==> l >= 1,
    ensures
        forall|k: int| 0 <= k < scan_uris(text, pat, limit).len()
            ==> is_scanned_uri(#[trigger] scan_uris(text, pat, limit)[k], pat),
        scan_uris(text, pat, limit).no_duplicates(),
        limit matches Some(l) ==> scan_uris(text, pat, limit).len() <= l,
{
    lemma_scan_from(text, pat, 0, Seq::empty(), limit);
}

/// Where the word-joiner stands: before any word, inside a word, or in the
/// whitespace after one.
pub enum JoinState {
    Start,
    InWord,
    Gap,
}

/// `s.split_whitespace()` joined with `+`, read from state `st`.
pub open spec fn join_words_from(s: Seq<char>, st: JoinState) -> Seq<char>
    decreases s.len(),
{
    if s.len() == 0 {
        Seq::empty()
    } else if is_white_space(s[0]) {
        join_words_from(
            s.drop_first(),
            match st {
                JoinState::Start => JoinState::Start,
                _ => JoinState::Gap,
            },
        )
    } else {
        (if st is Gap {
            seq!['+', s[0]]
        } else {
            seq![s[0]]
        }) + join_words_from(s.drop_first(), JoinState::InWord)
    }
}

/// The whitespace-separated words of `s` joined with `+`.
pub open spec fn join_words(s: Seq<char>) -> Seq<char> {
    join_words_from(s, JoinState::Start)
}

pub open spec fn search_path_prefix() -> Seq<char> {
    seq![
        '/', 'c', 'o', 'n', 't', 'e', 'x', 't', '-', 'r', 'e', 's', 'o', 'l', 'v', 'e', '/',
        'v', '1', '/', 's', 'p', 'o', 't', 'i', 'f', 'y', ':', 's', 'e', 'a', 'r', 'c', 'h',
        ':',
    ]
}

/// The context-resolve endpoint a catalogue search asks, or `None` for a blank
/// query (which is answered with no results and no request).
pub open spec fn search_endpoint_spec(query: Seq<char>) -> Option<Seq<char>> {
    if trim(query).len() == 0 {
        None
    } else {
        Some(search_path_prefix() + join_words(trim(query)))
    }
}

pub open spec fn no_white_space(w: Seq<char>) -> bool {
    forall|i: int| 0 <= i < w.len() ==> !is_white_space(#[trigger] w[i])
}

proof fn lemma_word_then(a: Seq<char>, rest: Seq<char>, st: JoinState)
    requires
        a.len() > 0,
        no_white_space(a),
        !(st is Gap),
    ensures
        join_words_from(a + rest, st) == a + join_words_from(rest, JoinState::InWord),
    decreases a.len(),
{
    let s = a + rest;
    assert(s[0] == a[0]);
    assert(s.drop_first() =~= a.drop_first() + rest);
    if a.len() == 1 {
        assert(a.drop_first() + rest =~= rest);
        assert(seq![a[0]] + join_words_from(rest, JoinState::InWord) =~= a + join_words_from(rest, JoinState::InWord));
    } else {
        lemma_word_then(a.drop_first(), rest, JoinState::InWord);
        assert(seq![a[0]] + (a.drop_first() + join_words_from(rest, JoinState::InWord)) =~= a + join_words_from(
            rest,
            JoinState::InWord,
        ));
    }
}

proof fn lemma_jwf_empty(st: JoinState)
    ensures
        join_words_from(Seq::empty(), st) == Seq::<char>::empty(),
{
}

/// A search query's words are joined with `+`: the joined text holds no
/// whitespace, a single word is kept as it is, and two words separated by a
/// space become the first word, `+`, and the second.
pub proof fn law_join_words(s: Seq<char>, a: Seq<char>, b: Seq<char>)
    requires
        a.len() > 0,
        b.len() > 0,
        no_white_space(a),
        no_white_space(b),
    ensures
        no_white_space(join_words(s)),
        join_words(a) == a,
        join_words(a + seq![' '] + b) == a + seq!['+'] + b,
{
    lemma_join_no_white(s, JoinState::Start);
    lemma_jwf_empty(JoinState::InWord);
    lemma_word_then(a, Seq::empty(), JoinState::Start);
    assert(a + Seq::<char>::empty() =~= a);
    let rest = seq![' '] + b;
    assert(a + seq![' '] + b =~= a + rest);
    lemma_word_then(a, rest, JoinState::Start);
    assert(is_white_space(' '));
    assert(rest.drop_first() =~= b);
    assert(join_words_from(rest, JoinState::InWord) == join_words_from(b, JoinState::Gap));
    assert(b.drop_first() + Seq::<char>::empty() =~= b.drop_first());
    if b.len() > 1 {
        lemma_word_then(b.drop_first(), Seq::empty(), JoinState::InWord);
        assert(no_white_space(b.drop_first())) by {
            assert forall|i: int| 0 <= i < b.drop_first().len() implies !is_white_space(#[trigger] b.drop_first()[i]) by {
                assert(b.drop_first()[i] == b[i + 1]);
            }
        }
    }
    assert(join_words_from(b.drop_first(), JoinState::InWord) == b.drop_first());
    assert(join_words_from(b, JoinState::Gap) == seq!['+', b[0]] + b.drop_first());
    assert(seq!['+', b[0]] + b.drop_first() =~= seq!['+'] + b);
    assert(a + (seq!['+'] + b) =~= a + seq!['+'] + b);
}

proof fn lemma_join_no_white(s: Seq<char>, st: JoinState)
    ensures
        no_white_space(join_words_from(s, st)),
    decreases s.len(),
{
    if s.len() > 0 {
        let next = if is_white_space(s[0]) {
            match st {
                JoinState::Start => JoinState::Start,
                _ => JoinState::Gap,
            }
        } else {
            JoinState::InWord
        };
        lemma_join_no_white(s.drop_first(), next);
        if !is_white_space(s[0]) {
            let head = if st is Gap { seq!['+', s[0]] } else { seq![s[0]] };
            let tail = join_words_from(s.drop_first(), JoinState::InWord);
            assert(join_words_from(s, st) == head + tail);
            assert(is_white_space('+') == false);
            assert forall|i: int| 0 <= i < (head + tail).len() implies !is_white_space(#[trigger] (head + tail)[i]) by {
                if i >= head.len() {
                    assert((head + tail)[i] == tail[i - head.len()]);
                }
            }
        }
    }
}

fn join_words_chars(s: &Vec<char>) -> (r: Vec<char>)
    ensures
        r@ == join_words(s@),
{
    let mut r: Vec<char> = Vec::new();
    let mut st = JoinState::Start;
    let mut i: usize = 0;
    assert(s@.subrange(0, s@.len() as int) =~= s@);
    assert(r@ + join_words(s@) =~= join_words(s@));
    while i < s.len()
        invariant
            i <= s.len(),
            r@ + join_words_from(s@.subrange(i as int, s@.len() as int), st) == join_words(s@),
        decreases s.len() - i,
    {
        let ghost rest = s@.subrange(i as int, s@.len() as int);
        assert(rest.drop_first() =~= s@.subrange(i + 1, s@.len() as int));
        let c = s[i];
        if is_whitespace(c) {
            st = match st {
                JoinState::Start => JoinState::Start,
                _ => JoinState::Gap,
            };
        } else {
            let ghost r0 = r@;
            let gap = match st {
                JoinState::Gap => true,
                _ => false,
            };
            if gap {
                r.push('+');
            }
            r.push(c);
            st = JoinState::InWord;
            assert(r@ =~= r0 + (if gap {
                seq!['+', c]
            } else {
                seq![c]
            }));
        }
        i += 1;
    }
    assert(s@.subrange(i as int, s@.len() as int) =~= Seq::<char>::empty());
    assert(r@ =~= join_words(s@));
    r
}

/// The endpoint a catalogue search for `query` asks
/// (`/context-resolve/v1/spotify:search:<words joined by +>`), or `None` when
/// the query is blank and no request is made.
pub fn search_endpoint(query: &str) -> (r: Option<String>)
    ensures
        match r {
            Some(e) => search_endpoint_spec(query@) == Some(e@),
            None => search_endpoint_spec(query@) is None,
        },
{
    let q = chars_of(query);
    let t = trim_chars(&q);
    if t.len() == 0 {
        return None;
    }
    let mut e = vec![
        '/', 'c', 'o', 'n', 't', 'e', 'x', 't', '-', 'r', 'e', 's', 'o', 'l', 'v', 'e', '/',
        'v', '1', '/', 's', 'p', 'o', 't', 'i', 'f', 'y', ':', 's', 'e', 'a', 'r', 'c', 'h',
        ':',
    ];
    assert(e@ =~= search_path_prefix());
    let words = join_words_chars(&t);
    append_chars(&mut e, &words);
    Some(string_from_chars(&e))
}

/// A playlist from the current user's library (sent to the frontend).
pub struct UserPlaylist {
    pub name: String,
    pub uri: String,
    pub track_count: u32,
    pub image: Option<String>,
}

impl UserPlaylist {
    /// The record for a resolved playlist: a negative length counts as empty,
    /// and no image is attached.
    pub fn from_resolved(name: String, uri: String, length: i32) -> (r: UserPlaylist)
        ensures
            r.name == name,
            r.uri == uri,
            r.track_count == (if length < 0 { 0 } else { length as int }),
            r.image is None,
    {
        let track_count: u32 = if length < 0 { 0 } else { length as u32 };
        UserPlaylist { name, uri, track_count, image: None }
    }
}

/// What the player window is told about a track.
pub struct TrackMetadata {
    pub uri: String,
    pub artist: String,
    pub album: String,
    pub album_art: Option<String>,
    pub name: String,
    pub duration: u32,
    pub unavailable: bool,
}

/// The fields of a catalogue track that `TrackMetadata` is made from.
pub struct TrackInfo {
    /// The track's `spotify:track:` URI.
    pub uri: String,
    /// Artist names, in credit order.
    pub artists: Vec<String>,
    pub album_name: String,
    /// Hex id of the album's first cover, when there is one.
    pub first_cover_hex: Option<String>,
    pub name: String,
    /// Duration in milliseconds.
    pub duration: i32,
    pub has_restrictions: bool,
    pub has_alternatives: bool,
}

pub open spec fn unknown_artist() -> Seq<char> {
    seq!['U', 'n', 'k', 'n', 'o', 'w', 'n', ' ', 'A', 'r', 't', 'i', 's', 't']
}

pub open spec fn cover_url_prefix() -> Seq<char> {
    seq![
        'h', 't', 't', 'p', 's', ':', '/', '/', 'i', '.', 's', 'c', 'd', 'n', '.', 'c', 'o',
        '/', 'i', 'm', 'a', 'g', 'e', '/',
    ]
}

impl TrackMetadata {
    /// The record for `track`: the first credited artist (or "Unknown
    /// Artist"), the CDN URL of the first album cover, and whether the track is
    /// restricted with no alternative to play instead.
    pub fn from_track(track: &TrackInfo) -> (r: TrackMetadata)
        ensures
            r.uri@ == track.uri@,
            r.artist@ == (if track.artists.len() > 0 {
                track.artists@[0]@
            } else {
                unknown_artist()
            }),
            r.album@ == track.album_name@,
            match track.first_cover_hex {
                Some(h) => r.album_art matches Some(a) && a@ == cover_url_prefix() + h@,
                None => r.album_art is None,
            },
            r.name@ == track.name@,
            r.duration == track.duration as u32,
            r.unavailable == (track.has_restrictions && !track.has_alternatives),
    {
        let album_art = match &track.first_cover_hex {
            Some(hex) => {
                let mut url = vec![
                    'h', 't', 't', 'p', 's', ':', '/', '/', 'i', '.', 's', 'c', 'd', 'n', '.',
                    'c', 'o', '/', 'i', 'm', 'a', 'g', 'e', '/',
                ];
                assert(url@ =~= cover_url_prefix());
                let h = chars_of(hex.as_str());
                append_chars(&mut url, &h);
                Some(string_from_chars(&url))
            },
            None => None,
        };
        let artist = if track.artists.len() > 0 {
            track.artists[0].clone()
        } else {
            let w = vec!['U', 'n', 'k', 'n', 'o', 'w', 'n', ' ', 'A', 'r', 't', 'i', 's', 't'];
            assert(w@ =~= unknown_artist());
            string_from_chars(&w)
        };
        TrackMetadata {
            unavailable: track.has_restrictions && !track.has_alternatives,
            uri: track.uri.clone(),
            artist,
            album: track.album_name.clone(),
            album_art,
            name: track.name.clone(),
            duration: track.duration as u32,
        }
    }
}

} // verus!

//! Controller mode: what the official Spotify app is playing, read through the
//! system media session, and the transport commands sent back to it.
//!
//! Every call is best-effort: without a session (Spotify closed, or a system
//! without media sessions) the player reads "nothing playing" and the
//! commands report `false`.

use vstd::prelude::*;
use crate::text::{chars_of, unicode_lower, to_lowercase};

verus! {

/// What the media session reports.
#[derive(Clone, Debug, PartialEq, Eq)]
pub struct NowPlaying {
    /// False when no media session exists at all (e.g. Spotify isn't running).
    pub available: bool,
    pub title: String,
    pub artist: String,
    pub album: String,
    pub position_ms: u64,
    pub duration_ms: u64,
    pub playing: bool,
}

impl Default for NowPlaying {
    fn default() -> (n: NowPlaying)
        ensures
            idle_now_playing(n),
    {
        NowPlaying {
            available: false,
            title: String::new(),
            artist: String::new(),
            album: String::new(),
            position_ms: 0,
            duration_ms: 0,
            playing: false,
        }
    }
}

/// Nothing available, nothing playing, every field empty or zero.
pub open spec fn idle_now_playing(n: NowPlaying) -> bool {
    &&& !n.available
    &&& n.title@.len() == 0
    &&& n.artist@.len() == 0
    &&& n.album@.len() == 0
    &&& n.position_ms == 0
    &&& n.duration_ms == 0
    &&& !n.playing
}

/// The timeline of a session, in 100 ns ticks; `None` where a getter failed.
pub struct TimelineReadings {
    pub position_ticks: Option<i64>,
    pub end_ticks: Option<i64>,
    /// When `position_ticks` was captured, in ticks since 1601-01-01 UTC.
    pub last_updated_ticks: Option<i64>,
}

/// What the getters of a media session returned (`None` where one failed),
/// and the wall clock in milliseconds since the Unix epoch (`None` when the
/// clock reads before it).
pub struct SessionReadings {
    pub title: Option<String>,
    pub artist: Option<String>,
    pub album: Option<String>,
    /// Whether the playback status is "playing".
    pub playing: Option<bool>,
    pub timeline: Option<TimelineReadings>,
    pub now_unix_ms: Option<u128>,
}

/// A timespan of 100 ns ticks in whole milliseconds, negative spans as zero.
pub open spec fn ticks_ms(t: i64) -> u64 {
    if t < 0 {
        0
    } else {
        (t / 10000) as u64
    }
}

/// The Unix clock in ticks since 1601-01-01 (11644473600 s before the epoch),
/// the milliseconds first cut to 64 bits.
pub open spec fn clock_ticks(now_ms: u128) -> int {
    (now_ms as i64) as int * 10000 + 116444736000000000
}

/// The clock arithmetic stays within 64-bit ticks.
pub open spec fn clock_fits(now_ms: u128, updated: i64) -> bool {
    &&& i64::MIN <= (now_ms as i64) as int * 10000 <= i64::MAX
    &&& i64::MIN <= clock_ticks(now_ms) <= i64::MAX
    &&& i64::MIN <= clock_ticks(now_ms) - updated <= i64::MAX
}

/// Whole milliseconds from `updated` to the clock, rounded toward zero.
pub open spec fn elapsed_ms(now_ms: u128, updated: i64) -> int {
    let d = clock_ticks(now_ms) - updated;
    if d >= 0 {
        d / 10000
    } else {
        -((-d) / 10000)
    }
}

/// The clock arithmetic of a playing session stays within 64-bit ticks.
pub open spec fn readings_fit(r: SessionReadings) -> bool {
    r.playing == Some(true) ==> match (r.timeline, r.now_unix_ms) {
        (Some(t), Some(now)) => match t.last_updated_ticks {
            Some(u) => clock_fits(now, u),
            None => true,
        },
        _ => true,
    }
}

pub open spec fn text_or_empty(s: Option<String>) -> Seq<char> {
    match s {
        Some(s) => s@,
        None => Seq::empty(),
    }
}

pub open spec fn reported_position(r: SessionReadings) -> u64 {
    match r.timeline {
        Some(t) => match t.position_ticks {
            Some(p) => ticks_ms(p),
            None => 0,
        },
        None => 0,
    }
}

pub open spec fn reported_duration(r: SessionReadings) -> u64 {
    match r.timeline {
        Some(t) => match t.end_ticks {
            Some(e) => ticks_ms(e),
            None => 0,
        },
        None => 0,
    }
}

/// The position shown: the reported one, carried forward by the time since
/// it was captured while playing (the app refreshes it only every few
/// seconds), but never past the end of the track.
pub open spec fn shown_position(r: SessionReadings) -> u64 {
    let pos = reported_position(r);
    let dur = reported_duration(r);
    let playing = r.playing == Some(true);
    match (r.timeline, r.now_unix_ms) {
        (Some(t), Some(now)) => match t.last_updated_ticks {
            Some(u) => if playing && elapsed_ms(now, u) > 0 {
                let ahead = pos + elapsed_ms(now, u);
                let cap = if dur > pos { dur as int } else { pos as int };
                (if ahead < cap { ahead } else { cap }) as u64
            } else {
                pos
            },
            None => pos,
        },
        _ => pos,
    }
}

/// The position shown is never behind the one reported, and carrying it
/// forward never takes it past the end of the track (or past the reported
/// position, when that is already beyond the end).
pub proof fn law_shown_position_bounded(r: SessionReadings)
    ensures
        reported_position(r) <= shown_position(r),
        shown_position(r) <= if reported_duration(r) > reported_position(r) {
            reported_duration(r)
        } else {
            reported_position(r)
        },
        r.playing != Some(true) ==> shown_position(r) == reported_position(r),
        ({
            &&& r.playing == Some(true)
            &&& r.timeline is Some
            &&& r.now_unix_ms is Some
            &&& r.timeline->0.last_updated_ticks is Some
            &&& elapsed_ms(r.now_unix_ms->0, r.timeline->0.last_updated_ticks->0) > 0
            &&& reported_position(r) + elapsed_ms(r.now_unix_ms->0, r.timeline->0.last_updated_ticks->0)
                < reported_duration(r)
        }) ==> shown_position(r) == reported_position(r) + elapsed_ms(
            r.now_unix_ms->0,
            r.timeline->0.last_updated_ticks->0,
        ),
{
}

/// Session times are counted in 100 ns ticks: a time is shown as the whole
/// milliseconds it spans, and a negative one as zero.
pub proof fn law_ticks_are_tenths_of_microseconds(t: i64)
    ensures
        t >= 0 ==> ticks_ms(t) * 10000 <= t < (ticks_ms(t) + 1) * 10000,
        t < 0 ==> ticks_ms(t) == 0,
{
}

fn ticks_to_ms(t: i64) -> (r: u64)
    ensures
        r == ticks_ms(t),
{
    if t < 0 {
        0
    } else {
        (t as u64) / 10000
    }
}

fn text_or_default(s: Option<String>) -> (r: String)
    ensures
        r@ == text_or_empty(s),
{
    match s {
        Some(s) => s,
        None => String::new(),
    }
}

/// The milliseconds from `updated` to the clock, rounded toward zero.
fn elapsed_since(now_ms: u128, updated: i64) -> (e: i64)
    requires
        clock_fits(now_ms, updated),
    ensures
        e == elapsed_ms(now_ms, updated),
{
    let now = now_ms as i64;
    let ticks = now * 10_000 + 11_644_473_600_000 * 10_000;
    let d = ticks - updated;
    if d >= 0 {
        d / 10_000
    } else {
        -((-(d as i128)) / 10_000) as i64
    }
}

/// What an open media session reports.
pub fn now_playing_from(r: SessionReadings) -> (n: NowPlaying)
    requires
        readings_fit(r),
    ensures
        n.available,
        n.title@ == text_or_empty(r.title),
        n.artist@ == text_or_empty(r.artist),
        n.album@ == text_or_empty(r.album),
        n.playing == (r.playing == Some(true)),
        n.duration_ms == reported_duration(r),
        n.position_ms == shown_position(r),
{
    let playing = match r.playing {
        Some(p) => p,
        None => false,
    };
    let mut position_ms: u64 = 0;
    let mut duration_ms: u64 = 0;
    match r.timeline {
        Some(t) => {
            position_ms = match t.position_ticks {
                Some(p) => ticks_to_ms(p),
                None => 0,
            };
            duration_ms = match t.end_ticks {
                Some(e) => ticks_to_ms(e),
                None => 0,
            };
            if playing {
                match (t.last_updated_ticks, r.now_unix_ms) {
                    (Some(u), Some(now)) => {
                        let elapsed = elapsed_since(now, u);
                        if elapsed > 0 {
                            assert(position_ms <= 922337203685477);
                            let ahead = position_ms + (elapsed as u64);
                            let cap = if duration_ms > position_ms {
                                duration_ms
                            } else {
                                position_ms
                            };
                            position_ms = if ahead < cap {
                                ahead
                            } else {
                                cap
                            };
                        }
                    },
                    _ => {},
                }
            }
        },
        None => {},
    }
    NowPlaying {
        available: true,
        title: text_or_default(r.title),
        artist: text_or_default(r.artist),
        album: text_or_default(r.album),
        position_ms,
        duration_ms,
        playing,
    }
}

/// The `n` characters of `hay` from index `i`.
pub open spec fn window_at(hay: Seq<char>, i: int, n: int) -> Seq<char> {
    hay.subrange(i, i + n)
}

/// Whether `needle` occurs in `hay`.
pub open spec fn has_infix(hay: Seq<char>, needle: Seq<char>) -> bool {
    exists|i: int| 0 <= i && i + needle.len() <= hay.len() && #[trigger] window_at(hay, i, needle.len() as int) == needle
}

fn infix_at(hay: &Vec<char>, needle: &Vec<char>, i: usize) -> (r: bool)
    requires
        i + needle.len() <= hay.len(),
    ensures
        r == (window_at(hay@, i as int, needle.len() as int) == needle@),
{
    let mut k: usize = 0;
    while k < needle.len()
        invariant
            k <= needle.len(),
            i + needle.len() <= hay.len(),
            forall|j: int| 0 <= j < k ==> hay@[i + j] == needle@[j],
        decreases needle.len() - k,
    {
        if hay[i + k] != needle[k] {
            assert(hay@.subrange(i as int, i + needle.len())[k as int] != needle@[k as int]);
            return false;
        }
        k += 1;
    }
    assert(hay@.subrange(i as int, i + needle.len()) =~= needle@);
    true
}

fn contains_chars(hay: &Vec<char>, needle: &Vec<char>) -> (r: bool)
    ensures
        r == has_infix(hay@, needle@),
{
    if needle.len() > hay.len() {
        return false;
    }
    if needle.len() == 0 {
        assert(window_at(hay@, 0, 0) =~= needle@);
        return true;
    }
    let last = hay.len() - needle.len();
    let mut i: usize = 0;
    while i <= last
        invariant
            0 < needle.len() <= hay.len(),
            last == hay.len() - needle.len(),
            i <= last + 1,
            forall|j: int| 0 <= j < i ==> #[trigger] window_at(hay@, j, needle.len() as int) != needle@,
        decreases last + 1 - i,
    {
        if infix_at(hay, needle, i) {
            return true;
        }
        i += 1;
    }
    false
}

/// Whether a session's app id names Spotify (any case).
pub open spec fn is_spotify_id(id: Seq<char>) -> bool {
    has_infix(unicode_lower(id), "spotify"@)
}

/// Whether a session's app id could be read and names Spotify.
pub open spec fn names_spotify(id: Option<String>) -> bool {
    match id {
        Some(id) => is_spotify_id(id@),
        None => false,
    }
}

/// The session to read when several apps hold one: the first whose app id
/// (where it could be read) names Spotify. `None` means Windows' current
/// session is used instead.
pub fn preferred_session(ids: &Vec<Option<String>>) -> (r: Option<usize>)
    ensures
        match r {
            Some(i) => i < ids@.len() && names_spotify(ids@[i as int]) && forall|j: int|
                0 <= j < i ==> !#[trigger] names_spotify(ids@[j]),
            None => forall|j: int| 0 <= j < ids@.len() ==> !#[trigger] names_spotify(ids@[j]),
        },
{
    let needle = chars_of("spotify");
    let mut i: usize = 0;
    while i < ids.len()
        invariant
            i <= ids@.len(),
            needle@ == "spotify"@,
            forall|j: int| 0 <= j < i ==> !#[trigger] names_spotify(ids@[j]),
        decreases ids@.len() - i,
    {
        match &ids[i] {
            Some(id) => {
                let lower = to_lowercase(id.as_str());
                if contains_chars(&chars_of(lower.as_str()), &needle) {
                    return Some(i);
                }
            },
            None => {},
        }
        i += 1;
    }
    None
}

/// The seek target in 100 ns ticks.
pub fn seek_ticks(position_ms: u64) -> (t: i64)
    requires
        position_ms * 10000 <= i64::MAX,
    ensures
        t == position_ms * 10000,
{
    (position_ms as i64) * 10_000
}

/// What a transport command reports: the session's answer, `false` when there
/// was no session or the call failed.
pub fn transport_result(answer: Option<bool>) -> (ok: bool)
    ensures
        ok == (answer == Some(true)),
{
    match answer {
        Some(ok) => ok,
        None => false,
    }
}

/// Without a media session (systems other than Windows): nothing playing.
pub fn now_playing() -> (n: NowPlaying)
    ensures
        idle_now_playing(n),
{
    NowPlaying::default()
}

/// Without a media session: the command cannot be delivered.
pub fn play() -> (ok: bool)
    ensures
        !ok,
{
    false
}

/// Without a media session: the command cannot be delivered.
pub fn pause() -> (ok: bool)
    ensures
        !ok,
{
    false
}

/// Without a media session: the command cannot be delivered.
pub fn next() -> (ok: bool)
    ensures
        !ok,
{
    false
}

/// Without a media session: the command cannot be delivered.
pub fn previous() -> (ok: bool)
    ensures
        !ok,
{
    false
}

/// Without a media session: the command cannot be delivered.
pub fn seek(_position_ms: u64) -> (ok: bool)
    ensures
        !ok,
{
    false
}

} // verus!

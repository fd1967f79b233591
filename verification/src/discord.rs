//! Discord Rich Presence: what the profile shows for the current track.

use vstd::prelude::*;
use crate::text::{chars_of, append_chars, string_from_chars};

verus! {

/// The activity sent to Discord for a track.
#[derive(Clone, Debug, PartialEq, Eq)]
pub struct ActivityPlan {
    /// The track name.
    pub details: String,
    /// `by <artist>`.
    pub state: String,
    pub large_image: String,
    pub large_text: String,
    /// When the track started, in Unix seconds; shown (as elapsed time) only
    /// while playing.
    pub start: Option<i64>,
}

/// `a / b` rounded toward zero, as Rust's integer division gives it.
pub open spec fn div_toward_zero(a: int, b: int) -> int {
    if a >= 0 {
        a / b
    } else {
        -((-a) / b)
    }
}

/// The start of a track `elapsed_ms` into it, at `now` Unix seconds.
pub open spec fn track_start(now: i64, elapsed_ms: i64) -> int {
    now - div_toward_zero(elapsed_ms as int, 1000)
}

/// `v` wrapped into `i64` the way two's-complement `i64` arithmetic wraps a
/// difference that is off by less than one turn.
pub open spec fn wrap_i64(v: int) -> i64 {
    if v > i64::MAX {
        (v - 0x1_0000_0000_0000_0000) as i64
    } else if v < i64::MIN {
        (v + 0x1_0000_0000_0000_0000) as i64
    } else {
        v as i64
    }
}

/// The activity for `name` by `artist`, `elapsed_ms` into it at `now` Unix
/// seconds: the details are the name, the state `by <artist>`, the app logo
/// and name as the large image, and the start time only while playing.
pub fn activity_plan(name: String, artist: String, elapsed_ms: i64, playing: bool, now: i64) -> (a: ActivityPlan)
    ensures
        a.details@ == name@,
        a.state@ == "by "@ + artist@,
        a.large_image@ == "logo"@,
        a.large_text@ == "Spotiamp+"@,
        a.start == (if playing { Some(wrap_i64(track_start(now, elapsed_ms))) } else { None::<i64> }),
{
    let mut state = chars_of("by ");
    append_chars(&mut state, &chars_of(artist.as_str()));
    let secs: i64 = if elapsed_ms >= 0 {
        elapsed_ms / 1000
    } else {
        -((-(elapsed_ms as i128)) / 1000) as i64
    };
    let start = if playing {
        let d: i128 = now as i128 - secs as i128;
        Some(
            if d > i64::MAX as i128 {
                (d - 0x1_0000_0000_0000_0000i128) as i64
            } else if d < i64::MIN as i128 {
                (d + 0x1_0000_0000_0000_0000i128) as i64
            } else {
                d as i64
            },
        )
    } else {
        None
    };
    ActivityPlan {
        details: name,
        state: string_from_chars(&state),
        large_image: "logo".to_owned(),
        large_text: "Spotiamp+".to_owned(),
        start,
    }
}

} // verus!

//! Classic Winamp stacking of player / equalizer / playlist: when the
//! equalizer opens or closes, a playlist docked under the player (or under the
//! equalizer) moves down or up by the equalizer's height.

use vstd::prelude::*;
use crate::app_window::abs_int;

verus! {

/// How far off a window may sit and still count as docked in the stack.
pub const STACK_TOLERANCE: i32 = 4;

/// Where the playlist goes when the equalizer is shown (`eq_shown`) or
/// hidden, or `None` when it stays put. The playlist moves only when it is
/// lined up with the player and sits right under the player (equalizer being
/// shown) or right under the equalizer (equalizer being hidden).
pub open spec fn shift_spec(
    player_x: int,
    player_bottom: int,
    eq_height: int,
    playlist_x: int,
    playlist_y: int,
    eq_shown: bool,
) -> Option<(int, int)> {
    if abs_int(playlist_x - player_x) > 4 {
        None
    } else if eq_shown {
        if abs_int(playlist_y - player_bottom) <= 4 {
            Some((playlist_x, player_bottom + eq_height))
        } else {
            None
        }
    } else {
        if abs_int(playlist_y - (player_bottom + eq_height)) <= 4 {
            Some((playlist_x, player_bottom))
        } else {
            None
        }
    }
}

/// The sums the decision computes fit in `i32`: the player's bottom edge
/// always, and the equalizer's bottom edge once the playlist is lined up
/// with the player and the equalizer's edge is looked at or moved to.
pub open spec fn shift_fits(player_x: i32, player_y: i32, player_height: u32, eq_height: u32, playlist_x: i32, playlist_y: i32, eq_shown: bool) -> bool {
    let bottom = player_y + player_height;
    &&& player_height <= i32::MAX
    &&& eq_height <= i32::MAX
    &&& i32::MIN <= bottom <= i32::MAX
    &&& (abs_int(playlist_x - player_x) <= 4 && (!eq_shown || abs_int(playlist_y - bottom) <= 4))
        ==> bottom + eq_height <= i32::MAX
}

fn abs_i64(v: i64) -> (r: i64)
    requires
        v > i64::MIN,
    ensures
        r == abs_int(v as int),
{
    if v < 0 {
        -v
    } else {
        v
    }
}

/// If the playlist window is docked directly under the player (or under the
/// equalizer), the position to move it to as the equalizer is shown/hidden.
pub fn shift_docked_playlist(
    player_x: i32,
    player_y: i32,
    player_height: u32,
    eq_height: u32,
    playlist_x: i32,
    playlist_y: i32,
    eq_shown: bool,
) -> (r: Option<(i32, i32)>)
    requires
        shift_fits(player_x, player_y, player_height, eq_height, playlist_x, playlist_y, eq_shown),
    ensures
        match shift_spec(
            player_x as int,
            player_y + player_height,
            eq_height as int,
            playlist_x as int,
            playlist_y as int,
            eq_shown,
        ) {
            Some((x, y)) => r == Some((x as i32, y as i32)),
            None => r is None,
        },
{
    let player_bottom = player_y as i64 + player_height as i64;
    let eq_h = eq_height as i64;
    let tol = STACK_TOLERANCE as i64;
    let aligned_x = abs_i64(playlist_x as i64 - player_x as i64) <= tol;
    if !aligned_x {
        return None;
    }
    if eq_shown {
        if abs_i64(playlist_y as i64 - player_bottom) <= tol {
            return Some((playlist_x, (player_bottom + eq_h) as i32));
        }
    } else {
        if abs_i64(playlist_y as i64 - (player_bottom + eq_h)) <= tol {
            return Some((playlist_x, player_bottom as i32));
        }
    }
    None
}

/// Opening the equalizer pushes a docked playlist down by exactly its height,
/// and closing it again brings the playlist back flush under the player.
pub proof fn law_eq_round_trip(player_x: int, player_bottom: int, eq_height: int, playlist_x: int, playlist_y: int)
    requires
        eq_height >= 0,
        shift_spec(player_x, player_bottom, eq_height, playlist_x, playlist_y, true) is Some,
    ensures
        ({
            let moved = shift_spec(player_x, player_bottom, eq_height, playlist_x, playlist_y, true)->0;
            &&& moved == (playlist_x, player_bottom + eq_height)
            &&& shift_spec(player_x, player_bottom, eq_height, moved.0, moved.1, false)
                == Some((playlist_x, player_bottom))
        }),
{
}

/// A playlist that is not lined up with the player never moves.
pub proof fn law_unaligned_stays(player_x: int, player_bottom: int, eq_height: int, playlist_x: int, playlist_y: int, eq_shown: bool)
    requires
        abs_int(playlist_x - player_x) > 4,
    ensures
        shift_spec(player_x, player_bottom, eq_height, playlist_x, playlist_y, eq_shown) is None,
{
}

} // verus!

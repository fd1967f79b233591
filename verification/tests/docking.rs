use spotiamp::app_window::{adjacent, connected_group, Dock, WindowRect};
use spotiamp::eq_window::shift_docked_playlist;

fn rect(x: i32, y: i32, width: u32, height: u32) -> WindowRect {
    WindowRect { x, y, width, height }
}

fn s(v: &str) -> String {
    v.to_string()
}

#[test]
fn rect_edges() {
    let r = rect(10, 20, 275, 116);
    assert_eq!(r.right(), 285);
    assert_eq!(r.bottom(), 136);
}

#[test]
fn flush_edges_within_tolerance_are_adjacent() {
    let player = rect(0, 0, 275, 116);
    assert!(adjacent(&player, &rect(0, 116, 275, 232)));
    assert!(adjacent(&player, &rect(278, 0, 100, 100)));
    assert!(!adjacent(&player, &rect(279, 0, 100, 100)));
    // flush but not overlapping on the other axis
    assert!(!adjacent(&player, &rect(300, 116, 100, 100)));
    // docking is mutual
    assert_eq!(
        adjacent(&rect(0, 116, 275, 232), &player),
        adjacent(&player, &rect(0, 116, 275, 232))
    );
}

fn stacked_dock() -> Dock {
    let mut dock = Dock::new();
    dock.register(s("player"), Some(rect(0, 0, 275, 116)), true);
    dock.register(s("playlist"), Some(rect(0, 116, 275, 232)), true);
    dock.register(s("eq"), Some(rect(0, 348, 275, 116)), true);
    dock.register(s("library"), Some(rect(900, 900, 300, 300)), true);
    dock
}

#[test]
fn group_follows_chains_of_docked_visible_windows() {
    let dock = stacked_dock();
    let mut group = connected_group(&dock, &s("player"));
    group.sort();
    assert_eq!(group, vec![s("eq"), s("player"), s("playlist")]);
}

#[test]
fn hidden_window_breaks_the_chain() {
    let mut dock = stacked_dock();
    dock.register(s("playlist"), None, false);
    let group = connected_group(&dock, &s("player"));
    assert_eq!(group, vec![s("player")]);
}

#[test]
fn master_drag_moves_group_members_by_their_offsets() {
    let mut dock = stacked_dock();
    dock.set_hwnd(&s("player"), 1);
    dock.set_hwnd(&s("playlist"), 2);
    dock.set_hwnd(&s("eq"), 3);
    dock.set_hwnd(&s("library"), 4);
    dock.on_master_drag_started();
    let mut targets = dock.drag_targets(100, 50);
    targets.sort();
    assert_eq!(targets, vec![(2, 100, 166), (3, 100, 398)]);
    dock.on_drag_ended();
    assert!(dock.dragging.is_none());
    assert!(dock.drag_targets(100, 50).is_empty());
}

#[test]
fn follower_drag_moves_nothing() {
    let mut dock = stacked_dock();
    dock.set_hwnd(&s("playlist"), 2);
    dock.on_follower_drag_started(s("playlist"));
    assert!(dock.drag_targets(10, 10).is_empty());
}

#[test]
fn player_owns_its_visible_group() {
    let mut dock = stacked_dock();
    dock.set_hwnd(&s("player"), 1);
    dock.set_hwnd(&s("playlist"), 2);
    dock.set_hwnd(&s("library"), 4);
    let calls = dock.update_owners();
    assert_eq!(calls, vec![(2, 1)]);
    // nothing changed: nothing to do
    assert!(dock.update_owners().is_empty());
    // the playlist leaves the group: it is released
    dock.register(s("playlist"), Some(rect(500, 500, 275, 232)), true);
    assert_eq!(dock.update_owners(), vec![(2, 0)]);
}

#[test]
fn hidden_docked_window_redocks_when_shown() {
    let mut dock = stacked_dock();
    let none = dock.set_visible(&s("playlist"), false, Some(rect(0, 116, 275, 232)));
    assert_eq!(none, None);
    // the player moved meanwhile
    dock.register(s("player"), Some(rect(40, 60, 275, 116)), true);
    let redock = dock.set_visible(&s("playlist"), true, None);
    assert_eq!(redock, Some((40, 176)));
    // the offset is used once
    assert_eq!(dock.set_visible(&s("playlist"), true, None), None);
}

#[test]
fn equalizer_pushes_docked_playlist_down_and_back() {
    // player at y 0, 116 high; EQ 116 high; playlist flush under the player
    assert_eq!(shift_docked_playlist(0, 0, 116, 116, 2, 118, true), Some((2, 232)));
    assert_eq!(shift_docked_playlist(0, 0, 116, 116, 2, 232, false), Some((2, 116)));
    // not lined up with the player: left alone
    assert_eq!(shift_docked_playlist(0, 0, 116, 116, 10, 116, true), None);
    // not flush: left alone
    assert_eq!(shift_docked_playlist(0, 0, 116, 116, 0, 300, true), None);
}

#[test]
fn dragged_group_moves_rigidly() {
    let mut dock = stacked_dock();
    dock.set_hwnd(&s("playlist"), 2);
    dock.set_hwnd(&s("eq"), 3);
    dock.on_master_drag_started();
    let mut at_a = dock.drag_targets(0, 0);
    let mut at_b = dock.drag_targets(-40, 25);
    at_a.sort();
    at_b.sort();
    assert_eq!(at_a.len(), at_b.len());
    for (a, b) in at_a.iter().zip(at_b.iter()) {
        assert_eq!(a.0, b.0);
        assert_eq!(b.1 - a.1, -40);
        assert_eq!(b.2 - a.2, 25);
    }
}

#[test]
fn far_apart_windows_are_not_adjacent() {
    // edges some four billion pixels apart, with no overlap on either axis
    let a = rect(-2_000_000_000, -2_000_000_000, 100, 100);
    let b = rect(2_000_000_000, 2_000_000_000, 100, 100);
    assert!(!adjacent(&a, &b));
    assert!(!adjacent(&b, &a));
}

#[test]
fn far_unaligned_playlist_stays() {
    // player far up, playlist far down and off to the side
    assert_eq!(shift_docked_playlist(0, -2_000_000_000, 116, 116, 1000, 2_000_000_000, true), None);
    assert_eq!(shift_docked_playlist(0, -2_000_000_000, 116, 116, 1000, 2_000_000_000, false), None);
}

#[test]
fn hide_then_show_without_a_player_move_returns_to_the_same_spot() {
    let mut dock = stacked_dock();
    assert_eq!(dock.set_visible(&s("eq"), false, Some(rect(0, 348, 275, 116))), None);
    assert_eq!(dock.set_visible(&s("eq"), true, None), Some((0, 348)));
}

#[test]
fn docked_window_far_from_player_keeps_its_wrapped_offset() {
    let mut dock = Dock::new();
    dock.register(s("player"), Some(rect(0, -2_147_000_000, 100, 100)), true);
    dock.register(s("tall"), Some(rect(0, -2_146_999_900, 100, 2_147_483_600)), true);
    dock.register(s("far"), Some(rect(10, 483_700, 100, 100)), true);
    let group = connected_group(&dock, &s("player"));
    assert!(group.contains(&s("far")));
    // its offset from the player does not fit in i32; hidden and shown again
    // with the player in place, it still comes back to the same spot
    assert_eq!(dock.set_visible(&s("far"), false, Some(rect(10, 483_700, 100, 100))), None);
    assert_eq!(dock.set_visible(&s("far"), true, None), Some((10, 483_700)));
}

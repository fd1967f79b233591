use spotiamp::discord::activity_plan;
use spotiamp::links::{external_link, take_auth_url};
use spotiamp::player_events::{
    media_key_action, published_status, MediaButton, PlayerEvent, PublishedStatus,
    SpotiampPlayerEvent,
};

#[test]
fn known_link_targets_resolve() {
    assert_eq!(external_link("github"), Ok("https://github.com/fdeox/spotiamp-plus"));
    assert_eq!(external_link("discord"), Ok("https://discord.gg/8Rq5Xycny4"));
    assert_eq!(
        external_link("license"),
        Ok("https://github.com/fdeox/spotiamp-plus/blob/main/LICENSE")
    );
}

#[test]
fn unknown_link_target_is_refused() {
    assert_eq!(
        external_link("file:///etc/passwd"),
        Err("unknown link target: file:///etc/passwd".to_string())
    );
}

#[test]
fn auth_url_is_handed_out_once() {
    let mut slot = Some("https://accounts.example/authorize".to_string());
    assert_eq!(take_auth_url(&mut slot), Ok("https://accounts.example/authorize".to_string()));
    assert_eq!(slot, None);
    assert_eq!(take_auth_url(&mut slot), Err("no pending auth URL".to_string()));
}

#[test]
fn activity_for_a_playing_track() {
    let a = activity_plan("Song".to_string(), "Artist".to_string(), 61_999, true, 1_000_000);
    assert_eq!(a.details, "Song");
    assert_eq!(a.state, "by Artist");
    assert_eq!(a.large_image, "logo");
    assert_eq!(a.large_text, "Spotiamp+");
    assert_eq!(a.start, Some(999_939));
}

#[test]
fn paused_activity_has_no_timestamps() {
    let a = activity_plan("Song".to_string(), "".to_string(), 5_000, false, 1_000_000);
    assert_eq!(a.state, "by ");
    assert_eq!(a.start, None);
}

#[test]
fn negative_elapsed_rounds_toward_zero() {
    let a = activity_plan("S".to_string(), "A".to_string(), -1_500, true, 100);
    assert_eq!(a.start, Some(101));
}

#[test]
fn player_events_are_forwarded() {
    assert_eq!(
        SpotiampPlayerEvent::from_player_event(PlayerEvent::Seeked {
            uri: "spotify:track:x".to_string(),
            position_ms: 42
        }),
        Some(SpotiampPlayerEvent::Seeked { uri: "spotify:track:x".to_string(), position_ms: 42 })
    );
    assert_eq!(
        SpotiampPlayerEvent::from_player_event(PlayerEvent::Stopped { uri: "u".to_string() }),
        Some(SpotiampPlayerEvent::Stopped { uri: "u".to_string() })
    );
    assert_eq!(SpotiampPlayerEvent::from_player_event(PlayerEvent::Other), None);
}

#[test]
fn media_buttons_map_to_actions() {
    assert_eq!(media_key_action(MediaButton::Play), Some("playpause"));
    assert_eq!(media_key_action(MediaButton::Pause), Some("playpause"));
    assert_eq!(media_key_action(MediaButton::Stop), Some("stop"));
    assert_eq!(media_key_action(MediaButton::Next), Some("next"));
    assert_eq!(media_key_action(MediaButton::Previous), Some("previous"));
    assert_eq!(media_key_action(MediaButton::Other), None);
    assert_eq!(published_status(true), PublishedStatus::Playing);
    assert_eq!(published_status(false), PublishedStatus::Paused);
}

#[test]
fn activity_start_wraps_like_i64_arithmetic() {
    let a = activity_plan("Song".to_string(), "Artist".to_string(), 5_000, true, i64::MIN + 1);
    assert_eq!(a.start, Some((i64::MIN + 1).wrapping_sub(5)));
}

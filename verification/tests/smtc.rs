use spotiamp::smtc::{
    next, now_playing, now_playing_from, pause, play, preferred_session, previous, seek,
    seek_ticks, transport_result, NowPlaying, SessionReadings, TimelineReadings,
};

const EPOCH_GAP_TICKS: i64 = 11_644_473_600_000 * 10_000;

fn readings(playing: bool, pos_ms: i64, end_ms: i64, updated_ms_ago: i64, now_ms: u128) -> SessionReadings {
    let now_ticks = (now_ms as i64) * 10_000 + EPOCH_GAP_TICKS;
    SessionReadings {
        title: Some("Song".to_string()),
        artist: Some("Artist".to_string()),
        album: None,
        playing: Some(playing),
        timeline: Some(TimelineReadings {
            position_ticks: Some(pos_ms * 10_000),
            end_ticks: Some(end_ms * 10_000),
            last_updated_ticks: Some(now_ticks - updated_ms_ago * 10_000),
        }),
        now_unix_ms: Some(now_ms),
    }
}

#[test]
fn playing_position_is_carried_forward() {
    let n = now_playing_from(readings(true, 10_000, 200_000, 2_500, 1_700_000_000_000));
    assert!(n.available && n.playing);
    assert_eq!(n.title, "Song");
    assert_eq!(n.artist, "Artist");
    assert_eq!(n.album, "");
    assert_eq!(n.duration_ms, 200_000);
    assert_eq!(n.position_ms, 12_500);
}

#[test]
fn carried_position_stops_at_the_end() {
    let n = now_playing_from(readings(true, 199_000, 200_000, 5_000, 1_700_000_000_000));
    assert_eq!(n.position_ms, 200_000);
}

#[test]
fn paused_position_is_as_reported() {
    let n = now_playing_from(readings(false, 10_000, 200_000, 2_500, 1_700_000_000_000));
    assert!(!n.playing);
    assert_eq!(n.position_ms, 10_000);
}

#[test]
fn negative_ticks_read_as_zero() {
    let r = SessionReadings {
        title: None,
        artist: None,
        album: None,
        playing: None,
        timeline: Some(TimelineReadings {
            position_ticks: Some(-50_000),
            end_ticks: Some(9_999),
            last_updated_ticks: None,
        }),
        now_unix_ms: None,
    };
    let n = now_playing_from(r);
    assert_eq!(n.position_ms, 0);
    assert_eq!(n.duration_ms, 0);
    assert!(!n.playing);
}

#[test]
fn spotify_session_is_preferred() {
    let ids = vec![
        Some("Chrome".to_string()),
        None,
        Some("SPOTIFY.EXE".to_string()),
        Some("Spotify.exe".to_string()),
    ];
    assert_eq!(preferred_session(&ids), Some(2));
    assert_eq!(preferred_session(&vec![Some("vlc".to_string())]), None);
    assert_eq!(preferred_session(&vec![]), None);
}

#[test]
fn seek_target_in_ticks() {
    assert_eq!(seek_ticks(1_500), 15_000_000);
    assert_eq!(seek_ticks(0), 0);
}

#[test]
fn transport_answers() {
    assert!(transport_result(Some(true)));
    assert!(!transport_result(Some(false)));
    assert!(!transport_result(None));
}

#[test]
fn without_a_session_nothing_plays() {
    let n = now_playing();
    assert_eq!(n, NowPlaying::default());
    assert!(!n.available);
    assert!(!play() && !pause() && !next() && !previous() && !seek(1_000));
}

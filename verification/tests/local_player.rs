use std::collections::VecDeque;
use std::sync::atomic::{AtomicBool, AtomicU64};
use std::sync::{Arc, Mutex};

use spotiamp::capture::device_changed;
use spotiamp::local_player::{device_channels, file_channels, needs_resampling};
use spotiamp::local_player::{
    after_pump, apply_tags, collect_local_meta, drain_queue, handle_command, is_audio_extension, on_opened,
    Command, LocalEvent, LocalMeta, LocalPlayer, TagEntry, TagKey, WorkerAction, WorkerState,
};

fn playing_at(position_ms: u64, rate: u32) -> WorkerState {
    WorkerState {
        active: true,
        playing: true,
        position_ms,
        duration_ms: 0,
        ended_sent: false,
        sample_rate: rate,
    }
}

#[test]
fn load_asks_to_open_then_plays_from_zero() {
    let s = WorkerState::idle();
    let step = handle_command(s, Some(Command::Load("a.mp3".to_string())));
    assert_eq!(step.action, WorkerAction::Open("a.mp3".to_string()));
    assert!(step.events.is_empty());
    let step = on_opened(step.state, "a.mp3".to_string(), Some(180_000), Ok(48_000));
    assert_eq!(step.events, vec![LocalEvent::Playing { position_ms: 0 }]);
    assert!(step.state.active && step.state.playing);
    // the duration the container reported stays published for the seek bar
    assert_eq!(step.state.duration_ms, 180_000);
    assert_eq!(step.state.sample_rate, 48_000);
}

#[test]
fn open_without_known_duration_publishes_zero() {
    let s = playing_at(5_000, 44_100);
    let step = on_opened(s, "c.ogg".to_string(), None, Ok(44_100));
    assert!(step.state.active && step.state.playing);
    assert_eq!(step.state.duration_ms, 0);
    assert_eq!(step.state.position_ms, 0);
}

#[test]
fn failed_open_reports_path_and_reason() {
    let s = playing_at(5_000, 44_100);
    let step = on_opened(s, "b.flac".to_string(), Some(1234), Err("unsupported".to_string()));
    assert_eq!(
        step.events,
        vec![LocalEvent::Failed { path: "b.flac".to_string(), reason: "unsupported".to_string() }]
    );
    assert!(!step.state.active && !step.state.playing);
    assert_eq!(step.state.duration_ms, 1234);
    assert_eq!(step.action, WorkerAction::Close);
}

#[test]
fn play_and_pause_need_an_open_file() {
    let idle = WorkerState::idle();
    for cmd in [Command::Play, Command::Pause, Command::Seek(10)] {
        let step = handle_command(idle, Some(cmd));
        assert_eq!(step.state, idle);
        assert!(step.events.is_empty());
        assert_eq!(step.action, WorkerAction::Wait);
    }
    let s = playing_at(7_000, 44_100);
    let step = handle_command(s, Some(Command::Pause));
    assert_eq!(step.events, vec![LocalEvent::Paused { position_ms: 7_000 }]);
    assert!(!step.state.playing);
    let step = handle_command(step.state, Some(Command::Play));
    assert_eq!(step.events, vec![LocalEvent::Playing { position_ms: 7_000 }]);
    assert!(step.state.playing);
}

#[test]
fn stop_resets_even_when_idle() {
    let step = handle_command(playing_at(9_000, 44_100), Some(Command::Stop));
    assert_eq!(step.events, vec![LocalEvent::Stopped]);
    assert_eq!(step.action, WorkerAction::Close);
    assert!(!step.state.active && !step.state.playing);
    assert_eq!(step.state.position_ms, 0);
    let step = handle_command(WorkerState::idle(), Some(Command::Stop));
    assert_eq!(step.events, vec![LocalEvent::Stopped]);
}

#[test]
fn seek_sets_clock_and_frames() {
    let mut s = playing_at(1_000, 44_100);
    s.ended_sent = true;
    let step = handle_command(s, Some(Command::Seek(2_500)));
    assert_eq!(step.action, WorkerAction::Seek { position_ms: 2_500, frames: 110_250 });
    assert_eq!(step.state.position_ms, 2_500);
    assert!(!step.state.ended_sent);
}

#[test]
fn closed_channel_ends_an_idle_worker_only() {
    assert_eq!(handle_command(WorkerState::idle(), None).action, WorkerAction::Exit);
    assert_eq!(handle_command(playing_at(0, 44_100), None).action, WorkerAction::Wait);
}

#[test]
fn pump_moves_clock_and_reports_end_once() {
    let s = playing_at(0, 48_000);
    let step = after_pump(s, false, 96_000);
    assert_eq!(step.state.position_ms, 2_000);
    assert_eq!(step.events, vec![LocalEvent::Position { position_ms: 2_000 }]);
    let step = after_pump(step.state, true, 144_000);
    assert_eq!(
        step.events,
        vec![LocalEvent::Position { position_ms: 3_000 }, LocalEvent::EndOfTrack]
    );
    assert!(step.state.ended_sent && !step.state.playing);
    let step = after_pump(step.state, true, 144_000);
    assert!(step.events.is_empty());
}

#[test]
fn zero_rate_counts_as_one() {
    let s = playing_at(0, 0);
    let step = after_pump(s, false, 3);
    assert_eq!(step.state.position_ms, 3_000);
}

#[test]
fn tags_fill_only_empty_fields() {
    let tags = vec![
        TagEntry { key: TagKey::AlbumArtist, value: "Band".to_string() },
        TagEntry { key: TagKey::Artist, value: "Singer".to_string() },
        TagEntry { key: TagKey::TrackTitle, value: "Song".to_string() },
        TagEntry { key: TagKey::Other, value: "x".to_string() },
        TagEntry { key: TagKey::Album, value: "Record".to_string() },
    ];
    let mut meta = LocalMeta::default();
    apply_tags(&tags, &mut meta);
    assert_eq!(meta.title, "Song");
    assert_eq!(meta.artist, "Band");
    assert_eq!(meta.album, "Record");
    assert_eq!(meta.duration_ms, 0);
}

#[test]
fn probe_tags_come_before_format_tags() {
    let probe = vec![TagEntry { key: TagKey::TrackTitle, value: "From ID3".to_string() }];
    let format = vec![
        TagEntry { key: TagKey::TrackTitle, value: "From Vorbis".to_string() },
        TagEntry { key: TagKey::Artist, value: "Artist".to_string() },
    ];
    let meta = collect_local_meta(Some(215_000), Some(probe), Some(format));
    assert_eq!(meta.title, "From ID3");
    assert_eq!(meta.artist, "Artist");
    assert_eq!(meta.album, "");
    assert_eq!(meta.duration_ms, 215_000);
    let meta = collect_local_meta(None, None, None);
    assert_eq!(meta, LocalMeta::default());
}

#[test]
fn audio_extensions_any_case() {
    assert!(is_audio_extension("mp3"));
    assert!(is_audio_extension("FLAC"));
    assert!(is_audio_extension("Opus"));
    assert!(!is_audio_extension("txt"));
    assert!(!is_audio_extension("mp"));
    assert!(!is_audio_extension(""));
}

#[test]
fn stream_format_decisions() {
    assert_eq!(file_channels(None), 2);
    assert_eq!(file_channels(Some(0)), 1);
    assert_eq!(file_channels(Some(6)), 6);
    assert_eq!(device_channels(0), 1);
    assert_eq!(device_channels(2), 2);
    assert!(!needs_resampling(48_000, 2, 48_000, 2));
    assert!(needs_resampling(44_100, 2, 48_000, 2));
    assert!(needs_resampling(48_000, 1, 48_000, 2));
}

#[test]
fn capture_follows_the_default_device() {
    let a = Some("Speakers".to_string());
    let b = Some("Headphones".to_string());
    assert!(!device_changed(&a, &a.clone()));
    assert!(device_changed(&a, &b));
    assert!(device_changed(&None, &b));
    assert!(device_changed(&a, &None));
    assert!(!device_changed(&None, &None));
}

#[test]
fn handle_names_commands_and_reads_published_state() {
    let events = Arc::new(Mutex::new(VecDeque::new()));
    let position = Arc::new(AtomicU64::new((1u64 << 32) + 1234));
    let playing = Arc::new(AtomicBool::new(true));
    let duration = Arc::new(AtomicU64::new(180_000));
    let p = LocalPlayer::connect(events.clone(), position, playing, duration);
    assert_eq!(p.load("song.flac".to_string()), Command::Load("song.flac".to_string()));
    assert_eq!(p.pause(), Command::Pause);
    assert_eq!(p.seek(42), Command::Seek(42));
    assert_eq!(p.play(), Command::Play);
    assert_eq!(p.stop(), Command::Stop);
    // the published position is cut to 32 bits
    assert_eq!(p.position_ms(), 1234);
    assert_eq!(p.duration_ms(), 180_000);
    assert!(p.is_playing());
    events.lock().unwrap().push_back(LocalEvent::Stopped);
    events.lock().unwrap().push_back(LocalEvent::EndOfTrack);
    assert_eq!(p.take_events(), vec![LocalEvent::Stopped, LocalEvent::EndOfTrack]);
    assert!(p.take_events().is_empty());
}

#[test]
fn drain_takes_every_event_once_in_order() {
    let mut q = VecDeque::new();
    q.push_back(LocalEvent::Playing { position_ms: 0 });
    q.push_back(LocalEvent::Position { position_ms: 16 });
    q.push_back(LocalEvent::EndOfTrack);
    assert_eq!(
        drain_queue(&mut q),
        vec![LocalEvent::Playing { position_ms: 0 }, LocalEvent::Position { position_ms: 16 }, LocalEvent::EndOfTrack]
    );
    assert!(q.is_empty());
    assert!(drain_queue(&mut q).is_empty());
}

#[test]
fn pause_freezes_the_clock_and_play_resumes_in_place() {
    // 5000 frames played at 1000 frames a second: 5 s in
    let s = playing_at(5_000, 1_000);
    let paused = handle_command(s, Some(Command::Pause));
    assert_eq!(paused.events, vec![LocalEvent::Paused { position_ms: 5_000 }]);
    assert!(!paused.state.playing);
    // the output stops consuming frames: the clock stays and nothing is reported
    let mut state = paused.state;
    for _ in 0..3 {
        let round = after_pump(state, false, 5_000);
        assert!(round.events.is_empty());
        assert_eq!(round.state.position_ms, 5_000);
        assert!(!round.state.playing);
        state = round.state;
    }
    let resumed = handle_command(state, Some(Command::Play));
    assert_eq!(resumed.events, vec![LocalEvent::Playing { position_ms: 5_000 }]);
    assert_eq!(resumed.state.position_ms, 5_000);
}

#[test]
fn end_is_reported_once_per_open_or_seek() {
    let opened = on_opened(WorkerState::idle(), "a.mp3".to_string(), None, Ok(1_000));
    let first = after_pump(opened.state, true, 10_000);
    assert_eq!(first.events, vec![LocalEvent::Position { position_ms: 10_000 }, LocalEvent::EndOfTrack]);
    assert!(!first.state.playing);
    let again = after_pump(first.state, true, 10_000);
    assert!(!again.events.contains(&LocalEvent::EndOfTrack));
    // a seek lets the end be reported once more
    let sought = handle_command(again.state, Some(Command::Seek(9_000)));
    let played = handle_command(sought.state, Some(Command::Play));
    let end = after_pump(played.state, true, 10_000);
    assert_eq!(end.events.iter().filter(|e| **e == LocalEvent::EndOfTrack).count(), 1);
}

#[test]
fn playing_only_with_a_file_open() {
    let idle = WorkerState::idle();
    let play = handle_command(idle, Some(Command::Play));
    assert!(!play.state.playing && !play.state.active);
    let failed = on_opened(playing_at(100, 44_100), "x".to_string(), None, Err("bad".to_string()));
    assert!(!failed.state.playing && !failed.state.active);
    let stopped = handle_command(playing_at(100, 44_100), Some(Command::Stop));
    assert!(!stopped.state.playing && !stopped.state.active);
}

#[test]
fn huge_frame_counts_wrap_like_u64_arithmetic() {
    let s = playing_at(0, 1_000);
    let step = after_pump(s, false, u64::MAX);
    let expected = (u64::MAX.wrapping_mul(1000) / 1000) as u32;
    assert_eq!(step.events, vec![LocalEvent::Position { position_ms: expected }]);
    assert_eq!(step.state.position_ms, expected as u64);
}

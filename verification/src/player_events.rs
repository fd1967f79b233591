//! The playback events the player window is sent.

use vstd::prelude::*;

verus! {

/// A playback event of the Spotify player, with its track already written as
/// a URI; the events the window does not use are `Other`.
#[derive(Clone, Debug, PartialEq, Eq)]
pub enum PlayerEvent {
    Playing { uri: String, position_ms: u32 },
    Stopped { uri: String },
    Paused { uri: String, position_ms: u32 },
    EndOfTrack { uri: String },
    PositionCorrection { uri: String, position_ms: u32 },
    PositionChanged { uri: String, position_ms: u32 },
    Seeked { uri: String, position_ms: u32 },
    Other,
}

/// The event the player window is sent.
#[derive(Clone, Debug, PartialEq, Eq)]
pub enum SpotiampPlayerEvent {
    Stopped { uri: String },
    Paused { uri: String, position_ms: u32 },
    EndOfTrack { uri: String },
    PositionCorrection { uri: String, position_ms: u32 },
    PositionChanged { uri: String, position_ms: u32 },
    Seeked { uri: String, position_ms: u32 },
    Playing { uri: String, position_ms: u32 },
}

/// Each forwarded event keeps its kind, track and position.
pub open spec fn forwarded(e: PlayerEvent) -> Option<SpotiampPlayerEvent> {
    match e {
        PlayerEvent::Playing { uri, position_ms } => Some(SpotiampPlayerEvent::Playing { uri, position_ms }),
        PlayerEvent::Stopped { uri } => Some(SpotiampPlayerEvent::Stopped { uri }),
        PlayerEvent::Paused { uri, position_ms } => Some(SpotiampPlayerEvent::Paused { uri, position_ms }),
        PlayerEvent::EndOfTrack { uri } => Some(SpotiampPlayerEvent::EndOfTrack { uri }),
        PlayerEvent::PositionCorrection { uri, position_ms } => Some(
            SpotiampPlayerEvent::PositionCorrection { uri, position_ms },
        ),
        PlayerEvent::PositionChanged { uri, position_ms } => Some(SpotiampPlayerEvent::PositionChanged { uri, position_ms }),
        PlayerEvent::Seeked { uri, position_ms } => Some(SpotiampPlayerEvent::Seeked { uri, position_ms }),
        PlayerEvent::Other => None,
    }
}

impl SpotiampPlayerEvent {
    /// The window event for a player event; `None` for the events the window
    /// does not use.
    pub fn from_player_event(player_event: PlayerEvent) -> (r: Option<SpotiampPlayerEvent>)
        ensures
            r == forwarded(player_event),
    {
        match player_event {
            PlayerEvent::Playing { uri, position_ms } => Some(SpotiampPlayerEvent::Playing { uri, position_ms }),
            PlayerEvent::Stopped { uri } => Some(SpotiampPlayerEvent::Stopped { uri }),
            PlayerEvent::Paused { uri, position_ms } => Some(SpotiampPlayerEvent::Paused { uri, position_ms }),
            PlayerEvent::EndOfTrack { uri } => Some(SpotiampPlayerEvent::EndOfTrack { uri }),
            PlayerEvent::PositionCorrection { uri, position_ms } => Some(
                SpotiampPlayerEvent::PositionCorrection { uri, position_ms },
            ),
            PlayerEvent::PositionChanged { uri, position_ms } => Some(
                SpotiampPlayerEvent::PositionChanged { uri, position_ms },
            ),
            PlayerEvent::Seeked { uri, position_ms } => Some(SpotiampPlayerEvent::Seeked { uri, position_ms }),
            PlayerEvent::Other => None,
        }
    }
}

/// The track a player event is about, if any.
pub open spec fn player_event_uri(e: PlayerEvent) -> Option<String> {
    match e {
        PlayerEvent::Playing { uri, .. } => Some(uri),
        PlayerEvent::Stopped { uri } => Some(uri),
        PlayerEvent::Paused { uri, .. } => Some(uri),
        PlayerEvent::EndOfTrack { uri } => Some(uri),
        PlayerEvent::PositionCorrection { uri, .. } => Some(uri),
        PlayerEvent::PositionChanged { uri, .. } => Some(uri),
        PlayerEvent::Seeked { uri, .. } => Some(uri),
        PlayerEvent::Other => None,
    }
}

/// The position a player event carries, if any.
pub open spec fn player_event_position(e: PlayerEvent) -> Option<u32> {
    match e {
        PlayerEvent::Playing { position_ms, .. } => Some(position_ms),
        PlayerEvent::Paused { position_ms, .. } => Some(position_ms),
        PlayerEvent::PositionCorrection { position_ms, .. } => Some(position_ms),
        PlayerEvent::PositionChanged { position_ms, .. } => Some(position_ms),
        PlayerEvent::Seeked { position_ms, .. } => Some(position_ms),
        _ => None,
    }
}

/// The track a window event is about.
pub open spec fn window_event_uri(e: SpotiampPlayerEvent) -> String {
    match e {
        SpotiampPlayerEvent::Stopped { uri } => uri,
        SpotiampPlayerEvent::Paused { uri, .. } => uri,
        SpotiampPlayerEvent::EndOfTrack { uri } => uri,
        SpotiampPlayerEvent::PositionCorrection { uri, .. } => uri,
        SpotiampPlayerEvent::PositionChanged { uri, .. } => uri,
        SpotiampPlayerEvent::Seeked { uri, .. } => uri,
        SpotiampPlayerEvent::Playing { uri, .. } => uri,
    }
}

/// The position a window event carries, if any.
pub open spec fn window_event_position(e: SpotiampPlayerEvent) -> Option<u32> {
    match e {
        SpotiampPlayerEvent::Paused { position_ms, .. } => Some(position_ms),
        SpotiampPlayerEvent::PositionCorrection { position_ms, .. } => Some(position_ms),
        SpotiampPlayerEvent::PositionChanged { position_ms, .. } => Some(position_ms),
        SpotiampPlayerEvent::Seeked { position_ms, .. } => Some(position_ms),
        SpotiampPlayerEvent::Playing { position_ms, .. } => Some(position_ms),
        _ => None,
    }
}

/// Every player event but `Other` reaches the window, as the window event of
/// the same kind, about the same track and at the same position; `Other` is
/// dropped.
pub proof fn law_forwarding_keeps_kind_track_position(e: PlayerEvent)
    ensures
        (forwarded(e) is None) == (e is Other),
        forwarded(e) matches Some(w) ==> {
            &&& Some(window_event_uri(w)) == player_event_uri(e)
            &&& window_event_position(w) == player_event_position(e)
            &&& (e is Playing) == (w is Playing)
            &&& (e is Stopped) == (w is Stopped)
            &&& (e is Paused) == (w is Paused)
            &&& (e is EndOfTrack) == (w is EndOfTrack)
            &&& (e is PositionCorrection) == (w is PositionCorrection)
            &&& (e is PositionChanged) == (w is PositionChanged)
            &&& (e is Seeked) == (w is Seeked)
        },
{
}

/// The media-session buttons.
#[derive(Clone, Copy, Debug, PartialEq, Eq)]
pub enum MediaButton {
    Play,
    Pause,
    Stop,
    Next,
    Previous,
    Other,
}

pub open spec fn media_key_spec(b: MediaButton) -> Option<Seq<char>> {
    match b {
        MediaButton::Play => Some("playpause"@),
        MediaButton::Pause => Some("playpause"@),
        MediaButton::Stop => Some("stop"@),
        MediaButton::Next => Some("next"@),
        MediaButton::Previous => Some("previous"@),
        MediaButton::Other => None,
    }
}

/// The `mediaKey` action a media-session button press is forwarded as (the
/// one the player window's own shortcut uses); other buttons are ignored.
pub fn media_key_action(b: MediaButton) -> (r: Option<&'static str>)
    ensures
        match media_key_spec(b) {
            Some(a) => r matches Some(s) && s@ == a,
            None => r is None,
        },
{
    match b {
        MediaButton::Play | MediaButton::Pause => Some("playpause"),
        MediaButton::Stop => Some("stop"),
        MediaButton::Next => Some("next"),
        MediaButton::Previous => Some("previous"),
        MediaButton::Other => None,
    }
}

/// The playback status the app publishes.
#[derive(Clone, Copy, Debug, PartialEq, Eq)]
pub enum PublishedStatus {
    Playing,
    Paused,
}

/// The status reported for the player: it must be the truth, since the media
/// keys go to whoever last reported playing.
pub fn published_status(playing: bool) -> (s: PublishedStatus)
    ensures
        s == (if playing { PublishedStatus::Playing } else { PublishedStatus::Paused }),
{
    if playing {
        PublishedStatus::Playing
    } else {
        PublishedStatus::Paused
    }
}

} // verus!

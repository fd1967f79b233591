//! Spotiamp+ core: the file formats, text scanners, window-docking geometry,
//! skin analysis and playback decisions behind the Winamp-style Spotify player.

pub mod text;
pub mod eqf;
pub mod spotify;
pub mod app_window;
pub mod eq_window;
pub mod order;
pub mod wsz;
pub mod pledit;
pub mod skin;
pub mod local_player;
pub mod smtc;
pub mod lists;
pub mod links;
pub mod discord;
pub mod player_events;
pub mod capture;

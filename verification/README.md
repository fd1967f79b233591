# spotiamp

The verified core of Spotiamp+, a Winamp-style desktop player for Spotify.

`src/` is a Verus library: every function in it is proved against its
contract, except the small wrappers marked `#[verifier::external_body]`,
whose contracts are assumed of the std, `zip`, `image` and `base64` calls they
make. The `law_*` proof functions state what holds across calls.

- `eqf` — classic Winamp `.EQF` equalizer presets.
- `wsz`, `pledit`, `skin` — classic 2.x skins: which members of a `.wsz`
  archive are kept, the titlebar analysis of GEN.BMP / PLEDIT.BMP (tiles,
  colour, title plate), the GENEX.BMP palette, the PLEDIT.TXT colours, and the
  CSS variables the windows are sent.
- `app_window`, `eq_window` — window docking: who belongs to the player's
  group, where followers go while it is dragged, native ownership.
- `local_player` — the decisions of the local-file playback worker.
- `smtc`, `player_events` — the system media session in controller mode, and
  the playback events the player window is sent.
- `spotify` — URI scanning of rootlist and search replies, the search
  endpoint, the records sent for playlists and tracks.
- `lists`, `links`, `discord`, `capture` — saved track lists, the fixed
  external links and the OAuth URL hand-off, the Discord activity, the
  loopback capture's device tracking.
- `text`, `order` — trimming, case folding, hex and sorting helpers.

`app/` is the Tauri application around it: windows, commands, audio devices
(cpal, symphonia), the Spotify session (librespot) and the Windows media
session. It holds no rule of its own beyond what needs floating point or the
window system.

use spotiamp::spotify::{
    scan_playlist_uris, scan_track_uris, search_endpoint, TrackInfo, TrackMetadata, UserPlaylist,
};

#[test]
fn playlist_uris_in_rootlist_order_without_duplicates() {
    let raw = b"\x0a\x22spotify:playlist:37i9dQZF1DXcBWIGoYBM5M\x12spotify:playlist:short\x00spotify:playlist:37i9dQZF1DXcBWIGoYBM5M spotify:playlist:0123456789abcdefABCDEF";
    assert_eq!(
        scan_playlist_uris(raw),
        vec![
            "spotify:playlist:37i9dQZF1DXcBWIGoYBM5M".to_string(),
            "spotify:playlist:0123456789abcdefABCDEF".to_string(),
        ]
    );
}

#[test]
fn track_scan_stops_at_fifty() {
    let mut text = String::new();
    for i in 0..60 {
        text.push_str(&format!("\"uri\":\"spotify:track:{:0>22}\",", i));
    }
    let uris = scan_track_uris(text.as_bytes());
    assert_eq!(uris.len(), 50);
    assert_eq!(uris[0], format!("spotify:track:{:0>22}", 0));
    assert_eq!(uris[49], format!("spotify:track:{:0>22}", 49));
}

#[test]
fn search_endpoint_joins_words() {
    assert_eq!(
        search_endpoint("  daft   punk\tone more  ").as_deref(),
        Some("/context-resolve/v1/spotify:search:daft+punk+one+more")
    );
    assert_eq!(search_endpoint("   "), None);
}

#[test]
fn negative_playlist_length_counts_as_empty() {
    let p = UserPlaylist::from_resolved("Mix".to_string(), "spotify:playlist:x".to_string(), -3);
    assert_eq!(p.track_count, 0);
    assert!(p.image.is_none());
    let p = UserPlaylist::from_resolved("Mix".to_string(), "spotify:playlist:x".to_string(), 12);
    assert_eq!(p.track_count, 12);
}

#[test]
fn track_metadata_from_track() {
    let t = TrackInfo {
        uri: "spotify:track:abc".to_string(),
        artists: vec![],
        album_name: "Album".to_string(),
        first_cover_hex: Some("ab67".to_string()),
        name: "Song".to_string(),
        duration: 215_000,
        has_restrictions: true,
        has_alternatives: false,
    };
    let m = TrackMetadata::from_track(&t);
    assert_eq!(m.artist, "Unknown Artist");
    assert_eq!(m.album_art.as_deref(), Some("https://i.scdn.co/image/ab67"));
    assert_eq!(m.duration, 215_000);
    assert!(m.unavailable);
    assert_eq!(m.uri, "spotify:track:abc");
    assert_eq!(m.name, "Song");
}

use skadi_applet::mpris::{
    get_nav_caps, get_track_info, is_valid_bus_name, list_players, player_bus_names, MetadataValue,
};

#[test]
fn bus_name_validity() {
    assert!(is_valid_bus_name("org.mpris.MediaPlayer2.vlc"));
    assert!(is_valid_bus_name(":1.42"));
    assert!(is_valid_bus_name("org.freedesktop.DBus"));
    assert!(!is_valid_bus_name("org"));
    assert!(!is_valid_bus_name("org..mpris"));
    assert!(!is_valid_bus_name("org.mpris.2nd"));
    assert!(!is_valid_bus_name(".org.mpris"));
    assert!(!is_valid_bus_name("org.mpris."));
    assert!(!is_valid_bus_name(""));
    let long = format!("a.{}", "b".repeat(254));
    assert!(!is_valid_bus_name(&long));
    let limit = format!("a.{}", "b".repeat(253));
    assert!(is_valid_bus_name(&limit));
}

#[test]
fn only_mpris_names_are_players() {
    let names = vec![
        "org.freedesktop.DBus".to_string(),
        "org.mpris.MediaPlayer2.vlc".to_string(),
        ":1.7".to_string(),
        "org.mpris.MediaPlayer2.spotify".to_string(),
        "org.mpris.MediaPlayer2".to_string(),
    ];
    let players = player_bus_names(&names);
    assert_eq!(players, vec![
        "org.mpris.MediaPlayer2.vlc".to_string(),
        "org.mpris.MediaPlayer2.spotify".to_string(),
    ]);
}

#[test]
fn players_named_by_identity_or_bus_name() {
    let found = vec![
        ("org.mpris.MediaPlayer2.vlc".to_string(), Some("VLC media player".to_string())),
        ("org.mpris.MediaPlayer2.mpv".to_string(), None),
    ];
    let players = list_players(&found);
    assert_eq!(players.len(), 2);
    assert_eq!(players[0].bus_name, "org.mpris.MediaPlayer2.vlc");
    assert_eq!(players[0].name, "VLC media player");
    assert_eq!(players[1].name, "org.mpris.MediaPlayer2.mpv");
}

#[test]
fn track_info_from_metadata() {
    let info = get_track_info(
        Some(MetadataValue::Str("Song".to_string())),
        Some(MetadataValue::Array(vec![
            Some("A".to_string()),
            None,
            Some("B".to_string()),
        ])),
    );
    assert_eq!(info.title.as_deref(), Some("Song"));
    assert_eq!(info.artist.as_deref(), Some("A, B"));
}

#[test]
fn track_info_skips_empty_and_mistyped_values() {
    let info = get_track_info(
        Some(MetadataValue::Str(String::new())),
        Some(MetadataValue::Array(vec![None])),
    );
    assert_eq!(info.title, None);
    assert_eq!(info.artist, None);
    let info = get_track_info(
        Some(MetadataValue::Array(vec![Some("x".to_string())])),
        Some(MetadataValue::Str("Artist".to_string())),
    );
    assert_eq!(info.title, None);
    assert_eq!(info.artist, None);
    let info = get_track_info(None, Some(MetadataValue::Array(vec![Some(String::new())])));
    assert_eq!(info.artist, None);
    let info = get_track_info(Some(MetadataValue::Other), Some(MetadataValue::Other));
    assert_eq!(info.title, None);
    assert_eq!(info.artist, None);
}

#[test]
fn navigation_capabilities() {
    assert_eq!(get_nav_caps(Some(true), Some(false)), (true, false));
    assert_eq!(get_nav_caps(None, Some(true)), (false, true));
    assert_eq!(get_nav_caps(None, None), (false, false));
}

use skadi_applet::selection::poll_state;
use skadi_applet::types::MprisPlayer;

fn player(bus: &str, name: &str) -> MprisPlayer {
    MprisPlayer { bus_name: bus.to_string(), name: name.to_string() }
}

fn entry(bus: &str, status: Option<&str>) -> (MprisPlayer, Option<String>) {
    (player(bus, bus), status.map(|s| s.to_string()))
}

#[test]
fn playing_player_wins() {
    let mut last = Some(player("org.mpris.MediaPlayer2.a", "a"));
    let state = poll_state(
        Some(vec![
            entry("org.mpris.MediaPlayer2.a", Some("Paused")),
            entry("org.mpris.MediaPlayer2.b", Some("Playing")),
            entry("org.mpris.MediaPlayer2.c", Some("Playing")),
        ]),
        &mut last,
    );
    assert_eq!(state.active_player.unwrap().bus_name, "org.mpris.MediaPlayer2.b");
    assert!(state.is_playing);
    assert_eq!(last.unwrap().bus_name, "org.mpris.MediaPlayer2.b");
}

#[test]
fn previous_player_is_kept() {
    let mut last = Some(player("org.mpris.MediaPlayer2.b", "old name"));
    let state = poll_state(
        Some(vec![
            entry("org.mpris.MediaPlayer2.a", Some("Paused")),
            entry("org.mpris.MediaPlayer2.b", None),
        ]),
        &mut last,
    );
    let active = state.active_player.unwrap();
    assert_eq!(active.bus_name, "org.mpris.MediaPlayer2.b");
    assert_eq!(active.name, "org.mpris.MediaPlayer2.b");
    assert!(!state.is_playing);
    assert_eq!(last.unwrap().name, "old name");
}

#[test]
fn first_player_is_the_fallback() {
    let mut last = Some(player("org.mpris.MediaPlayer2.gone", "gone"));
    let state = poll_state(
        Some(vec![
            entry("org.mpris.MediaPlayer2.a", Some("Stopped")),
            entry("org.mpris.MediaPlayer2.b", Some("Paused")),
        ]),
        &mut last,
    );
    assert_eq!(state.active_player.unwrap().bus_name, "org.mpris.MediaPlayer2.a");
    assert!(!state.is_playing);
    assert_eq!(last.unwrap().bus_name, "org.mpris.MediaPlayer2.a");
}

#[test]
fn no_players_clears_tracking() {
    let mut last = Some(player("org.mpris.MediaPlayer2.a", "a"));
    let state = poll_state(Some(Vec::new()), &mut last);
    assert!(state.active_player.is_none());
    assert!(!state.is_playing);
    assert!(last.is_none());
}

#[test]
fn failed_listing_keeps_tracking() {
    let mut last = Some(player("org.mpris.MediaPlayer2.a", "a"));
    let state = poll_state(None, &mut last);
    assert!(state.active_player.is_none());
    assert!(!state.is_playing);
    assert_eq!(last.unwrap().bus_name, "org.mpris.MediaPlayer2.a");
    assert!(state.track_info.is_none() && !state.can_go_previous && !state.can_go_next);
}

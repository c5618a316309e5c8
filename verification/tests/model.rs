use skadi_applet::audio::AudioState;
use skadi_applet::model::{Action, AppModel, Message, PopupToggle};
use skadi_applet::selection::MprisState;
use skadi_applet::types::{AudioDevice, MprisPlayer, TrackInfo};

fn vlc() -> MprisPlayer {
    MprisPlayer { bus_name: "org.mpris.MediaPlayer2.vlc".to_string(), name: "VLC".to_string() }
}

fn with_player() -> AppModel {
    let mut app = AppModel::new();
    app.update(Message::MprisUpdate(MprisState {
        active_player: Some(vlc()),
        is_playing: true,
        track_info: Some(TrackInfo { title: Some("Song".to_string()), artist: None }),
        can_go_previous: false,
        can_go_next: true,
    }));
    app
}

#[test]
fn audio_update_replaces_audio_state() {
    let mut app = with_player();
    let action = app.update(Message::AudioStateUpdate(AudioState {
        is_muted: true,
        devices: vec![AudioDevice { id: 4, name: "Speakers".to_string() }],
        default_device_id: Some(4),
    }));
    assert!(matches!(action, Action::Nothing));
    assert!(app.is_muted);
    assert_eq!(app.devices.len(), 1);
    assert_eq!(app.default_device_id, Some(4));
    assert_eq!(app.active_player, Some(vlc()));
}

#[test]
fn user_actions_become_commands() {
    let mut app = with_player();
    assert!(matches!(app.update(Message::ToggleMute), Action::ToggleMute));
    assert!(matches!(app.update(Message::SwitchDevice(9)), Action::SetDefaultSink(9)));
    match app.update(Message::PlayPause) {
        Action::PlayPause(bus) => assert_eq!(bus, "org.mpris.MediaPlayer2.vlc"),
        other => panic!("unexpected {:?}", other),
    }
    assert!(matches!(app.update(Message::NextTrack), Action::NextTrack(_)));
    assert!(matches!(app.update(Message::PreviousTrack), Action::PreviousTrack(_)));
    assert!(matches!(app.update(Message::Surface), Action::ForwardSurface));
    assert!(matches!(app.update(Message::CommandResult(Err("x".to_string()))), Action::Nothing));
}

#[test]
fn player_commands_need_a_player() {
    let mut app = AppModel::new();
    assert!(matches!(app.update(Message::PlayPause), Action::Nothing));
    assert!(matches!(app.update(Message::NextTrack), Action::Nothing));
    assert!(matches!(app.update(Message::PreviousTrack), Action::Nothing));
}

#[test]
fn popup_lifecycle() {
    let mut app = AppModel::new();
    assert!(matches!(app.panel_press(), PopupToggle::Open));
    app.popup_opened(7);
    assert!(matches!(app.panel_press(), PopupToggle::Close(7)));
    app.update(Message::PopupClosed(8));
    assert_eq!(app.popup, Some(7));
    app.update(Message::PopupClosed(7));
    assert_eq!(app.popup, None);
}

#[test]
fn panel_and_audio_views() {
    let mut app = AppModel::new();
    assert_eq!(app.panel_icon_name(), "audio-volume-high-symbolic");
    app.update(Message::AudioStateUpdate(AudioState {
        is_muted: true,
        devices: vec![
            AudioDevice { id: 1, name: "A".to_string() },
            AudioDevice { id: 2, name: "B".to_string() },
        ],
        default_device_id: Some(2),
    }));
    assert_eq!(app.panel_icon_name(), "audio-volume-muted-symbolic");
    let section = app.audio_section();
    assert_eq!(section.mute_icon, "audio-volume-muted-symbolic");
    assert_eq!(section.mute_label, "Unmute");
    assert_eq!(section.rows.len(), 2);
    assert!(!section.rows[0].selected);
    assert!(section.rows[1].selected);
    assert_eq!(section.rows[1].name, "B");
    let unmuted = AppModel::new().audio_section();
    assert_eq!(unmuted.mute_icon, "audio-volume-medium-symbolic");
    assert_eq!(unmuted.mute_label, "Mute");
}

#[test]
fn media_view() {
    assert!(AppModel::new().media_section().is_none());
    let app = with_player();
    let media = app.media_section().unwrap();
    assert_eq!(media.header, "Media  \u{2B29}  VLC");
    assert_eq!(media.title.as_deref(), Some("Song"));
    assert_eq!(media.artist, None);
    assert_eq!(media.play_icon, "media-playback-pause-symbolic");
    assert!(!media.previous_enabled);
    assert!(media.next_enabled);
}

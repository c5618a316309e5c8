//! The applet's state and how it reacts to messages: each message gives the
//! next state and the one piece of outside work (a command to run, a popup
//! request to forward) that the runtime is to perform; and what the panel
//! icon and popup show for a state.
use vstd::prelude::*;
use vstd::string::StringExecFns;
use crate::audio::AudioState;
use crate::selection::MprisState;
use crate::types::{AudioDevice, MprisPlayer, TrackInfo, opt_view};

verus! {

/// Applet state. `popup` identifies the open popup window, if any.
pub struct AppModel {
    pub popup: Option<u64>,
    // Audio state
    pub is_muted: bool,
    pub devices: Vec<AudioDevice>,
    pub default_device_id: Option<u32>,
    // MPRIS state
    pub active_player: Option<MprisPlayer>,
    pub is_playing: bool,
    pub track_info: Option<TrackInfo>,
    pub can_go_previous: bool,
    pub can_go_next: bool,
}

/// What the applet reacts to.
#[derive(Debug)]
pub enum Message {
    /// A popup create/destroy request, passed on to the runtime.
    Surface,
    /// The popup window with this id was closed.
    PopupClosed(u64),
    // User actions
    ToggleMute,
    SwitchDevice(u32),
    PlayPause,
    PreviousTrack,
    NextTrack,
    // State updates from subscriptions
    AudioStateUpdate(AudioState),
    MprisUpdate(MprisState),
    /// Outcome of a command; a failure is only reported, not shown.
    CommandResult(Result<(), String>),
}

/// The outside work that a message asks for.
#[derive(Clone, Debug)]
pub enum Action {
    /// Nothing to do.
    Nothing,
    /// Pass the popup request of a `Surface` message on to the runtime.
    ForwardSurface,
    /// Toggle mute on the default sink.
    ToggleMute,
    /// Make the sink with this id the default.
    SetDefaultSink(u32),
    /// Send `PlayPause` to the player with this bus name.
    PlayPause(String),
    /// Send `Previous` to the player with this bus name.
    PreviousTrack(String),
    /// Send `Next` to the player with this bus name.
    NextTrack(String),
}

/// `a` and `b` hold the same audio state.
pub open spec fn same_audio(a: AppModel, b: AppModel) -> bool {
    &&& a.is_muted == b.is_muted
    &&& a.devices == b.devices
    &&& a.default_device_id == b.default_device_id
}

/// `a` and `b` hold the same media state.
pub open spec fn same_media(a: AppModel, b: AppModel) -> bool {
    &&& a.active_player == b.active_player
    &&& a.is_playing == b.is_playing
    &&& a.track_info == b.track_info
    &&& a.can_go_previous == b.can_go_previous
    &&& a.can_go_next == b.can_go_next
}

impl AppModel {
    /// The state at start: no popup, not muted, no devices, no player.
    pub fn new() -> (r: AppModel)
        ensures
            r.popup is None,
            !r.is_muted,
            r.devices@.len() == 0,
            r.default_device_id is None,
            r.active_player is None,
            !r.is_playing,
            r.track_info is None,
            !r.can_go_previous,
            !r.can_go_next,
    {
        AppModel {
            popup: None,
            is_muted: false,
            devices: Vec::new(),
            default_device_id: None,
            active_player: None,
            is_playing: false,
            track_info: None,
            can_go_previous: false,
            can_go_next: false,
        }
    }

    /// The bus name of the active player.
    fn active_bus_name(&self) -> (r: Option<String>)
        ensures
            match self.active_player {
                Some(p) => r matches Some(b) && b@ == p.bus_name@,
                None => r is None,
            },
    {
        match &self.active_player {
            Some(p) => Some(p.bus_name.clone()),
            None => None,
        }
    }

    /// Reacts to `message`: the next state, and the outside work to do.
    pub fn update(&mut self, message: Message) -> (r: Action)
        ensures
            match message {
                Message::Surface => r is ForwardSurface && *final(self) == *old(self),
                Message::PopupClosed(id) => {
                    &&& r is Nothing
                    &&& final(self).popup == if old(self).popup == Some(id) {
                        None
                    } else {
                        old(self).popup
                    }
                    &&& same_audio(*final(self), *old(self))
                    &&& same_media(*final(self), *old(self))
                },
                Message::ToggleMute => r is ToggleMute && *final(self) == *old(self),
                Message::SwitchDevice(id) => r == Action::SetDefaultSink(id) && *final(self)
                    == *old(self),
                Message::PlayPause => *final(self) == *old(self) && match old(self).active_player {
                    Some(p) => r matches Action::PlayPause(b) && b@ == p.bus_name@,
                    None => r is Nothing,
                },
                Message::PreviousTrack => *final(self) == *old(self) && match old(self).active_player {
                    Some(p) => r matches Action::PreviousTrack(b) && b@ == p.bus_name@,
                    None => r is Nothing,
                },
                Message::NextTrack => *final(self) == *old(self) && match old(self).active_player {
                    Some(p) => r matches Action::NextTrack(b) && b@ == p.bus_name@,
                    None => r is Nothing,
                },
                Message::AudioStateUpdate(state) => {
                    &&& r is Nothing
                    &&& final(self).is_muted == state.is_muted
                    &&& final(self).devices == state.devices
                    &&& final(self).default_device_id == state.default_device_id
                    &&& final(self).popup == old(self).popup
                    &&& same_media(*final(self), *old(self))
                },
                Message::MprisUpdate(state) => {
                    &&& r is Nothing
                    &&& final(self).active_player == state.active_player
                    &&& final(self).is_playing == state.is_playing
                    &&& final(self).track_info == state.track_info
                    &&& final(self).can_go_previous == state.can_go_previous
                    &&& final(self).can_go_next == state.can_go_next
                    &&& final(self).popup == old(self).popup
                    &&& same_audio(*final(self), *old(self))
                },
                Message::CommandResult(_) => r is Nothing && *final(self) == *old(self),
            },
    {
        match message {
            Message::Surface => Action::ForwardSurface,
            Message::PopupClosed(id) => {
                if self.popup == Some(id) {
                    self.popup = None;
                }
                Action::Nothing
            },
            Message::ToggleMute => Action::ToggleMute,
            Message::SwitchDevice(id) => Action::SetDefaultSink(id),
            Message::PlayPause => match self.active_bus_name() {
                Some(b) => Action::PlayPause(b),
                None => Action::Nothing,
            },
            Message::PreviousTrack => match self.active_bus_name() {
                Some(b) => Action::PreviousTrack(b),
                None => Action::Nothing,
            },
            Message::NextTrack => match self.active_bus_name() {
                Some(b) => Action::NextTrack(b),
                None => Action::Nothing,
            },
            Message::AudioStateUpdate(state) => {
                self.is_muted = state.is_muted;
                self.devices = state.devices;
                self.default_device_id = state.default_device_id;
                Action::Nothing
            },
            Message::MprisUpdate(state) => {
                self.active_player = state.active_player;
                self.is_playing = state.is_playing;
                self.track_info = state.track_info;
                self.can_go_previous = state.can_go_previous;
                self.can_go_next = state.can_go_next;
                Action::Nothing
            },
            Message::CommandResult(_) => Action::Nothing,
        }
    }
}


/// What a press on the panel icon asks for: closing the open popup, or
/// opening a new one.
#[derive(Clone, Copy, Debug)]
pub enum PopupToggle {
    Close(u64),
    Open,
}

/// A row of the device list.
#[derive(Clone, Debug)]
pub struct DeviceRow {
    pub id: u32,
    pub name: String,
    /// The row of the default sink.
    pub selected: bool,
}

/// What the audio part of the popup shows.
#[derive(Clone, Debug)]
pub struct AudioSection {
    pub mute_icon: &'static str,
    pub mute_label: &'static str,
    /// The devices in order; where there are none the popup says so.
    pub rows: Vec<DeviceRow>,
}

/// What the media part of the popup shows.
#[derive(Clone, Debug)]
pub struct MediaSection {
    pub header: String,
    pub title: Option<String>,
    pub artist: Option<String>,
    pub play_icon: &'static str,
    pub previous_enabled: bool,
    pub next_enabled: bool,
}

/// The title of the track, where the state holds one.
pub open spec fn shown_title(t: Option<TrackInfo>) -> Option<Seq<char>> {
    match t {
        Some(info) => opt_view(info.title),
        None => None,
    }
}

/// The artist of the track, where the state holds one.
pub open spec fn shown_artist(t: Option<TrackInfo>) -> Option<Seq<char>> {
    match t {
        Some(info) => opt_view(info.artist),
        None => None,
    }
}

impl AppModel {
    /// The icon of the panel button.
    pub fn panel_icon_name(&self) -> (r: &'static str)
        ensures
            r@ == if self.is_muted {
                "audio-volume-muted-symbolic"@
            } else {
                "audio-volume-high-symbolic"@
            },
    {
        if self.is_muted {
            "audio-volume-muted-symbolic"
        } else {
            "audio-volume-high-symbolic"
        }
    }

    /// What a press on the panel icon asks for.
    pub fn panel_press(&self) -> (r: PopupToggle)
        ensures
            match self.popup {
                Some(id) => r == PopupToggle::Close(id),
                None => r is Open,
            },
    {
        match self.popup {
            Some(id) => PopupToggle::Close(id),
            None => PopupToggle::Open,
        }
    }

    /// Records that the popup window `id` was opened.
    pub fn popup_opened(&mut self, id: u64)
        ensures
            final(self).popup == Some(id),
            same_audio(*final(self), *old(self)),
            same_media(*final(self), *old(self)),
    {
        self.popup = Some(id);
    }

    /// The audio part of the popup: the mute button, and one row per
    /// device, in order, the default sink's row selected.
    pub fn audio_section(&self) -> (r: AudioSection)
        ensures
            r.mute_icon@ == if self.is_muted {
                "audio-volume-muted-symbolic"@
            } else {
                "audio-volume-medium-symbolic"@
            },
            r.mute_label@ == if self.is_muted {
                "Unmute"@
            } else {
                "Mute"@
            },
            r.rows@.len() == self.devices@.len(),
            forall|i: int|
                0 <= i < r.rows@.len() ==> {
                    &&& (#[trigger] r.rows@[i]).id == self.devices@[i].id
                    &&& r.rows@[i].name@ == self.devices@[i].name@
                    &&& r.rows@[i].selected == (self.default_device_id == Some(
                        self.devices@[i].id,
                    ))
                },
    {
        let mute_icon = if self.is_muted {
            "audio-volume-muted-symbolic"
        } else {
            "audio-volume-medium-symbolic"
        };
        let mute_label = if self.is_muted {
            "Unmute"
        } else {
            "Mute"
        };
        let mut rows: Vec<DeviceRow> = Vec::new();
        let mut i: usize = 0;
        while i < self.devices.len()
            invariant
                i <= self.devices@.len(),
                rows@.len() == i,
                forall|j: int|
                    0 <= j < i ==> {
                        &&& (#[trigger] rows@[j]).id == self.devices@[j].id
                        &&& rows@[j].name@ == self.devices@[j].name@
                        &&& rows@[j].selected == (self.default_device_id == Some(
                            self.devices@[j].id,
                        ))
                    },
            decreases self.devices@.len() - i,
        {
            let device = &self.devices[i];
            let selected = match self.default_device_id {
                Some(d) => d == device.id,
                None => false,
            };
            rows.push(DeviceRow { id: device.id, name: device.name.clone(), selected });
            i = i + 1;
        }
        AudioSection { mute_icon, mute_label, rows }
    }

    /// The media part of the popup, shown only while a player is active:
    /// a header with the player's name, the track's title and artist where
    /// known, the play/pause icon, and the previous/next buttons enabled as
    /// the player allows.
    pub fn media_section(&self) -> (r: Option<MediaSection>)
        ensures
            r is Some <==> self.active_player is Some,
            r matches Some(m) ==> {
                &&& m.header@ == "Media  \u{2B29}  "@ + self.active_player->0.name@
                &&& opt_view(m.title) == shown_title(self.track_info)
                &&& opt_view(m.artist) == shown_artist(self.track_info)
                &&& m.play_icon@ == if self.is_playing {
                    "media-playback-pause-symbolic"@
                } else {
                    "media-playback-start-symbolic"@
                }
                &&& m.previous_enabled == self.can_go_previous
                &&& m.next_enabled == self.can_go_next
            },
    {
        let player = match &self.active_player {
            Some(p) => p,
            None => {
                return None;
            },
        };
        let mut header = String::from_str("Media  \u{2B29}  ");
        header.append(player.name.as_str());
        let (title, artist) = match &self.track_info {
            Some(info) => (info.title.clone(), info.artist.clone()),
            None => (None, None),
        };
        let play_icon = if self.is_playing {
            "media-playback-pause-symbolic"
        } else {
            "media-playback-start-symbolic"
        };
        Some(
            MediaSection {
                header,
                title,
                artist,
                play_icon,
                previous_enabled: self.can_go_previous,
                next_enabled: self.can_go_next,
            },
        )
    }
}

} // verus!

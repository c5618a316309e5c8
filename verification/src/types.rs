//! Plain data shared by the audio and media-player parts of the library.
use vstd::prelude::*;

verus! {

/// An audio output sink (device).
#[derive(Clone, Debug, PartialEq)]
pub struct AudioDevice {
    pub id: u32,
    pub name: String,
}

impl View for AudioDevice {
    type V = (u32, Seq<char>);

    open spec fn view(&self) -> (u32, Seq<char>) {
        (self.id, self.name@)
    }
}

impl DeepView for AudioDevice {
    type V = (u32, Seq<char>);

    open spec fn deep_view(&self) -> (u32, Seq<char>) {
        self@
    }
}

/// An MPRIS-capable media player.
#[derive(Clone, Debug, PartialEq)]
pub struct MprisPlayer {
    /// The D-Bus well-known name, e.g. `org.mpris.MediaPlayer2.rhythmbox`.
    pub bus_name: String,
    /// Human-readable player name from the `Identity` property.
    pub name: String,
}

impl View for MprisPlayer {
    type V = (Seq<char>, Seq<char>);

    open spec fn view(&self) -> (Seq<char>, Seq<char>) {
        (self.bus_name@, self.name@)
    }
}

impl DeepView for MprisPlayer {
    type V = (Seq<char>, Seq<char>);

    open spec fn deep_view(&self) -> (Seq<char>, Seq<char>) {
        self@
    }
}

/// A copy of `p` with the same bus name and name.
pub fn copy_player(p: &MprisPlayer) -> (r: MprisPlayer)
    ensures
        r@ == p@,
{
    MprisPlayer { bus_name: p.bus_name.clone(), name: p.name.clone() }
}

/// Title and artist of the track a player is on; each is absent where the
/// player did not report it.
#[derive(Clone, Debug, Default, PartialEq)]
pub struct TrackInfo {
    pub title: Option<String>,
    pub artist: Option<String>,
}

impl View for TrackInfo {
    type V = (Option<Seq<char>>, Option<Seq<char>>);

    open spec fn view(&self) -> (Option<Seq<char>>, Option<Seq<char>>) {
        (opt_view(self.title), opt_view(self.artist))
    }
}

/// The view of an optional string.
pub open spec fn opt_view(s: Option<String>) -> Option<Seq<char>> {
    match s {
        Some(t) => Some(t@),
        None => None,
    }
}

} // verus!

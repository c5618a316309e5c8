//! Which media player the applet follows. On each poll:
//!   - a player that is currently `Playing` becomes the tracked player;
//!   - otherwise, if the previously tracked player is still available
//!     (whatever its status), it is kept;
//!   - otherwise the first player found is taken.
use vstd::prelude::*;
use vstd::string::StringExecFns;
use crate::types::{MprisPlayer, TrackInfo, copy_player, opt_view};

verus! {

/// Media state sent to the applet after each poll.
#[derive(Clone, Debug)]
pub struct MprisState {
    pub active_player: Option<MprisPlayer>,
    pub is_playing: bool,
    pub track_info: Option<TrackInfo>,
    pub can_go_previous: bool,
    pub can_go_next: bool,
}

/// A player as its bus name and display name.
pub type PlayerView = (Seq<char>, Seq<char>);

/// A polled player with the playback status it reported, if it reported one.
pub type EntryView = (PlayerView, Option<Seq<char>>);

/// The view of an optional player.
pub open spec fn player_opt_view(p: Option<MprisPlayer>) -> Option<PlayerView> {
    match p {
        Some(q) => Some(q@),
        None => None,
    }
}

/// The views of polled entries.
pub open spec fn entries_view(v: Seq<(MprisPlayer, Option<String>)>) -> Seq<EntryView> {
    v.map_values(|e: (MprisPlayer, Option<String>)| (e.0@, opt_view(e.1)))
}

/// The playback status of an entry; one that could not be read counts as
/// `Stopped`.
pub open spec fn status_text(s: Option<Seq<char>>) -> Seq<char> {
    match s {
        Some(t) => t,
        None => "Stopped"@,
    }
}

/// Entry `i` reports `Playing`.
pub open spec fn reports_playing(entries: Seq<EntryView>, i: int) -> bool {
    status_text(entries[i].1) == "Playing"@
}

/// `i` is the first entry that reports `Playing`.
pub open spec fn is_first_playing(entries: Seq<EntryView>, i: int) -> bool {
    &&& 0 <= i < entries.len()
    &&& reports_playing(entries, i)
    &&& forall|j: int| 0 <= j < i ==> !reports_playing(entries, j)
}

/// The first entry that reports `Playing`.
pub open spec fn first_playing(entries: Seq<EntryView>) -> Option<int> {
    if exists|i: int| is_first_playing(entries, i) {
        Some(choose|i: int| is_first_playing(entries, i))
    } else {
        None
    }
}

/// `i` is the first entry with bus name `bus`.
pub open spec fn is_first_with_bus(entries: Seq<EntryView>, bus: Seq<char>, i: int) -> bool {
    &&& 0 <= i < entries.len()
    &&& entries[i].0.0 == bus
    &&& forall|j: int| 0 <= j < i ==> entries[j].0.0 != bus
}

/// The first entry with bus name `bus`.
pub open spec fn first_with_bus(entries: Seq<EntryView>, bus: Seq<char>) -> Option<int> {
    if exists|i: int| is_first_with_bus(entries, bus, i) {
        Some(choose|i: int| is_first_with_bus(entries, bus, i))
    } else {
        None
    }
}

/// The choice among non-empty `entries` when no player is playing and the
/// tracked player is gone: the first entry, which becomes tracked.
pub open spec fn fallback_choice(entries: Seq<EntryView>) -> (
    Option<PlayerView>,
    bool,
    Option<PlayerView>,
) {
    (Some(entries[0].0), reports_playing(entries, 0), Some(entries[0].0))
}

/// The outcome of a poll that listed `entries` while `prev` was tracked:
/// `(active player, whether it is playing, tracked player afterwards)`.
pub open spec fn selection(entries: Seq<EntryView>, prev: Option<PlayerView>) -> (
    Option<PlayerView>,
    bool,
    Option<PlayerView>,
) {
    if entries.len() == 0 {
        (None, false, None)
    } else {
        match first_playing(entries) {
            Some(i) => (Some(entries[i].0), true, Some(entries[i].0)),
            None => match prev {
                Some(p) => match first_with_bus(entries, p.0) {
                    Some(j) => (Some(entries[j].0), reports_playing(entries, j), prev),
                    None => fallback_choice(entries),
                },
                None => fallback_choice(entries),
            },
        }
    }
}

/// The state sent when no player can be shown.
pub open spec fn is_idle_state(r: MprisState) -> bool {
    r.active_player is None && !r.is_playing
}

/// Whether the entry reports `Playing`.
fn entry_is_playing(e: &(MprisPlayer, Option<String>), playing: &String) -> (r: bool)
    requires
        playing@ == "Playing"@,
    ensures
        r == (status_text(opt_view(e.1)) == "Playing"@),
{
    match &e.1 {
        Some(s) => *s == *playing,
        None => {
            proof {
                reveal_strlit("Stopped");
                reveal_strlit("Playing");
                assert("Stopped"@[0] != "Playing"@[0]);
            }
            false
        },
    }
}

/// One poll of the media players. `listing` is `None` where listing the
/// players failed (nothing is shown and the tracked player is left as it
/// was), and otherwise holds each player with the status it reported.
/// `last_active` is the tracked player, updated as the heuristic says.
pub fn poll_state(
    listing: Option<Vec<(MprisPlayer, Option<String>)>>,
    last_active: &mut Option<MprisPlayer>,
) -> (r: MprisState)
    ensures
        r.track_info is None,
        !r.can_go_previous,
        !r.can_go_next,
        match listing {
            None => is_idle_state(r) && *final(last_active) == *old(last_active),
            Some(entries) => {
                let sel = selection(entries_view(entries@), player_opt_view(*old(last_active)));
                &&& player_opt_view(r.active_player) == sel.0
                &&& r.is_playing == sel.1
                &&& player_opt_view(*final(last_active)) == sel.2
            },
        },
{
    let idle = MprisState {
        active_player: None,
        is_playing: false,
        track_info: None,
        can_go_previous: false,
        can_go_next: false,
    };
    let entries: &Vec<(MprisPlayer, Option<String>)> = match &listing {
        None => {
            return idle;
        },
        Some(e) => e,
    };
    let ghost ev = entries_view(entries@);
    let ghost prev = player_opt_view(*last_active);
    assert(listing == Some(*entries));
    if entries.len() == 0 {
        *last_active = None;
        return idle;
    }
    let playing = String::from_str("Playing");
    // 1. A currently-Playing player always wins.
    let mut i: usize = 0;
    while i < entries.len()
        invariant
            i <= entries@.len(),
            ev == entries_view(entries@),
            playing@ == "Playing"@,
            listing == Some(*entries),
            prev == player_opt_view(*old(last_active)),
            *last_active == *old(last_active),
            entries@.len() > 0,
            forall|j: int| 0 <= j < i ==> !reports_playing(ev, j),
        decreases entries@.len() - i,
    {
        if entry_is_playing(&entries[i], &playing) {
            assert(is_first_playing(ev, i as int));
            let ghost w = choose|k: int| is_first_playing(ev, k);
            assert(w == i) by {
                if w < i {
                } else if i < w {
                    assert(!reports_playing(ev, i as int));
                }
            }
            let player = copy_player(&entries[i].0);
            *last_active = Some(copy_player(&entries[i].0));
            return MprisState {
                active_player: Some(player),
                is_playing: true,
                track_info: None,
                can_go_previous: false,
                can_go_next: false,
            };
        }
        i = i + 1;
    }
    assert(first_playing(ev) is None);
    // 2. If the previously-tracked player is still present, keep it.
    match &*last_active {
        Some(prev_player) => {
            let mut j: usize = 0;
            while j < entries.len()
                invariant
                    j <= entries@.len(),
                    ev == entries_view(entries@),
                    playing@ == "Playing"@,
                    prev == Some(prev_player@),
                    listing == Some(*entries),
                    prev == player_opt_view(*old(last_active)),
                    *last_active == *old(last_active),
                    entries@.len() > 0,
                    first_playing(ev) is None,
                    forall|k: int| 0 <= k < j ==> ev[k].0.0 != prev_player.bus_name@,
                decreases entries@.len() - j,
            {
                if entries[j].0.bus_name == prev_player.bus_name {
                    let ghost bus = prev_player.bus_name@;
                    assert(is_first_with_bus(ev, bus, j as int));
                    let ghost w = choose|k: int| is_first_with_bus(ev, bus, k);
                    assert(w == j) by {
                        if w < j {
                        } else if j < w {
                            assert(ev[j as int].0.0 != bus);
                        }
                    }
                    let is_playing = entry_is_playing(&entries[j], &playing);
                    return MprisState {
                        active_player: Some(copy_player(&entries[j].0)),
                        is_playing,
                        track_info: None,
                        can_go_previous: false,
                        can_go_next: false,
                    };
                }
                j = j + 1;
            }
            assert(first_with_bus(ev, prev_player.bus_name@) is None);
        },
        None => {},
    }
    // 3. Fall back to the first available player.
    let is_playing = entry_is_playing(&entries[0], &playing);
    *last_active = Some(copy_player(&entries[0].0));
    MprisState {
        active_player: Some(copy_player(&entries[0].0)),
        is_playing,
        track_info: None,
        can_go_previous: false,
        can_go_next: false,
    }
}


/// Some entry at or before a playing entry `i` is the first playing one.
proof fn lemma_first_playing_exists(entries: Seq<EntryView>, i: int)
    requires
        0 <= i < entries.len(),
        reports_playing(entries, i),
    ensures
        exists|k: int| 0 <= k <= i && is_first_playing(entries, k),
    decreases i,
{
    if forall|j: int| 0 <= j < i ==> !reports_playing(entries, j) {
        assert(is_first_playing(entries, i));
    } else {
        let j = choose|j: int| 0 <= j < i && reports_playing(entries, j);
        lemma_first_playing_exists(entries, j);
    }
}

/// Some entry at or before entry `i`, whose bus name is `bus`, is the first
/// one with that bus name.
proof fn lemma_first_with_bus_exists(entries: Seq<EntryView>, bus: Seq<char>, i: int)
    requires
        0 <= i < entries.len(),
        entries[i].0.0 == bus,
    ensures
        exists|k: int| 0 <= k <= i && is_first_with_bus(entries, bus, k),
    decreases i,
{
    if forall|j: int| 0 <= j < i ==> entries[j].0.0 != bus {
        assert(is_first_with_bus(entries, bus, i));
    } else {
        let j = choose|j: int| 0 <= j < i && entries[j].0.0 == bus;
        lemma_first_with_bus_exists(entries, bus, j);
    }
}

/// A playing player always wins: when some player reports `Playing`, the
/// active player is the first one that does, it is shown as playing, and it
/// becomes the tracked player, whatever was tracked before.
pub proof fn lemma_playing_player_wins(entries: Seq<EntryView>, prev: Option<PlayerView>, i: int)
    requires
        0 <= i < entries.len(),
        reports_playing(entries, i),
    ensures
        exists|k: int|
            #![trigger entries[k]]
            0 <= k <= i && is_first_playing(entries, k) && selection(entries, prev) == (
                Some(entries[k].0),
                true,
                Some(entries[k].0),
            ),
{
    lemma_first_playing_exists(entries, i);
    let k = choose|k: int| is_first_playing(entries, k);
    let w = choose|w: int| 0 <= w <= i && is_first_playing(entries, w);
    assert(k == w) by {
        if k < w {
            assert(reports_playing(entries, k));
        } else if w < k {
            assert(reports_playing(entries, w));
        }
    }
    assert(entries[w] == entries[w]);
}

/// The tracked player is kept: when no player reports `Playing` and the
/// tracked player `p` is still listed, the active player has `p`'s bus
/// name, is not shown as playing, and `p` stays tracked.
pub proof fn lemma_tracked_player_kept(entries: Seq<EntryView>, p: PlayerView, j: int)
    requires
        0 <= j < entries.len(),
        entries[j].0.0 == p.0,
        forall|i: int| 0 <= i < entries.len() ==> !reports_playing(entries, i),
    ensures
        selection(entries, Some(p)).0 matches Some(a) && a.0 == p.0,
        !selection(entries, Some(p)).1,
        selection(entries, Some(p)).2 == Some(p),
{
    assert(!exists|i: int| is_first_playing(entries, i));
    lemma_first_with_bus_exists(entries, p.0, j);
    let k = choose|k: int| is_first_with_bus(entries, p.0, k);
    assert(0 <= k < entries.len());
}

/// The active player is always one of the listed players, shown as playing
/// exactly when it reports `Playing`; with no players listed, nothing is
/// active and nothing stays tracked.
pub proof fn lemma_active_is_listed(entries: Seq<EntryView>, prev: Option<PlayerView>)
    ensures
        entries.len() == 0 ==> selection(entries, prev) == (
            None::<PlayerView>,
            false,
            None::<PlayerView>,
        ),
        entries.len() > 0 ==> exists|k: int|
            #![trigger entries[k]]
            0 <= k < entries.len() && selection(entries, prev).0 == Some(entries[k].0) && selection(
                entries,
                prev,
            ).1 == reports_playing(entries, k),
{
    if entries.len() > 0 {
        match first_playing(entries) {
            Some(i) => {
                assert(is_first_playing(entries, i));
                assert(entries[i] == entries[i]);
            },
            None => {
                match prev {
                    Some(p) => match first_with_bus(entries, p.0) {
                        Some(j) => {
                            assert(is_first_with_bus(entries, p.0, j));
                            assert(entries[j] == entries[j]);
                        },
                        None => {
                            assert(entries[0] == entries[0]);
                        },
                    },
                    None => {
                        assert(entries[0] == entries[0]);
                    },
                }
            },
        }
    }
}

/// After a poll that listed players, the tracked player has the bus name of
/// the active one.
pub proof fn lemma_tracked_follows_active(entries: Seq<EntryView>, prev: Option<PlayerView>)
    requires
        entries.len() > 0,
    ensures
        selection(entries, prev).0 matches Some(active) && selection(entries, prev).2 matches Some(
            kept,
        ) && active.0 == kept.0,
{
    match first_playing(entries) {
        Some(i) => {},
        None => {
            match prev {
                Some(p) => match first_with_bus(entries, p.0) {
                    Some(j) => {
                        assert(is_first_with_bus(entries, p.0, j));
                    },
                    None => {},
                },
                None => {},
            }
        },
    }
}


/// The fallback is the first player found: when no listed player reports
/// `Playing` and the followed player is not listed (or none was followed),
/// the first listed entry becomes active, is shown as not playing, and is
/// followed from now on.
pub proof fn lemma_fallback_is_first_listed(entries: Seq<EntryView>, prev: Option<PlayerView>)
    requires
        entries.len() > 0,
        forall|i: int| 0 <= i < entries.len() ==> status_text(entries[i].1) != "Playing"@,
        prev matches Some(p) ==> forall|i: int| 0 <= i < entries.len() ==> entries[i].0.0 != p.0,
    ensures
        selection(entries, prev) == (Some(entries[0].0), false, Some(entries[0].0)),
{
    assert(!exists|i: int| is_first_playing(entries, i));
    if let Some(p) = prev {
        assert(!exists|i: int| is_first_with_bus(entries, p.0, i));
    }
}

} // verus!

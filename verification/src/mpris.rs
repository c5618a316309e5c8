//! Media-player side of the applet: which D-Bus names are MPRIS players,
//! what a player's metadata says about the current track, and what it
//! reports it can do.
use vstd::prelude::*;
use vstd::string::StringExecFns;
use crate::text::{chars_of, is_digit, starts_with, starts_with_range};
use crate::types::{MprisPlayer, TrackInfo, opt_view};

verus! {

/// The common prefix of the D-Bus names of MPRIS players.
pub open spec fn mpris_prefix() -> Seq<char> {
    "org.mpris.MediaPlayer2."@
}

/// An ASCII letter.
pub open spec fn is_ascii_alpha(c: char) -> bool {
    65 <= c as u32 <= 90 || 97 <= c as u32 <= 122
}

/// A character allowed inside an element of a D-Bus name.
pub open spec fn is_name_char(c: char) -> bool {
    is_ascii_alpha(c) || is_digit(c) || c == '_' || c == '-'
}

/// At least two non-empty elements of name characters separated by `.`.
pub open spec fn is_dotted(s: Seq<char>) -> bool {
    &&& s.len() > 0
    &&& forall|i: int| 0 <= i < s.len() ==> s[i] == '.' || is_name_char(#[trigger] s[i])
    &&& s[0] != '.'
    &&& s.last() != '.'
    &&& forall|i: int| 0 <= i < s.len() - 1 && #[trigger] s[i] == '.' ==> s[i + 1] != '.'
    &&& exists|i: int| 0 <= i < s.len() && #[trigger] s[i] == '.'
}

/// A unique connection name such as `:1.42`.
pub open spec fn is_unique_name(s: Seq<char>) -> bool {
    s.len() > 0 && s[0] == ':' && is_dotted(s.drop_first())
}

/// A well-known name such as `org.mpris.MediaPlayer2.vlc`: no element
/// starts with a digit.
pub open spec fn is_well_known_name(s: Seq<char>) -> bool {
    &&& is_dotted(s)
    &&& !is_digit(s[0])
    &&& forall|i: int| 0 <= i < s.len() - 1 && #[trigger] s[i] == '.' ==> !is_digit(s[i + 1])
}

/// A D-Bus bus name: a unique or a well-known name of at most 255
/// characters.
pub open spec fn is_bus_name(s: Seq<char>) -> bool {
    s.len() <= 255 && (is_unique_name(s) || is_well_known_name(s))
}

/// Whether `zbus::names::BusName::try_from` accepts `name`. In the zbus_names
/// source it accepts exactly the unique names (`:` and at least two
/// `.`-separated elements of ASCII letters, digits, `_` and `-`, or
/// `org.freedesktop.DBus`) and the well-known names (at least two such
/// elements, none starting with a digit), of at most 255 bytes; that is
/// `is_bus_name`.
#[verifier::external_body]
fn bus_name_is_valid(name: &str) -> (r: bool)
    ensures
        r == is_bus_name(name@),
{
    zbus::names::BusName::try_from(name).is_ok()
}

/// Whether `name` is an acceptable D-Bus bus name.
pub fn is_valid_bus_name(name: &str) -> (r: bool)
    ensures
        r == is_bus_name(name@),
{
    bus_name_is_valid(name)
}

/// A name on the bus that belongs to an MPRIS player.
pub open spec fn is_player_name(name: Seq<char>) -> bool {
    starts_with(name, mpris_prefix()) && is_bus_name(name)
}

/// The names in `names` that belong to MPRIS players, in order.
pub open spec fn player_names(names: Seq<Seq<char>>) -> Seq<Seq<char>>
    decreases names.len(),
{
    if names.len() == 0 {
        names
    } else if is_player_name(names.last()) {
        player_names(names.drop_last()).push(names.last())
    } else {
        player_names(names.drop_last())
    }
}

/// The names of two lists of bus names are found in each list in turn.
pub proof fn lemma_player_names_concat(a: Seq<Seq<char>>, b: Seq<Seq<char>>)
    ensures
        player_names(a + b) == player_names(a) + player_names(b),
    decreases b.len(),
{
    if b.len() == 0 {
        assert(a + b =~= a);
        assert(player_names(a) + player_names(b) =~= player_names(a));
    } else {
        assert((a + b).drop_last() =~= a + b.drop_last());
        assert((a + b).last() == b.last());
        lemma_player_names_concat(a, b.drop_last());
        if is_player_name(b.last()) {
            assert(player_names(a) + player_names(b.drop_last()).push(b.last()) =~= (player_names(
                a,
            ) + player_names(b.drop_last())).push(b.last()));
        }
    }
}

/// A name is found as a player exactly when it is on the bus, starts with
/// `org.mpris.MediaPlayer2.` (whatever follows) and is a valid bus name.
pub proof fn lemma_player_names_members(names: Seq<Seq<char>>, x: Seq<char>)
    ensures
        player_names(names).contains(x) <==> (names.contains(x) && starts_with(
            x,
            "org.mpris.MediaPlayer2."@,
        ) && is_bus_name(x)),
    decreases names.len(),
{
    if names.len() > 0 {
        let init = names.drop_last();
        let last = names.last();
        lemma_player_names_members(init, x);
        assert(names =~= init.push(last));
        let found = player_names(names);
        let before = player_names(init);
        if names.contains(x) {
            let i = choose|i: int| 0 <= i < names.len() && names[i] == x;
            if i < names.len() - 1 {
                assert(init[i] == x);
            }
        }
        if init.contains(x) {
            let i = choose|i: int| 0 <= i < init.len() && init[i] == x;
            assert(names[i] == x);
        }
        if is_player_name(last) {
            assert(found == before.push(last));
            if before.contains(x) {
                let i = choose|i: int| 0 <= i < before.len() && before[i] == x;
                assert(found[i] == x);
            }
            if found.contains(x) {
                let i = choose|i: int| 0 <= i < found.len() && found[i] == x;
                if i < before.len() {
                    assert(before[i] == x);
                }
            }
            assert(found[before.len() as int] == last);
        }
    }
}

/// The bus names of the MPRIS players among the names on the session bus.
pub fn player_bus_names(names: &Vec<String>) -> (r: Vec<String>)
    ensures
        r.deep_view() == player_names(names.deep_view()),
{
    let prefix = chars_of("org.mpris.MediaPlayer2.");
    let mut out: Vec<String> = Vec::new();
    let mut i: usize = 0;
    while i < names.len()
        invariant
            i <= names@.len(),
            prefix@ == mpris_prefix(),
            out.deep_view() == player_names(names.deep_view().take(i as int)),
        decreases names@.len() - i,
    {
        let name = &names[i];
        let cs = chars_of(name.as_str());
        assert(cs@.subrange(0, cs@.len() as int) =~= cs@);
        let ghost before = out.deep_view();
        assert(names.deep_view().take(i + 1).drop_last() =~= names.deep_view().take(i as int));
        assert(names.deep_view().take(i + 1).last() == name@);
        if starts_with_range(&cs, 0, cs.len(), prefix.as_slice()) && is_valid_bus_name(
            name.as_str(),
        ) {
            out.push(name.clone());
            assert(out.deep_view() =~= before.push(name@));
        }
        i = i + 1;
    }
    assert(names.deep_view().take(names@.len() as int) =~= names.deep_view());
    out
}

/// The player of `bus_name`, named by its `Identity` where it reported one
/// and by its bus name otherwise.
pub open spec fn player_from(bus_name: Seq<char>, identity: Option<Seq<char>>) -> (
    Seq<char>,
    Seq<char>,
) {
    match identity {
        Some(id) => (bus_name, id),
        None => (bus_name, bus_name),
    }
}

/// The players found on the bus, from each player's bus name and the
/// `Identity` it reported (absent where reading it failed).
pub fn list_players(found: &Vec<(String, Option<String>)>) -> (r: Vec<MprisPlayer>)
    ensures
        r@.len() == found@.len(),
        forall|i: int|
            0 <= i < found@.len() ==> #[trigger] r@[i]@ == player_from(
                found@[i].0@,
                opt_view(found@[i].1),
            ),
{
    let mut out: Vec<MprisPlayer> = Vec::new();
    let mut i: usize = 0;
    while i < found.len()
        invariant
            i <= found@.len(),
            out@.len() == i,
            forall|j: int|
                0 <= j < i ==> #[trigger] out@[j]@ == player_from(
                    found@[j].0@,
                    opt_view(found@[j].1),
                ),
        decreases found@.len() - i,
    {
        let bus_name = found[i].0.clone();
        let name = match &found[i].1 {
            Some(identity) => identity.clone(),
            None => found[i].0.clone(),
        };
        out.push(MprisPlayer { bus_name, name });
        i = i + 1;
    }
    out
}

/// A metadata value of a player, as far as the applet reads it: a string,
/// an array (holding, for each item, the string it is, if it is one), or
/// anything else.
#[derive(Clone, Debug)]
pub enum MetadataValue {
    Str(String),
    Array(Vec<Option<String>>),
    Other,
}

/// `list` joined with `sep` between its elements.
pub open spec fn seq_join(list: Seq<Seq<char>>, sep: Seq<char>) -> Seq<char>
    decreases list.len(),
{
    if list.len() == 0 {
        Seq::empty()
    } else if list.len() == 1 {
        list[0]
    } else {
        seq_join(list.drop_last(), sep) + sep + list.last()
    }
}

/// Joining two non-empty lists is joining each and putting one separator
/// between the results.
pub proof fn lemma_join_concat(a: Seq<Seq<char>>, b: Seq<Seq<char>>, sep: Seq<char>)
    requires
        a.len() > 0,
        b.len() > 0,
    ensures
        seq_join(a + b, sep) == seq_join(a, sep) + sep + seq_join(b, sep),
    decreases b.len(),
{
    let ab = a + b;
    if b.len() == 1 {
        assert(ab.drop_last() =~= a);
        assert(ab.last() == b[0]);
    } else {
        assert(ab.drop_last() =~= a + b.drop_last());
        assert(ab.last() == b.last());
        lemma_join_concat(a, b.drop_last(), sep);
        assert(seq_join(a, sep) + sep + seq_join(b.drop_last(), sep) + sep + b.last()
            =~= seq_join(a, sep) + sep + (seq_join(b.drop_last(), sep) + sep + b.last()));
    }
}

/// Total length of the strings in `list`.
pub open spec fn total_len(list: Seq<Seq<char>>) -> nat
    decreases list.len(),
{
    if list.len() == 0 {
        0
    } else {
        total_len(list.drop_last()) + list.last().len()
    }
}

/// A join of `n > 0` strings is as long as the strings together plus
/// `n - 1` separators.
pub proof fn lemma_join_len(list: Seq<Seq<char>>, sep: Seq<char>)
    requires
        list.len() > 0,
    ensures
        seq_join(list, sep).len() == total_len(list) + sep.len() * (list.len() - 1),
    decreases list.len(),
{
    if list.len() == 1 {
        assert(list.drop_last().len() == 0);
    } else {
        lemma_join_len(list.drop_last(), sep);
        let n = list.len() as int;
        assert(sep.len() * (n - 2) + sep.len() == sep.len() * (n - 1)) by (nonlinear_arith);
    }
}

/// A join starts with the first string, and where there are more, goes on
/// with the separator and the join of the rest.
pub proof fn lemma_join_first(list: Seq<Seq<char>>, sep: Seq<char>)
    requires
        list.len() > 1,
    ensures
        seq_join(list, sep) == list[0] + sep + seq_join(list.drop_first(), sep),
{
    let a = seq![list[0]];
    assert(list =~= a + list.drop_first());
    lemma_join_concat(a, list.drop_first(), sep);
}

/// The strings among `items`, in order.
pub open spec fn strings_of(items: Seq<Option<Seq<char>>>) -> Seq<Seq<char>>
    decreases items.len(),
{
    if items.len() == 0 {
        Seq::empty()
    } else {
        match items.last() {
            Some(s) => strings_of(items.drop_last()).push(s),
            None => strings_of(items.drop_last()),
        }
    }
}

/// The strings of two lists of items are those of each list in turn; an
/// item that is a string contributes exactly that string and any other item
/// contributes nothing.
pub proof fn lemma_strings_of_concat(a: Seq<Option<Seq<char>>>, b: Seq<Option<Seq<char>>>)
    ensures
        strings_of(a + b) == strings_of(a) + strings_of(b),
        forall|x: Seq<char>| strings_of(seq![Some(x)]) == seq![x],
        strings_of(seq![None::<Seq<char>>]) == Seq::<Seq<char>>::empty(),
    decreases b.len(),
{
    assert forall|x: Seq<char>| strings_of(seq![Some(x)]) == seq![x] by {
        assert(seq![Some(x)].drop_last() =~= Seq::<Option<Seq<char>>>::empty());
        assert(seq![Some(x)].last() == Some(x));
        assert(strings_of(Seq::<Option<Seq<char>>>::empty()) == Seq::<Seq<char>>::empty());
        assert(Seq::<Seq<char>>::empty().push(x) =~= seq![x]);
    }
    assert(seq![None::<Seq<char>>].drop_last() =~= Seq::<Option<Seq<char>>>::empty());
    assert(seq![None::<Seq<char>>].last() == None::<Seq<char>>);
    assert(strings_of(Seq::<Option<Seq<char>>>::empty()) == Seq::<Seq<char>>::empty());
    if b.len() == 0 {
        assert(a + b =~= a);
        assert(strings_of(a) + strings_of(b) =~= strings_of(a));
    } else {
        assert((a + b).drop_last() =~= a + b.drop_last());
        assert((a + b).last() == b.last());
        lemma_strings_of_concat(a, b.drop_last());
        if let Some(x) = b.last() {
            assert(strings_of(a) + strings_of(b.drop_last()).push(x) =~= (strings_of(a)
                + strings_of(b.drop_last())).push(x));
        }
    }
}

/// The view of the items of an array value.
pub open spec fn items_view(items: Seq<Option<String>>) -> Seq<Option<Seq<char>>> {
    items.map_values(|o: Option<String>| opt_view(o))
}

/// The track title that the `xesam:title` value gives: a non-empty string.
pub open spec fn title_of(v: Option<MetadataValue>) -> Option<Seq<char>> {
    match v {
        Some(MetadataValue::Str(s)) => if s@.len() > 0 {
            Some(s@)
        } else {
            None
        },
        _ => None,
    }
}

/// The artist that the `xesam:artist` value gives: its strings joined with
/// `, `, where there is at least one and the result is not empty.
pub open spec fn artist_of(v: Option<MetadataValue>) -> Option<Seq<char>> {
    match v {
        Some(MetadataValue::Array(items)) => {
            let strings = strings_of(items_view(items@));
            let joined = seq_join(strings, ", "@);
            if strings.len() > 0 && joined.len() > 0 {
                Some(joined)
            } else {
                None
            }
        },
        _ => None,
    }
}

/// Track info from the `xesam:title` and `xesam:artist` entries of a
/// player's metadata (each absent where the metadata has no such entry).
pub fn get_track_info(title: Option<MetadataValue>, artist: Option<MetadataValue>) -> (r: TrackInfo)
    ensures
        opt_view(r.title) == title_of(title),
        opt_view(r.artist) == artist_of(artist),
{
    let title_text = match title {
        Some(MetadataValue::Str(s)) => if s.as_str().is_empty() {
            None
        } else {
            Some(s)
        },
        _ => None,
    };
    let artist_text = match artist {
        Some(MetadataValue::Array(items)) => join_strings(&items),
        _ => None,
    };
    TrackInfo { title: title_text, artist: artist_text }
}

/// The strings among `items` joined with `, `, where there is at least one
/// and the result is not empty.
fn join_strings(items: &Vec<Option<String>>) -> (r: Option<String>)
    ensures
        opt_view(r) == ({
            let strings = strings_of(items_view(items@));
            let joined = seq_join(strings, ", "@);
            if strings.len() > 0 && joined.len() > 0 {
                Some(joined)
            } else {
                None
            }
        }),
{
    let mut out = String::new();
    let mut count: usize = 0;
    let mut i: usize = 0;
    while i < items.len()
        invariant
            i <= items@.len(),
            count == strings_of(items_view(items@.take(i as int))).len(),
            count <= i,
            out@ == seq_join(strings_of(items_view(items@.take(i as int))), ", "@),
        decreases items@.len() - i,
    {
        let ghost prev = items_view(items@.take(i as int));
        assert(items_view(items@.take(i + 1)).drop_last() =~= prev);
        assert(items_view(items@.take(i + 1)).last() == opt_view(items@[i as int]));
        match &items[i] {
            Some(s) => {
                let ghost l = strings_of(prev);
                let ghost old_out = out@;
                assert(strings_of(items_view(items@.take(i + 1))) == l.push(s@));
                assert(l.push(s@).drop_last() =~= l);
                if count > 0 {
                    out.append(", ");
                    out.append(s.as_str());
                    assert(out@ =~= old_out + ", "@ + s@);
                } else {
                    out.append(s.as_str());
                    assert(old_out =~= Seq::<char>::empty());
                    assert(out@ =~= s@);
                    assert(l.push(s@).len() == 1);
                }
                count = count + 1;
            },
            None => {},
        }
        i = i + 1;
    }
    assert(items@.take(items@.len() as int) =~= items@);
    if count > 0 && !out.as_str().is_empty() {
        Some(out)
    } else {
        None
    }
}

/// What a player reports it can do, as `(can_go_previous, can_go_next)`:
/// a capability that could not be read counts as absent.
pub fn get_nav_caps(can_go_previous: Option<bool>, can_go_next: Option<bool>) -> (r: (bool, bool))
    ensures
        r.0 == (can_go_previous == Some(true)),
        r.1 == (can_go_next == Some(true)),
{
    let prev = match can_go_previous {
        Some(b) => b,
        None => false,
    };
    let next = match can_go_next {
        Some(b) => b,
        None => false,
    };
    (prev, next)
}

} // verus!

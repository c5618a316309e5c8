# skadi_applet

A COSMIC panel applet that shows the audio output devices of a PipeWire
session (through `wpctl`) and controls the active MPRIS media player (over
D-Bus). This crate is its verified core, written in Verus.

Layout:

- `src/text.rs` — character-level text handling (whitespace, trimming,
  searching, `str::lines`, decimal `u32` parsing) with models over `Seq<char>`.
- `src/types.rs` — audio devices, media players, track info.
- `src/audio.rs` — reading `wpctl` output: mute state, the sink list of
  `wpctl status`, exit statuses, the combined audio state.
- `src/mpris.rs` — which D-Bus names are MPRIS players, track info from
  player metadata, navigation capabilities.
- `src/selection.rs` — which player the applet follows on each poll, with
  the laws of that heuristic.
- `src/model.rs` — the applet state, its reaction to each message, and the
  view model of the panel icon and popup.
- `tests/` — runtime tests.
- `app/` — the program around the library: running commands, D-Bus calls,
  subscriptions and the COSMIC user interface.

//! Verified core of a panel applet that shows the audio output devices of a
//! PipeWire session and controls the active MPRIS media player.
pub mod text;
pub mod types;
pub mod audio;
pub mod mpris;
pub mod selection;
pub mod model;

use skadi_applet::audio::{
    empty_audio_state, fetch_audio_state, get_mute_status, has_pa_compat, is_muted,
    list_sinks_and_default, parse_sink_line, parse_sinks, set_default_sink, toggle_mute,
    AudioError, CommandOutput, CommandStatus,
};
use skadi_applet::types::AudioDevice;

const SAMPLE_STATUS: &str = r#"
PipeWire 'pipewire-0' [v1.0.3, artem@darter, fd=17]

 Devices:
    43. Built-in Audio                           [alsa]

 Audio
  ├─ Sinks:
  │      51. Built-in Audio Analog Stereo        [vol: 0.65]
  │  *   52. HDMI / DisplayPort                  [vol: 1.00]
  ├─ Sources:
  │      53. Built-in Audio Analog Stereo        [vol: 1.00]
  └─ Filters:
"#;

#[test]
fn test_parse_sinks() {
    let (devices, default_id) = parse_sinks(SAMPLE_STATUS).unwrap();
    assert_eq!(devices.len(), 2);
    assert_eq!(devices[0].id, 51);
    assert_eq!(devices[0].name, "Built-in Audio Analog Stereo");
    assert_eq!(devices[1].id, 52);
    assert_eq!(devices[1].name, "HDMI / DisplayPort");
    assert_eq!(default_id, Some(52));
}

fn ok_status() -> CommandStatus {
    CommandStatus { success: true, description: "exit status: 0".to_string() }
}

fn failed_status() -> CommandStatus {
    CommandStatus { success: false, description: "exit status: 1".to_string() }
}

#[test]
fn sink_line_plain() {
    let r = parse_sink_line("  │      51. Built-in Audio Analog Stereo        [vol: 0.65]");
    assert_eq!(r, Some((51, "Built-in Audio Analog Stereo".to_string(), false)));
}

#[test]
fn sink_line_default_marker() {
    let r = parse_sink_line("  │  *   52. HDMI / DisplayPort                  [vol: 1.00]");
    assert_eq!(r, Some((52, "HDMI / DisplayPort".to_string(), true)));
}

#[test]
fn sink_line_without_metadata_keeps_whole_name() {
    let r = parse_sink_line("   60. USB Headset  ");
    assert_eq!(r, Some((60, "USB Headset".to_string(), false)));
}

#[test]
fn sink_line_last_bracket_starts_metadata() {
    let r = parse_sink_line(" 7. Speaker [front] [vol: 0.40]");
    assert_eq!(r, Some((7, "Speaker [front]".to_string(), false)));
}

#[test]
fn sink_line_id_with_plus_sign() {
    assert_eq!(parse_sink_line("+8. Dock"), Some((8, "Dock".to_string(), false)));
}

#[test]
fn sink_line_rejects_bad_lines() {
    assert_eq!(parse_sink_line("no dot here"), None);
    assert_eq!(parse_sink_line("abc. Name"), None);
    assert_eq!(parse_sink_line("4294967296. Too big"), None);
    assert_eq!(parse_sink_line("12. [vol: 1.00]"), None);
    assert_eq!(parse_sink_line(""), None);
}

#[test]
fn sink_line_largest_id() {
    assert_eq!(parse_sink_line("4294967295. Max"), Some((u32::MAX, "Max".to_string(), false)));
}

#[test]
fn sinks_with_crlf_lines_and_midi_section() {
    let status = "Audio\r\n ├─ Sinks:\r\n │  *  3. A [vol: 1]\r\n │     4. B\r\n ├─ Sources:\r\n";
    let (devices, default_id) = parse_sinks(status).unwrap();
    assert_eq!(devices, vec![
        AudioDevice { id: 3, name: "A".to_string() },
        AudioDevice { id: 4, name: "B".to_string() },
    ]);
    assert_eq!(default_id, Some(3));
}

#[test]
fn sinks_before_audio_section_are_ignored() {
    let status = "Video\n ├─ Sinks:\n │  1. Screen\nAudio MIDI\n ├─ Sinks:\n │  2. Synth\n";
    let (devices, default_id) = parse_sinks(status).unwrap();
    assert!(devices.is_empty());
    assert_eq!(default_id, None);
}

#[test]
fn sinks_list_ends_at_plain_text_line() {
    let status = "Audio\n Sinks:\n  9. One\n\n  10. Two\nSettings\n  11. Three\n";
    let (devices, _) = parse_sinks(status).unwrap();
    assert_eq!(devices.len(), 2);
    assert_eq!(devices[1].id, 10);
}

#[test]
fn sinks_of_empty_output() {
    let (devices, default_id) = parse_sinks("").unwrap();
    assert!(devices.is_empty());
    assert_eq!(default_id, None);
}

#[test]
fn muted_marker_detected() {
    assert!(is_muted("Volume: 0.65 [MUTED]\n"));
    assert!(!is_muted("Volume: 0.65\n"));
}

#[test]
fn mute_status_from_output() {
    let out = CommandOutput {
        status: ok_status(),
        stdout: b"Volume: 0.30 [MUTED]\n".to_vec(),
        stderr: Vec::new(),
    };
    assert_eq!(get_mute_status(&out).unwrap(), true);
    let out = CommandOutput { status: ok_status(), stdout: b"Volume: 0.30\n".to_vec(), stderr: Vec::new() };
    assert_eq!(get_mute_status(&out).unwrap(), false);
}

#[test]
fn mute_status_of_failed_command() {
    let out = CommandOutput { status: failed_status(), stdout: Vec::new(), stderr: b"no sink".to_vec() };
    match get_mute_status(&out) {
        Err(AudioError::GetVolumeFailed { status, stderr }) => {
            assert_eq!(status, "exit status: 1");
            assert_eq!(stderr, "no sink");
        }
        other => panic!("unexpected {:?}", other),
    }
}

#[test]
fn lossy_decoding_replaces_invalid_bytes() {
    let out = CommandOutput { status: failed_status(), stdout: Vec::new(), stderr: vec![b'a', 0xff, b'b'] };
    match get_mute_status(&out) {
        Err(AudioError::GetVolumeFailed { stderr, .. }) => assert_eq!(stderr, "a\u{FFFD}b"),
        other => panic!("unexpected {:?}", other),
    }
}

#[test]
fn sink_list_from_output() {
    let out = CommandOutput { status: ok_status(), stdout: SAMPLE_STATUS.as_bytes().to_vec(), stderr: Vec::new() };
    let (devices, default_id) = list_sinks_and_default(&out).unwrap();
    assert_eq!(devices.len(), 2);
    assert_eq!(default_id, Some(52));
    let failed = CommandOutput { status: failed_status(), stdout: Vec::new(), stderr: b"boom".to_vec() };
    assert!(matches!(list_sinks_and_default(&failed), Err(AudioError::StatusFailed { .. })));
}

#[test]
fn command_statuses() {
    assert!(toggle_mute(&ok_status()).is_ok());
    assert!(matches!(toggle_mute(&failed_status()), Err(AudioError::SetMuteFailed { .. })));
    assert!(set_default_sink(5, &ok_status()).is_ok());
    match set_default_sink(5, &failed_status()) {
        Err(AudioError::SetDefaultFailed { id, status }) => {
            assert_eq!(id, 5);
            assert_eq!(status, "exit status: 1");
        }
        other => panic!("unexpected {:?}", other),
    }
}

#[test]
fn audio_state_fallbacks() {
    let state = fetch_audio_state(
        Err(AudioError::SetMuteFailed { status: String::new() }),
        Ok((vec![AudioDevice { id: 1, name: "A".to_string() }], Some(1))),
    )
    .unwrap();
    assert!(!state.is_muted);
    assert_eq!(state.devices.len(), 1);
    assert_eq!(state.default_device_id, Some(1));
    let state = fetch_audio_state(Ok(true), Err(AudioError::SetMuteFailed { status: String::new() })).unwrap();
    assert!(state.is_muted);
    assert!(state.devices.is_empty());
    assert_eq!(state.default_device_id, None);
    let empty = empty_audio_state();
    assert!(!empty.is_muted && empty.devices.is_empty() && empty.default_device_id.is_none());
}

#[test]
fn pulseaudio_compat_detection() {
    let names = vec!["org.freedesktop.DBus".to_string(), "org.PulseAudio1".to_string()];
    assert!(has_pa_compat(&names));
    let names = vec!["org.PulseAudio".to_string()];
    assert!(!has_pa_compat(&names));
}

#[test]
fn text_before_audio_header_is_ignored() {
    let prefix = "Video\n ├─ Sinks:\n │  *  1. Screen\nAudio MIDI\n";
    let with_prefix = format!("{prefix}{SAMPLE_STATUS}");
    assert_eq!(parse_sinks(&with_prefix).unwrap(), parse_sinks(SAMPLE_STATUS).unwrap());
}

#[test]
fn header_after_sinks_ends_the_list() {
    let status = "Audio\n ├─ Sinks:\n │     1. A\n";
    let longer = format!("{status}  ├─ Sources:\n │  *  2. B\n Audio\n ├─ Sinks:\n │  3. C\n");
    let (devices, default_id) = parse_sinks(&longer).unwrap();
    assert_eq!((devices.clone(), default_id), parse_sinks(status).unwrap());
    assert_eq!(devices, vec![AudioDevice { id: 1, name: "A".to_string() }]);
    assert_eq!(default_id, None);
}

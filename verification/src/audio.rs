//! Audio side of the applet: what the `wpctl` command-line tool reports
//! (mute state, the sink list of `wpctl status`, exit statuses) turned into
//! the applet's audio state.
use vstd::prelude::*;
use vstd::string::StringExecFns;
use crate::text::{
    all_chars, chars_of, contains_range, contains_seq, decimal_u32, find_char, first_index,
    is_digit, is_first, is_last, last_index, lemma_skip_leading_keeps_all, lemma_trim_keeps_all,
    lines, parse_u32_range, rfind_char, skip_leading, skip_leading_range, starts_with,
    starts_with_range, string_from_range, strip_cr, trim, trim_range, trim_start, trim_start_range,
    lemma_line_then_rest, lemma_lines_append,
};
use crate::types::AudioDevice;

verus! {

/// The full audio state retrieved in a single pass.
#[derive(Clone, Debug)]
pub struct AudioState {
    pub is_muted: bool,
    pub devices: Vec<AudioDevice>,
    pub default_device_id: Option<u32>,
}

/// How a finished command exited: whether it succeeded, and its exit status
/// as the operating system describes it.
#[derive(Clone, Debug)]
pub struct CommandStatus {
    pub success: bool,
    pub description: String,
}

/// What a finished command printed, with its exit status.
#[derive(Clone, Debug)]
pub struct CommandOutput {
    pub status: CommandStatus,
    pub stdout: Vec<u8>,
    pub stderr: Vec<u8>,
}

/// Why an audio operation failed.
#[derive(Clone, Debug)]
pub enum AudioError {
    /// The command could not be started.
    Spawn { command: String, reason: String },
    /// `wpctl get-volume` exited unsuccessfully.
    GetVolumeFailed { status: String, stderr: String },
    /// `wpctl set-mute` exited unsuccessfully.
    SetMuteFailed { status: String },
    /// `wpctl status` exited unsuccessfully.
    StatusFailed { status: String, stderr: String },
    /// `wpctl set-default` exited unsuccessfully.
    SetDefaultFailed { id: u32, status: String },
}

/// What `String::from_utf8_lossy` makes of `bytes`.
pub uninterp spec fn utf8_lossy(bytes: Seq<u8>) -> Seq<char>;

/// Decodes `bytes` with `String::from_utf8_lossy`. Its documentation says
/// that valid UTF-8 is decoded as it stands and that each invalid sequence
/// becomes U+FFFD; the contract names the result and states the first part.
#[verifier::external_body]
fn decode_lossy(bytes: &[u8]) -> (r: String)
    ensures
        r@ == utf8_lossy(bytes@),
        vstd::utf8::valid_utf8(bytes@) ==> r@ == vstd::utf8::decode_utf8(bytes@),
{
    String::from_utf8_lossy(bytes).into_owned()
}

/// The marker that `wpctl get-volume` prints for a muted sink.
pub open spec fn muted_marker() -> Seq<char> {
    "[MUTED]"@
}

/// Whether the output of `wpctl get-volume` reports the sink as muted.
pub fn is_muted(stdout: &str) -> (r: bool)
    ensures
        r == contains_seq(stdout@, muted_marker()),
{
    let s = chars_of(stdout);
    let marker = chars_of("[MUTED]");
    assert(s@.subrange(0, s@.len() as int) =~= s@);
    contains_range(&s, 0, s.len(), marker.as_slice())
}

/// Mute status from a finished `wpctl get-volume @DEFAULT_AUDIO_SINK@`.
/// The output looks like:
///   Volume: 0.65
///   Volume: 0.65 [MUTED]
pub fn get_mute_status(out: &CommandOutput) -> (r: Result<bool, AudioError>)
    ensures
        r is Ok <==> out.status.success,
        r matches Ok(m) ==> m == contains_seq(utf8_lossy(out.stdout@), muted_marker()),
        r matches Err(e) ==> e matches AudioError::GetVolumeFailed { status, stderr } && status@
            == out.status.description@ && stderr@ == utf8_lossy(out.stderr@),
{
    if !out.status.success {
        return Err(
            AudioError::GetVolumeFailed {
                status: out.status.description.clone(),
                stderr: decode_lossy(out.stderr.as_slice()),
            },
        );
    }
    let stdout = decode_lossy(out.stdout.as_slice());
    Ok(is_muted(stdout.as_str()))
}

/// Result of `wpctl set-mute @DEFAULT_AUDIO_SINK@ toggle` from its exit status.
pub fn toggle_mute(status: &CommandStatus) -> (r: Result<(), AudioError>)
    ensures
        r is Ok <==> status.success,
        r matches Err(e) ==> e matches AudioError::SetMuteFailed { status: s } && s@
            == status.description@,
{
    if status.success {
        Ok(())
    } else {
        Err(AudioError::SetMuteFailed { status: status.description.clone() })
    }
}

/// Result of `wpctl set-default <id>` from its exit status.
pub fn set_default_sink(id: u32, status: &CommandStatus) -> (r: Result<(), AudioError>)
    ensures
        r is Ok <==> status.success,
        r matches Err(e) ==> e matches AudioError::SetDefaultFailed { id: i, status: s } && i
            == id && s@ == status.description@,
{
    if status.success {
        Ok(())
    } else {
        Err(AudioError::SetDefaultFailed { id, status: status.description.clone() })
    }
}


/// Box-drawing characters that `wpctl status` draws its tree with.
pub open spec fn is_tree_char(c: char) -> bool {
    c == '│' || c == '├' || c == '└' || c == '─'
}

/// `s` without its box-drawing characters.
pub open spec fn without_tree_chars(s: Seq<char>) -> Seq<char>
    decreases s.len(),
{
    if s.len() == 0 {
        s
    } else if is_tree_char(s.last()) {
        without_tree_chars(s.drop_last())
    } else {
        without_tree_chars(s.drop_last()).push(s.last())
    }
}

/// The device name in what follows `ID.` on a sink line: the text before the
/// last `[` (where trailing metadata such as `[vol: 0.65]` starts), trimmed,
/// or all of it where there is no `[`.
pub open spec fn sink_name(rest: Seq<char>) -> Seq<char> {
    match last_index(rest, '[') {
        Some(k) => trim(rest.take(k)),
        None => rest,
    }
}

/// A sink line of `wpctl status` read as `(id, name, is_default)`:
/// tree characters dropped and the rest trimmed; a leading `*` marks the
/// default sink; after the `*`s and whitespace come the decimal id, a `.`,
/// and the name. `None` where there is no `.`, the id is not a `u32`, or
/// the name is empty.
pub open spec fn sink_line(line: Seq<char>) -> Option<(u32, Seq<char>, bool)> {
    let a = trim(without_tree_chars(line));
    let is_default = a.len() > 0 && a[0] == '*';
    let b = trim(skip_leading(a, '*'));
    match first_index(b, '.') {
        None => None,
        Some(d) => match decimal_u32(trim(b.take(d))) {
            None => None,
            Some(id) => {
                let name = sink_name(trim(b.skip(d + 1)));
                if name.len() == 0 {
                    None
                } else {
                    Some((id, name, is_default))
                }
            },
        },
    }
}

/// `r` is the executable form of the parsed sink line `m`.
pub open spec fn same_sink(r: Option<(u32, String, bool)>, m: Option<(u32, Seq<char>, bool)>) -> bool {
    match r {
        Some(t) => m == Some((t.0, t.1@, t.2)),
        None => m is None,
    }
}

/// Parses the sink line `s[lo..hi]`.
fn sink_line_in(s: &Vec<char>, lo: usize, hi: usize) -> (r: Option<(u32, String, bool)>)
    requires
        lo <= hi <= s@.len(),
    ensures
        same_sink(r, sink_line(s@.subrange(lo as int, hi as int))),
{
    let ghost line = s@.subrange(lo as int, hi as int);
    let mut f: Vec<char> = Vec::new();
    let mut i = lo;
    while i < hi
        invariant
            lo <= i <= hi <= s@.len(),
            f@ == without_tree_chars(s@.subrange(lo as int, i as int)),
        decreases hi - i,
    {
        let c = s[i];
        assert(s@.subrange(lo as int, i + 1).drop_last() =~= s@.subrange(lo as int, i as int));
        if !(c == '│' || c == '├' || c == '└' || c == '─') {
            f.push(c);
        }
        i = i + 1;
    }
    assert(s@.subrange(lo as int, hi as int) == line);
    let n = f.len();
    assert(f@.subrange(0, n as int) =~= f@);
    let (a0, a1) = trim_range(&f, 0, n);
    let ghost a = f@.subrange(a0 as int, a1 as int);
    let is_default = a0 < a1 && f[a0] == '*';
    assert(is_default == (a.len() > 0 && a[0] == '*'));
    let b = skip_leading_range(&f, a0, a1, '*');
    let (b0, b1) = trim_range(&f, b, a1);
    let ghost bb = f@.subrange(b0 as int, b1 as int);
    assert(bb == trim(skip_leading(a, '*')));
    match find_char(&f, b0, b1, '.') {
        None => None,
        Some(d) => {
            assert(bb.take(d - b0) =~= f@.subrange(b0 as int, d as int));
            assert(bb.skip(d - b0 + 1) =~= f@.subrange(d + 1, b1 as int));
            let (i0, i1) = trim_range(&f, b0, d);
            match parse_u32_range(&f, i0, i1) {
                None => None,
                Some(id) => {
                    let (r0, r1) = trim_range(&f, d + 1, b1);
                    let ghost rest = f@.subrange(r0 as int, r1 as int);
                    let (n0, n1) = match rfind_char(&f, r0, r1, '[') {
                        Some(k) => {
                            assert(rest.take(k - r0) =~= f@.subrange(r0 as int, k as int));
                            trim_range(&f, r0, k)
                        },
                        None => (r0, r1),
                    };
                    assert(f@.subrange(n0 as int, n1 as int) == sink_name(rest));
                    if n0 == n1 {
                        None
                    } else {
                        Some((id, string_from_range(&f, n0, n1), is_default))
                    }
                },
            }
        },
    }
}

/// Parses a single sink line of `wpctl status`, returning
/// `(id, name, is_default)`.
pub fn parse_sink_line(line: &str) -> (r: Option<(u32, String, bool)>)
    ensures
        same_sink(r, sink_line(line@)),
{
    let s = chars_of(line);
    assert(s@.subrange(0, s@.len() as int) =~= s@);
    sink_line_in(&s, 0, s.len())
}


/// Where a reader of `wpctl status` stands after some of its lines: inside
/// the `Audio` section, inside its `Sinks:` list, past the end of that list,
/// and the sinks and default sink found so far.
#[verifier::ext_equal]
pub struct SinkScan {
    pub in_audio: bool,
    pub in_sinks: bool,
    pub stopped: bool,
    pub devices: Seq<(u32, Seq<char>)>,
    pub default_id: Option<u32>,
}

/// The reader before the first line.
pub open spec fn scan_start() -> SinkScan {
    SinkScan {
        in_audio: false,
        in_sinks: false,
        stopped: false,
        devices: Seq::empty(),
        default_id: None,
    }
}

/// A line that opens the `Audio` section (and not its MIDI namesake).
pub open spec fn is_audio_header(line: Seq<char>) -> bool {
    starts_with(trim_start(line), "Audio"@) && !contains_seq(line, "MIDI"@)
}

/// A trimmed, non-empty line inside the sink list that ends it: a
/// subsection header ending in `:`, or a line that starts with none of `*`,
/// a digit or a tree-drawing character.
pub open spec fn ends_sink_list(t: Seq<char>) -> bool {
    ||| t.last() == ':'
    ||| !(t[0] == '*' || is_digit(t[0]) || t[0] == '│' || t[0] == '├' || t[0] == '└' || t[0]
        == '|')
}

/// The reader after one more line.
pub open spec fn scan_line(st: SinkScan, line: Seq<char>) -> SinkScan {
    if is_audio_header(line) {
        SinkScan { in_audio: true, ..st }
    } else if !st.in_audio {
        st
    } else if contains_seq(line, "Sinks:"@) {
        SinkScan { in_sinks: true, ..st }
    } else if !st.in_sinks {
        st
    } else if trim(line).len() == 0 {
        st
    } else if ends_sink_list(trim(line)) {
        SinkScan { stopped: true, ..st }
    } else {
        match sink_line(line) {
            Some((id, name, is_default)) => SinkScan {
                devices: st.devices.push((id, name)),
                default_id: if is_default {
                    Some(id)
                } else {
                    st.default_id
                },
                ..st
            },
            None => st,
        }
    }
}

/// The reader after `ls`, which stops at the end of the sink list.
pub open spec fn scan_lines(st: SinkScan, ls: Seq<Seq<char>>) -> SinkScan
    decreases ls.len(),
{
    if ls.len() == 0 || st.stopped {
        st
    } else {
        scan_lines(scan_line(st, ls[0]), ls.drop_first())
    }
}

/// The reader after all lines of the `wpctl status` output `status`.
pub open spec fn scan_status(status: Seq<char>) -> SinkScan {
    scan_lines(scan_start(), lines(status))
}

/// Parses `wpctl status` output and extracts the sinks, in the order they
/// are listed, and the sink marked as default (the last one marked).
///
/// Relevant section looks like:
/// ```text
///  Audio
///   ├─ Sinks:
///   │      51. Built-in Audio Analog Stereo        [vol: 0.65]
///   │  *   52. HDMI / DisplayPort                  [vol: 1.00]
/// ```
/// The `*` marks the default sink.
#[verifier::rlimit(40)]
pub fn parse_sinks(status: &str) -> (r: Result<(Vec<AudioDevice>, Option<u32>), AudioError>)
    ensures
        r matches Ok((devices, default_id)) && devices.deep_view() == scan_status(status@).devices
            && default_id == scan_status(status@).default_id,
{
    let s = chars_of(status);
    let n = s.len();
    let audio = chars_of("Audio");
    let midi = chars_of("MIDI");
    let sinks = chars_of("Sinks:");
    let mut in_audio = false;
    let mut in_sinks = false;
    let mut stopped = false;
    let mut devices: Vec<AudioDevice> = Vec::new();
    let mut default_id: Option<u32> = None;
    let mut pos: usize = 0;
    assert(s@.skip(0) =~= s@);
    assert(devices.deep_view() =~= Seq::<(u32, Seq<char>)>::empty());
    while pos < n && !stopped
        invariant
            pos <= n == s@.len(),
            s@ == status@,
            audio@ == "Audio"@,
            midi@ == "MIDI"@,
            sinks@ == "Sinks:"@,
            scan_status(status@) == scan_lines(
                SinkScan {
                    in_audio,
                    in_sinks,
                    stopped,
                    devices: devices.deep_view(),
                    default_id,
                },
                lines(s@.skip(pos as int)),
            ),
        decreases n - pos,
    {
        let ghost rest = s@.skip(pos as int);
        assert(rest =~= s@.subrange(pos as int, n as int));
        let (line_end, next) = match find_char(&s, pos, n, '\n') {
            Some(k) => {
                let e = if k > pos && s[k - 1] == '\r' {
                    k - 1
                } else {
                    k
                };
                assert(rest.take(k - pos) =~= s@.subrange(pos as int, k as int));
                assert(strip_cr(rest.take(k - pos)) =~= s@.subrange(pos as int, e as int));
                assert(rest.skip(k - pos + 1) =~= s@.skip(k + 1));
                (e, k + 1)
            },
            None => {
                assert(rest =~= s@.subrange(pos as int, n as int));
                assert(s@.skip(n as int) =~= Seq::<char>::empty());
                assert(lines(s@.skip(n as int)) =~= Seq::<Seq<char>>::empty());
                (n, n)
            },
        };
        let ghost line = s@.subrange(pos as int, line_end as int);
        assert(lines(rest) =~= seq![line] + lines(s@.skip(next as int)));
        let ghost before = SinkScan {
            in_audio,
            in_sinks,
            stopped,
            devices: devices.deep_view(),
            default_id,
        };
        let ts = trim_start_range(&s, pos, line_end);
        if starts_with_range(&s, ts, line_end, audio.as_slice()) && !contains_range(
            &s,
            pos,
            line_end,
            midi.as_slice(),
        ) {
            in_audio = true;
        } else if !in_audio {
        } else if contains_range(&s, pos, line_end, sinks.as_slice()) {
            in_sinks = true;
        } else if !in_sinks {
        } else {
            let (t0, t1) = trim_range(&s, pos, line_end);
            if t0 == t1 {
            } else {
                let first = s[t0];
                let fu = first as u32;
                if s[t1 - 1] == ':' || !(first == '*' || (48 <= fu && fu <= 57) || first == '│'
                    || first == '├' || first == '└' || first == '|') {
                    stopped = true;
                } else {
                    match sink_line_in(&s, pos, line_end) {
                        Some((id, name, is_default)) => {
                            if is_default {
                                default_id = Some(id);
                            }
                            let ghost old_devices = devices.deep_view();
                            devices.push(AudioDevice { id, name });
                            assert(devices.deep_view() =~= old_devices.push((id, name@)));
                        },
                        None => {},
                    }
                }
            }
        }
        let ghost after = SinkScan {
            in_audio,
            in_sinks,
            stopped,
            devices: devices.deep_view(),
            default_id,
        };
        assert(after =~= scan_line(before, line));
        let ghost ls = seq![line] + lines(s@.skip(next as int));
        assert(ls[0] == line);
        assert(ls.drop_first() =~= lines(s@.skip(next as int)));
        assert(scan_lines(before, ls) == scan_lines(after, lines(s@.skip(next as int))));
        pos = next;
    }
    if pos >= n {
        assert(s@.skip(pos as int) =~= Seq::<char>::empty());
        assert(lines(s@.skip(pos as int)) =~= Seq::<Seq<char>>::empty());
    }
    Ok((devices, default_id))
}


/// Sinks and default sink from a finished `wpctl status`.
pub fn list_sinks_and_default(out: &CommandOutput) -> (r: Result<
    (Vec<AudioDevice>, Option<u32>),
    AudioError,
>)
    ensures
        r is Ok <==> out.status.success,
        r matches Ok((devices, default_id)) ==> devices.deep_view() == scan_status(
            utf8_lossy(out.stdout@),
        ).devices && default_id == scan_status(utf8_lossy(out.stdout@)).default_id,
        r matches Err(e) ==> e matches AudioError::StatusFailed { status, stderr } && status@
            == out.status.description@ && stderr@ == utf8_lossy(out.stderr@),
{
    if !out.status.success {
        return Err(
            AudioError::StatusFailed {
                status: out.status.description.clone(),
                stderr: decode_lossy(out.stderr.as_slice()),
            },
        );
    }
    let stdout = decode_lossy(out.stdout.as_slice());
    parse_sinks(stdout.as_str())
}

/// The complete audio state from the two queries that make it up: a failed
/// mute query counts as not muted, a failed sink query as no sinks and no
/// default.
pub fn fetch_audio_state(
    mute_result: Result<bool, AudioError>,
    sinks_result: Result<(Vec<AudioDevice>, Option<u32>), AudioError>,
) -> (r: Result<AudioState, AudioError>)
    ensures
        r matches Ok(state) && state.is_muted == (mute_result matches Ok(m) && m) && match
            sinks_result {
            Ok((devices, default_id)) => state.devices.deep_view() == devices.deep_view()
                && state.default_device_id == default_id,
            Err(_) => state.devices@.len() == 0 && state.default_device_id is None,
        },
{
    let is_muted = match mute_result {
        Ok(m) => m,
        Err(_) => false,
    };
    let (devices, default_device_id) = match sinks_result {
        Ok(found) => found,
        Err(_) => (Vec::new(), None),
    };
    Ok(AudioState { is_muted, devices, default_device_id })
}

/// The audio state used before anything has been read: not muted, no
/// devices, no default.
pub fn empty_audio_state() -> (r: AudioState)
    ensures
        !r.is_muted,
        r.devices@.len() == 0,
        r.default_device_id is None,
{
    AudioState { is_muted: false, devices: Vec::new(), default_device_id: None }
}

/// The D-Bus name under which PipeWire offers its PulseAudio-compatible
/// service.
pub open spec fn pa_compat_name() -> Seq<char> {
    "org.PulseAudio1"@
}

/// Whether the PulseAudio-compatible service is among the names on the
/// session bus.
pub fn has_pa_compat(names: &Vec<String>) -> (r: bool)
    ensures
        r == exists|i: int| 0 <= i < names@.len() && #[trigger] names@[i]@ == pa_compat_name(),
{
    let target = String::from_str("org.PulseAudio1");
    let mut i: usize = 0;
    while i < names.len()
        invariant
            i <= names@.len(),
            target@ == pa_compat_name(),
            forall|j: int| 0 <= j < i ==> #[trigger] names@[j]@ != pa_compat_name(),
        decreases names@.len() - i,
    {
        if names[i] == target {
            return true;
        }
        i = i + 1;
    }
    false
}


/// Not a box-drawing character.
pub open spec fn not_tree_char() -> spec_fn(char) -> bool {
    |c: char| !is_tree_char(c)
}

/// Removing the box-drawing characters leaves none.
proof fn lemma_without_tree_chars_clean(s: Seq<char>)
    ensures
        all_chars(without_tree_chars(s), not_tree_char()),
    decreases s.len(),
{
    if s.len() > 0 {
        lemma_without_tree_chars_clean(s.drop_last());
    }
}

/// Sink names are never empty and hold no box-drawing characters.
pub proof fn lemma_sink_name_clean(line: Seq<char>)
    ensures
        sink_line(line) matches Some((id, name, is_default)) ==> name.len() > 0 && all_chars(
            name,
            not_tree_char(),
        ),
{
    let p = not_tree_char();
    let a = trim(without_tree_chars(line));
    lemma_without_tree_chars_clean(line);
    lemma_trim_keeps_all(without_tree_chars(line), p);
    lemma_skip_leading_keeps_all(a, '*', p);
    lemma_trim_keeps_all(skip_leading(a, '*'), p);
    let b = trim(skip_leading(a, '*'));
    if let Some(d) = first_index(b, '.') {
        assert(is_first(b, '.', d));
        let rest0 = b.skip(d + 1);
        assert(all_chars(rest0, p)) by {
            assert forall|i: int| 0 <= i < rest0.len() implies p(#[trigger] rest0[i]) by {
                assert(rest0[i] == b[i + d + 1]);
            }
        }
        lemma_trim_keeps_all(rest0, p);
        let rest = trim(rest0);
        if let Some(k) = last_index(rest, '[') {
            assert(is_last(rest, '[', k));
            let head = rest.take(k);
            assert(all_chars(head, p)) by {
                assert forall|i: int| 0 <= i < head.len() implies p(#[trigger] head[i]) by {
                    assert(head[i] == rest[i]);
                }
            }
            lemma_trim_keeps_all(head, p);
        }
    }
}

/// The reader's sinks have non-empty names, and its default sink, if any,
/// is one of them.
pub open spec fn scan_consistent(st: SinkScan) -> bool {
    &&& forall|i: int| 0 <= i < st.devices.len() ==> (#[trigger] st.devices[i]).1.len() > 0
    &&& st.default_id matches Some(d) ==> exists|i: int|
        0 <= i < st.devices.len() && (#[trigger] st.devices[i]).0 == d
}

/// Reading a line keeps the reader consistent.
proof fn lemma_scan_line_consistent(st: SinkScan, line: Seq<char>)
    requires
        scan_consistent(st),
    ensures
        scan_consistent(scan_line(st, line)),
{
    lemma_sink_name_clean(line);
    let next = scan_line(st, line);
    if next.devices.len() == st.devices.len() + 1 {
        assert forall|i: int| 0 <= i < st.devices.len() implies next.devices[i] == st.devices[i] by {}
        if let Some(d) = st.default_id {
            if next.default_id == st.default_id {
                let i = choose|i: int| 0 <= i < st.devices.len() && (#[trigger] st.devices[i]).0 == d;
                assert(next.devices[i].0 == d);
            }
        }
        let last = st.devices.len() as int;
        assert(next.devices[last] == next.devices[last]);
    }
}

/// Reading lines keeps the reader consistent.
proof fn lemma_scan_lines_consistent(st: SinkScan, ls: Seq<Seq<char>>)
    requires
        scan_consistent(st),
    ensures
        scan_consistent(scan_lines(st, ls)),
    decreases ls.len(),
{
    if ls.len() > 0 && !st.stopped {
        lemma_scan_line_consistent(st, ls[0]);
        lemma_scan_lines_consistent(scan_line(st, ls[0]), ls.drop_first());
    }
}

/// The default sink that `wpctl status` marks with `*` is always one of the
/// listed sinks, and every listed sink has a name.
pub proof fn lemma_default_sink_is_listed(status: Seq<char>)
    ensures
        scan_status(status).default_id matches Some(d) ==> exists|i: int|
            0 <= i < scan_status(status).devices.len() && (#[trigger] scan_status(
                status,
            ).devices[i]).0 == d,
        forall|i: int|
            0 <= i < scan_status(status).devices.len() ==> (#[trigger] scan_status(
                status,
            ).devices[i]).1.len() > 0,
{
    lemma_scan_lines_consistent(scan_start(), lines(status));
}


/// Reading `a` then `b` is reading `a + b`.
pub proof fn lemma_scan_append(st: SinkScan, a: Seq<Seq<char>>, b: Seq<Seq<char>>)
    ensures
        scan_lines(st, a + b) == scan_lines(scan_lines(st, a), b),
    decreases a.len(),
{
    if a.len() == 0 {
        assert(a + b =~= b);
    } else if st.stopped {
    } else {
        assert((a + b)[0] == a[0]);
        assert((a + b).drop_first() =~= a.drop_first() + b);
        lemma_scan_append(scan_line(st, a[0]), a.drop_first(), b);
    }
}

/// Reading a single line.
proof fn lemma_scan_one(st: SinkScan, line: Seq<char>)
    ensures
        scan_lines(st, seq![line]) == if st.stopped {
            st
        } else {
            scan_line(st, line)
        },
{
    assert(seq![line].drop_first() =~= Seq::<Seq<char>>::empty());
    if !st.stopped {
        assert(scan_lines(scan_line(st, line), Seq::<Seq<char>>::empty()) == scan_line(st, line));
    }
}

/// The reader never leaves the `Audio` section or the sink list, never
/// resumes after stopping, and is in the sink list only inside the `Audio`
/// section.
proof fn lemma_scan_monotone(st: SinkScan, ls: Seq<Seq<char>>)
    ensures
        st.in_audio ==> scan_lines(st, ls).in_audio,
        st.in_sinks ==> scan_lines(st, ls).in_sinks,
        st.stopped ==> scan_lines(st, ls).stopped,
        (st.in_sinks ==> st.in_audio) ==> (scan_lines(st, ls).in_sinks ==> scan_lines(
            st,
            ls,
        ).in_audio),
    decreases ls.len(),
{
    if ls.len() > 0 && !st.stopped {
        lemma_scan_monotone(scan_line(st, ls[0]), ls.drop_first());
    }
}

/// Lines that open no `Audio` section leave the reader where it starts.
proof fn lemma_no_header_keeps_start(ls: Seq<Seq<char>>)
    requires
        forall|i: int| 0 <= i < ls.len() ==> !is_audio_header(#[trigger] ls[i]),
    ensures
        scan_lines(scan_start(), ls) == scan_start(),
    decreases ls.len(),
{
    if ls.len() > 0 {
        assert(!is_audio_header(ls[0]));
        assert forall|i: int| 0 <= i < ls.drop_first().len() implies !is_audio_header(
            #[trigger] ls.drop_first()[i],
        ) by {
            assert(ls.drop_first()[i] == ls[i + 1]);
        }
        lemma_no_header_keeps_start(ls.drop_first());
    }
}

/// Everything before the `Audio` section header is ignored: lines (such as
/// a `Devices:` list, or even a `Sinks:` line) in front of `status` that
/// open no `Audio` section change nothing that `status` is read as.
pub proof fn lemma_text_before_audio_ignored(p: Seq<char>, status: Seq<char>)
    requires
        p.len() == 0 || p.last() == '\n',
        forall|i: int| 0 <= i < lines(p).len() ==> !is_audio_header(#[trigger] lines(p)[i]),
    ensures
        scan_status(p + status) == scan_status(status),
{
    lemma_lines_append(p, status);
    lemma_scan_append(scan_start(), lines(p), lines(status));
    lemma_no_header_keeps_start(lines(p));
}

/// A line that opens the `Audio` section followed later by a `Sinks:` line
/// (one that is not itself an `Audio` header) opens the sink list, unless
/// reading has stopped.
pub proof fn lemma_sink_list_opens(status: Seq<char>, i: int, j: int)
    requires
        0 <= i < j < lines(status).len(),
        is_audio_header(lines(status)[i]),
        contains_seq(lines(status)[j], "Sinks:"@),
        !is_audio_header(lines(status)[j]),
    ensures
        scan_status(status).in_sinks || scan_status(status).stopped,
{
    let ls = lines(status);
    let a = ls.take(i);
    let b = seq![ls[i]];
    let c = ls.subrange(i + 1, j);
    let d = seq![ls[j]];
    let e = ls.skip(j + 1);
    assert(ls =~= a + b + c + d + e);
    lemma_scan_append(scan_start(), a + b + c + d, e);
    lemma_scan_append(scan_start(), a + b + c, d);
    lemma_scan_append(scan_start(), a + b, c);
    lemma_scan_append(scan_start(), a, b);
    let s1 = scan_lines(scan_start(), a);
    lemma_scan_one(s1, ls[i]);
    let s2 = scan_lines(s1, b);
    assert(s2.in_audio || s2.stopped);
    lemma_scan_monotone(s2, c);
    let s3 = scan_lines(s2, c);
    lemma_scan_one(s3, ls[j]);
    let s4 = scan_lines(s3, d);
    assert(s4.in_sinks || s4.stopped);
    lemma_scan_monotone(s4, e);
}

/// Once the sink list is open, the first subsection header after it (a
/// line ending in `:`, such as `├─ Sources:`) ends the reading: nothing
/// after it adds a sink or changes the default.
proof fn lemma_header_stops_open_list(status: Seq<char>, h: Seq<char>, t: Seq<char>)
    requires
        status.len() == 0 || status.last() == '\n',
        scan_status(status).in_sinks || scan_status(status).stopped,
        forall|i: int| 0 <= i < h.len() ==> h[i] != '\n',
        !is_audio_header(strip_cr(h)),
        !contains_seq(strip_cr(h), "Sinks:"@),
        trim(strip_cr(h)).len() > 0,
        trim(strip_cr(h)).last() == ':',
    ensures
        scan_status(status + h + seq!['\n'] + t).devices == scan_status(status).devices,
        scan_status(status + h + seq!['\n'] + t).default_id == scan_status(status).default_id,
{
    let rest = h + seq!['\n'] + t;
    assert(status + h + seq!['\n'] + t =~= status + rest);
    lemma_lines_append(status, rest);
    lemma_line_then_rest(h, t);
    lemma_scan_append(scan_start(), lines(status), lines(rest));
    lemma_scan_monotone(scan_start(), lines(status));
    let st = scan_status(status);
    let line = strip_cr(h);
    let ls = seq![line] + lines(t);
    assert(ls[0] == line);
    assert(ls.drop_first() =~= lines(t));
    assert(scan_status(status + h + seq!['\n'] + t) == scan_lines(st, ls));
    if !st.stopped {
        let next = scan_line(st, line);
        assert(ends_sink_list(trim(line)));
        assert(next.stopped);
        assert(next.devices == st.devices);
        assert(next.default_id == st.default_id);
        assert(scan_lines(st, ls) == scan_lines(next, lines(t)));
        assert(scan_lines(next, lines(t)) == next);
    }
}

/// The first subsection header after the `Sinks:` list ends it: where
/// `status` holds an `Audio` header and, after it, a `Sinks:` line that is
/// not itself an `Audio` header, a following header line `h` (ending in
/// `:`) stops the reading, so `Sources`, `Filters` and later sections never
/// add a sink or change the default.
pub proof fn lemma_header_ends_sink_list(
    status: Seq<char>,
    i: int,
    j: int,
    h: Seq<char>,
    t: Seq<char>,
)
    requires
        status.len() == 0 || status.last() == '\n',
        0 <= i < j < lines(status).len(),
        is_audio_header(lines(status)[i]),
        contains_seq(lines(status)[j], "Sinks:"@),
        !is_audio_header(lines(status)[j]),
        forall|k: int| 0 <= k < h.len() ==> h[k] != '\n',
        !is_audio_header(strip_cr(h)),
        !contains_seq(strip_cr(h), "Sinks:"@),
        trim(strip_cr(h)).len() > 0,
        trim(strip_cr(h)).last() == ':',
    ensures
        scan_status(status + h + seq!['\n'] + t).devices == scan_status(status).devices,
        scan_status(status + h + seq!['\n'] + t).default_id == scan_status(status).default_id,
{
    lemma_sink_list_opens(status, i, j);
    lemma_header_stops_open_list(status, h, t);
}


/// Lines without `Sinks:` never open the sink list, so reading cannot stop.
proof fn lemma_no_sinks_line_keeps_closed(st: SinkScan, ls: Seq<Seq<char>>)
    requires
        !st.in_sinks,
        !st.stopped,
        forall|i: int| 0 <= i < ls.len() ==> !contains_seq(#[trigger] ls[i], "Sinks:"@),
    ensures
        !scan_lines(st, ls).in_sinks,
        !scan_lines(st, ls).stopped,
    decreases ls.len(),
{
    if ls.len() > 0 {
        assert(!contains_seq(ls[0], "Sinks:"@));
        assert forall|i: int| 0 <= i < ls.drop_first().len() implies !contains_seq(
            #[trigger] ls.drop_first()[i],
            "Sinks:"@,
        ) by {
            assert(ls.drop_first()[i] == ls[i + 1]);
        }
        lemma_no_sinks_line_keeps_closed(scan_line(st, ls[0]), ls.drop_first());
    }
}

/// Inside the `Audio` section but before its sink list, lines that neither
/// open an `Audio` section nor contain `Sinks:` leave the reader as it is.
proof fn lemma_audio_lines_keep_state(st: SinkScan, ls: Seq<Seq<char>>)
    requires
        st.in_audio,
        !st.in_sinks,
        !st.stopped,
        forall|i: int|
            0 <= i < ls.len() ==> !is_audio_header(#[trigger] ls[i]) && !contains_seq(
                ls[i],
                "Sinks:"@,
            ),
    ensures
        scan_lines(st, ls) == st,
    decreases ls.len(),
{
    if ls.len() > 0 {
        assert(!is_audio_header(ls[0]) && !contains_seq(ls[0], "Sinks:"@));
        assert(scan_line(st, ls[0]) == st);
        assert forall|i: int| 0 <= i < ls.drop_first().len() implies !is_audio_header(
            #[trigger] ls.drop_first()[i],
        ) && !contains_seq(ls.drop_first()[i], "Sinks:"@) by {
            assert(ls.drop_first()[i] == ls[i + 1]);
        }
        lemma_audio_lines_keep_state(st, ls.drop_first());
    }
}

/// Subsections between the `Audio` header and the `Sinks:` list (such as
/// `├─ Devices:` with its entries) change nothing: where `p` has no `Sinks:`
/// line, `h` is an `Audio` header line and the lines of `m` neither open an
/// `Audio` section nor contain `Sinks:`, inserting `m` right after `h`
/// leaves everything read from the output as it was.
pub proof fn lemma_lines_before_sinks_ignored(
    p: Seq<char>,
    h: Seq<char>,
    m: Seq<char>,
    s: Seq<char>,
)
    requires
        p.len() == 0 || p.last() == '\n',
        forall|i: int| 0 <= i < lines(p).len() ==> !contains_seq(#[trigger] lines(p)[i], "Sinks:"@),
        forall|k: int| 0 <= k < h.len() ==> h[k] != '\n',
        is_audio_header(strip_cr(h)),
        m.len() == 0 || m.last() == '\n',
        forall|i: int|
            0 <= i < lines(m).len() ==> !is_audio_header(#[trigger] lines(m)[i]) && !contains_seq(
                lines(m)[i],
                "Sinks:"@,
            ),
    ensures
        scan_status(p + h + seq!['\n'] + m + s) == scan_status(p + h + seq!['\n'] + s),
{
    let line = strip_cr(h);
    let a = lines(p);
    let b = seq![line];
    let mm = lines(m);
    let ss = lines(s);
    lemma_lines_around_header(p, h, m + s);
    lemma_lines_around_header(p, h, s);
    assert(lines(p + h + seq!['\n'] + m + s) == a + b + mm + ss) by {
        assert(p + h + seq!['\n'] + m + s =~= p + h + seq!['\n'] + (m + s));
        lemma_lines_append(m, s);
        assert(a + b + (mm + ss) =~= a + b + mm + ss);
    }
    lemma_scan_before_sinks(a, line, mm, ss);
}

/// The lines of `p + h + "\n" + t`, for `p` empty or ending with a newline
/// and `h` one line.
proof fn lemma_lines_around_header(p: Seq<char>, h: Seq<char>, t: Seq<char>)
    requires
        p.len() == 0 || p.last() == '\n',
        forall|k: int| 0 <= k < h.len() ==> h[k] != '\n',
    ensures
        lines(p + h + seq!['\n'] + t) == lines(p) + seq![strip_cr(h)] + lines(t),
{
    assert(p + h + seq!['\n'] + t =~= p + (h + seq!['\n'] + t));
    lemma_lines_append(p, h + seq!['\n'] + t);
    lemma_line_then_rest(h, t);
}

/// Reading `a`, an `Audio` header, then `mm` and `ss` gives what reading
/// `a`, the header and `ss` gives.
proof fn lemma_scan_before_sinks(
    a: Seq<Seq<char>>,
    line: Seq<char>,
    mm: Seq<Seq<char>>,
    ss: Seq<Seq<char>>,
)
    requires
        forall|i: int| 0 <= i < a.len() ==> !contains_seq(#[trigger] a[i], "Sinks:"@),
        is_audio_header(line),
        forall|i: int|
            0 <= i < mm.len() ==> !is_audio_header(#[trigger] mm[i]) && !contains_seq(
                mm[i],
                "Sinks:"@,
            ),
    ensures
        scan_lines(scan_start(), a + seq![line] + mm + ss) == scan_lines(
            scan_start(),
            a + seq![line] + ss,
        ),
{
    let b = seq![line];
    lemma_no_sinks_line_keeps_closed(scan_start(), a);
    let st1 = scan_lines(scan_start(), a);
    lemma_scan_one(st1, line);
    let st2 = scan_lines(st1, b);
    assert(st2.in_audio && !st2.in_sinks && !st2.stopped);
    lemma_audio_lines_keep_state(st2, mm);
    lemma_scan_append(scan_start(), a, b);
    lemma_scan_append(scan_start(), a + b, mm);
    lemma_scan_append(scan_start(), a + b + mm, ss);
    lemma_scan_append(scan_start(), a + b, ss);
}

} // verus!

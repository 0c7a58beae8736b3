//! The decisions of a recording session: what typed keys do (pause,
//! markers, the prefix key), which events are recorded and at what time.
//! The session loop that moves bytes between the terminal and the process
//! runs around these decisions.
use vstd::prelude::*;
use crate::config::Key;
use crate::tty::TtySize;

verus! {

/// The keys that control a recording session.
pub struct KeyBindings {
    /// A key that must precede the other keys, if set.
    pub prefix: Key,
    pub pause: Key,
    pub add_marker: Key,
}

impl KeyBindings {
    /// No prefix key, pause on Ctrl-\, no marker key.
    pub fn default() -> (k: Self)
        ensures
            k.prefix is None,
            k.pause matches Some(v) && v@ == seq![0x1cu8],
            k.add_marker is None,
    {
        KeyBindings { prefix: None, pause: Some(vec![0x1c]), add_marker: None }
    }
}

/// The state of a recording session, times in microseconds.
#[derive(Debug, Clone, Copy, PartialEq, Eq, Structural)]
pub struct SessionState {
    /// When recording was paused, if it is.
    pub pause_time: Option<u64>,
    /// Whether the prefix key was just pressed.
    pub prefix_mode: bool,
    /// Whether typed input is recorded.
    pub record_input: bool,
    /// The paused time taken out of the session clock.
    pub time_offset: u64,
    /// The terminal size last recorded.
    pub tty_size: TtySize,
}

/// A session event to record.
#[derive(Debug, Clone, Copy, PartialEq, Eq, Structural)]
pub enum Record {
    /// A marker, at this time.
    Marker(u64),
    /// Typed input to decode, at this time; `input_event` makes the event
    /// of the decoded text, none when it is empty.
    Input(u64),
    /// Output to decode, at this time; `output_event` makes the event of
    /// the decoded text, none when it is empty.
    Output(u64),
    /// A new terminal size, at this time.
    Resize(u64, TtySize),
    /// The end of the session, with the exit status.
    Exit(u64, i32),
}

/// What the session does with typed input.
#[derive(Debug, Clone, Copy, PartialEq, Eq, Structural)]
pub struct InputOutcome {
    /// Whether the input goes on to the recorded process.
    pub forward: bool,
    /// The event to record, if any.
    pub record: Option<Record>,
    /// The notification to show, if any: 0 paused, 1 resumed, 2 marker
    /// added.
    pub notify: Option<u8>,
}

/// The session clock at wall-clock time `now` since the session began: the
/// pause time while paused, else `now` less the paused time.
pub open spec fn spec_elapsed(s: SessionState, now: u64) -> u64 {
    match s.pause_time {
        Some(p) => p,
        None => (now - s.time_offset) as u64,
    }
}

/// The session clock.
pub fn elapsed_time(s: &SessionState, now: u64) -> (t: u64)
    requires
        s.time_offset <= now,
    ensures
        t == spec_elapsed(*s, now),
{
    match s.pause_time {
        Some(p) => p,
        None => now - s.time_offset,
    }
}

/// Whether a binding is set to exactly `key`.
pub open spec fn bound(k: Key, key: Seq<u8>) -> bool {
    k matches Some(v) && v@ == key
}

/// What typed input does, at wall-clock time `now`. After the prefix key
/// (when one is set) or at any time (when none is), the pause key toggles
/// the pause (taking the paused time out of the clock on resume) and the
/// marker key records a marker; these keys are not passed on. The prefix key
/// itself is not passed on either. Other input is passed on, and recorded
/// when input is recorded and the session is not paused.
pub open spec fn spec_handle_input(s: SessionState, keys: KeyBindings, data: Seq<u8>, now: u64) -> (SessionState, InputOutcome) {
    if !s.prefix_mode && bound(keys.prefix, data) {
        (SessionState { prefix_mode: true, ..s }, InputOutcome { forward: false, record: None, notify: None })
    } else {
        let armed = s.prefix_mode || keys.prefix is None;
        let s1 = if armed {
            SessionState { prefix_mode: false, ..s }
        } else {
            s
        };
        if armed && bound(keys.pause, data) {
            match s1.pause_time {
                Some(pt) => {
                    let s2 = SessionState { pause_time: None, ..s1 };
                    (
                        SessionState {
                            time_offset: (s2.time_offset + (spec_elapsed(s2, now) - pt)) as u64,
                            ..s2
                        },
                        InputOutcome { forward: false, record: None, notify: Some(1) },
                    )
                },
                None => (
                    SessionState { pause_time: Some(spec_elapsed(s1, now)), ..s1 },
                    InputOutcome { forward: false, record: None, notify: Some(0) },
                ),
            }
        } else if armed && bound(keys.add_marker, data) {
            (s1, InputOutcome { forward: false, record: Some(Record::Marker(spec_elapsed(s1, now))), notify: Some(2) })
        } else if s1.record_input && s1.pause_time is None {
            (s1, InputOutcome { forward: true, record: Some(Record::Input(spec_elapsed(s1, now))), notify: None })
        } else {
            (s1, InputOutcome { forward: true, record: None, notify: None })
        }
    }
}

/// Whether a binding is set to exactly `key`.
fn is_bound(k: &Key, key: &[u8]) -> (r: bool)
    ensures
        r == bound(*k, key@),
{
    match k {
        Some(v) => crate::player::bytes_eq(v.as_slice(), key),
        None => false,
    }
}

/// The session's clock stays consistent: paused time never exceeds the
/// wall-clock time.
pub open spec fn clock_ok(s: SessionState, now: u64) -> bool {
    s.time_offset <= now && (s.pause_time matches Some(p) ==> s.time_offset + p <= now)
}

/// Handles typed input at wall-clock time `now`.
pub fn handle_input(s: &mut SessionState, keys: &KeyBindings, data: &[u8], now: u64) -> (r: InputOutcome)
    requires
        clock_ok(*old(s), now),
    ensures
        (*final(s), r) == spec_handle_input(*old(s), *keys, data@, now),
        clock_ok(*final(s), now),
{
    if !s.prefix_mode && is_bound(&keys.prefix, data) {
        s.prefix_mode = true;
        return InputOutcome { forward: false, record: None, notify: None };
    }
    let armed = s.prefix_mode || keys.prefix.is_none();
    if armed {
        s.prefix_mode = false;
    }
    if armed && is_bound(&keys.pause, data) {
        match s.pause_time {
            Some(pt) => {
                s.pause_time = None;
                let e = elapsed_time(s, now);
                s.time_offset = s.time_offset + (e - pt);
                return InputOutcome { forward: false, record: None, notify: Some(1) };
            },
            None => {
                s.pause_time = Some(elapsed_time(s, now));
                return InputOutcome { forward: false, record: None, notify: Some(0) };
            },
        }
    } else if armed && is_bound(&keys.add_marker, data) {
        let t = elapsed_time(s, now);
        return InputOutcome { forward: false, record: Some(Record::Marker(t)), notify: Some(2) };
    }
    if s.record_input && s.pause_time.is_none() {
        let t = elapsed_time(s, now);
        InputOutcome { forward: true, record: Some(Record::Input(t)), notify: None }
    } else {
        InputOutcome { forward: true, record: None, notify: None }
    }
}

/// Output is recorded, at the session clock, unless the session is paused.
pub fn handle_output(s: &SessionState, now: u64) -> (r: Option<Record>)
    requires
        clock_ok(*s, now),
    ensures
        s.pause_time is None ==> r == Some(Record::Output(spec_elapsed(*s, now))),
        s.pause_time is Some ==> r is None,
{
    if s.pause_time.is_none() {
        Some(Record::Output(elapsed_time(s, now)))
    } else {
        None
    }
}

/// A resize is recorded, at the session clock, when the size changed.
pub fn handle_resize(s: &mut SessionState, tty_size: TtySize, now: u64) -> (r: Option<Record>)
    requires
        clock_ok(*old(s), now),
    ensures
        tty_size != old(s).tty_size ==> r == Some(Record::Resize(spec_elapsed(*old(s), now), tty_size))
            && *final(s) == (SessionState { tty_size, ..*old(s) }),
        tty_size == old(s).tty_size ==> r is None && *final(s) == *old(s),
        clock_ok(*final(s), now),
{
    if tty_size != s.tty_size {
        let t = elapsed_time(s, now);
        s.tty_size = tty_size;
        Some(Record::Resize(t, tty_size))
    } else {
        None
    }
}

/// How the recorded process ended.
#[derive(Debug, Clone, Copy, PartialEq, Eq, Structural)]
pub enum ExitKind {
    /// It exited with this status.
    Exited(i32),
    /// A signal with this number ended it.
    Signaled(i32),
    /// Anything else.
    Other,
}

/// The session's exit status: the process's own, 128 plus the signal number
/// for a process ended by a signal, 1 otherwise.
pub fn exit_status(kind: ExitKind) -> (status: i32)
    requires
        kind matches ExitKind::Signaled(sig) ==> sig <= i32::MAX - 128,
    ensures
        status == match kind {
            ExitKind::Exited(s) => s as int,
            ExitKind::Signaled(sig) => 128 + sig,
            ExitKind::Other => 1,
        },
{
    match kind {
        ExitKind::Exited(s) => s,
        ExitKind::Signaled(sig) => 128 + sig,
        ExitKind::Other => 1,
    }
}

/// The session ends with an exit event at the session clock.
pub fn handle_exit(s: &SessionState, status: i32, now: u64) -> (r: Record)
    requires
        clock_ok(*s, now),
    ensures
        r == Record::Exit(spec_elapsed(*s, now), status),
{
    Record::Exit(elapsed_time(s, now), status)
}

/// Pausing and resuming leaves no gap: the clock at resume time reads what
/// it read when recording was paused.
pub proof fn lemma_resume_continues_clock(s: SessionState, keys: KeyBindings, data: Seq<u8>, now: u64)
    requires
        clock_ok(s, now),
        s.pause_time is Some,
        keys.prefix is None,
        bound(keys.pause, data),
    ensures
        ({
            let (s2, out) = spec_handle_input(s, keys, data, now);
            &&& s2.pause_time is None
            &&& out.notify == Some(1u8)
            &&& spec_elapsed(s2, now) == s.pause_time->0
        }),
{
}

/// An event of a session, with its time in microseconds.
#[derive(Debug, Clone, PartialEq, Eq)]
pub enum Event {
    Output(u64, String),
    Input(u64, String),
    Resize(u64, TtySize),
    Marker(u64, String),
    Exit(u64, i32),
}

/// The event of typed input decoded at `time`: none when the decoded text
/// is empty (an incomplete character waits for the next input).
pub fn input_event(time: u64, text: String) -> (r: Option<Event>)
    ensures
        text@.len() == 0 ==> r is None,
        text@.len() > 0 ==> r == Some(Event::Input(time, text)),
{
    if text.as_str().is_empty() {
        None
    } else {
        Some(Event::Input(time, text))
    }
}

/// The event of output decoded at `time`: none when the decoded text is
/// empty.
pub fn output_event(time: u64, text: String) -> (r: Option<Event>)
    ensures
        text@.len() == 0 ==> r is None,
        text@.len() > 0 ==> r == Some(Event::Output(time, text)),
{
    if text.as_str().is_empty() {
        None
    } else {
        Some(Event::Output(time, text))
    }
}

/// What is known of the terminal a session runs in.
pub struct TermInfo {
    pub type_: Option<String>,
    pub version: Option<String>,
    pub size: TtySize,
    pub theme: Option<crate::tty::TtyTheme>,
}

/// What is recorded about a session besides its events: when it began (in
/// seconds since the Unix epoch, when after it), the terminal, the idle
/// time limit in microseconds, the command, the title and the recorded
/// environment.
pub struct Metadata {
    pub timestamp: Option<u64>,
    pub term: TermInfo,
    pub idle_time_limit: Option<u64>,
    pub command: Option<String>,
    pub title: Option<String>,
    pub env: Vec<(String, String)>,
}

/// The recording event of a session event: the same time and data.
pub open spec fn spec_recording_event(event: Event) -> crate::asciicast::Event {
    match event {
        Event::Output(t, s) => crate::asciicast::Event {
            time: t,
            data: crate::asciicast::EventData::Output(s),
        },
        Event::Input(t, s) => crate::asciicast::Event {
            time: t,
            data: crate::asciicast::EventData::Input(s),
        },
        Event::Resize(t, size) => crate::asciicast::Event {
            time: t,
            data: crate::asciicast::EventData::Resize(size.0, size.1),
        },
        Event::Marker(t, s) => crate::asciicast::Event {
            time: t,
            data: crate::asciicast::EventData::Marker(s),
        },
        Event::Exit(t, st) => crate::asciicast::Event {
            time: t,
            data: crate::asciicast::EventData::Exit(st),
        },
    }
}

impl From<Event> for crate::asciicast::Event {
    fn from(event: Event) -> (r: Self) {
        match event {
            Event::Output(time, text) => crate::asciicast::Event::output(time, text),
            Event::Input(time, text) => crate::asciicast::Event::input(time, text),
            Event::Resize(time, tty_size) => crate::asciicast::Event::resize(
                time,
                (tty_size.0, tty_size.1),
            ),
            Event::Marker(time, label) => crate::asciicast::Event::marker(time, label),
            Event::Exit(time, status) => crate::asciicast::Event::exit(time, status),
        }
    }
}

impl vstd::std_specs::convert::FromSpecImpl<Event> for crate::asciicast::Event {
    open spec fn obeys_from_spec() -> bool {
        true
    }

    open spec fn from_spec(event: Event) -> Self {
        spec_recording_event(event)
    }
}

/// Typed input is recorded only while recording runs: an input event
/// comes only when input is recorded and the session is not paused, at the
/// session clock, and the input then goes on to the process; while paused,
/// no input is ever recorded.
pub proof fn lemma_input_recorded_only_while_live(
    s: SessionState,
    keys: KeyBindings,
    data: Seq<u8>,
    now: u64,
)
    requires
        clock_ok(s, now),
    ensures
        ({
            let (s2, out) = spec_handle_input(s, keys, data, now);
            &&& s.pause_time is Some ==> !(out.record matches Some(Record::Input(_)))
            &&& !s.record_input ==> !(out.record matches Some(Record::Input(_)))
            &&& out.record matches Some(Record::Input(t)) ==> out.forward && t == now
                - s.time_offset
            &&& out.forward && s.record_input && s.pause_time is None ==> out.record == Some(
                Record::Input((now - s.time_offset) as u64),
            )
        }),
{
}

/// Handling typed input never makes the session clock jump: whatever the
/// key does (pausing, resuming, a marker, plain input), the clock reads
/// the same just after as just before, and it stays consistent.
pub proof fn lemma_input_keeps_clock(s: SessionState, keys: KeyBindings, data: Seq<u8>, now: u64)
    requires
        clock_ok(s, now),
    ensures
        spec_elapsed(spec_handle_input(s, keys, data, now).0, now) == spec_elapsed(s, now),
        clock_ok(spec_handle_input(s, keys, data, now).0, now),
        spec_handle_input(s, keys, data, now).0.record_input == s.record_input,
        spec_handle_input(s, keys, data, now).0.tty_size == s.tty_size,
{
}

/// What the keys do when no prefix key is set: the pause key toggles the
/// pause and is not passed on; the marker key records a marker at the
/// session clock and is not passed on; any other input is passed on and
/// leaves the pause as it was.
pub proof fn lemma_keys_without_prefix(s: SessionState, keys: KeyBindings, data: Seq<u8>, now: u64)
    requires
        clock_ok(s, now),
        keys.prefix is None,
    ensures
        ({
            let (s2, out) = spec_handle_input(s, keys, data, now);
            &&& bound(keys.pause, data) ==> {
                &&& !out.forward
                &&& out.record is None
                &&& (s2.pause_time is Some <==> s.pause_time is None)
                &&& out.notify == if s.pause_time is None {
                    Some(0u8)
                } else {
                    Some(1u8)
                }
            }
            &&& !bound(keys.pause, data) && bound(keys.add_marker, data) ==> {
                &&& !out.forward
                &&& out.record == Some(Record::Marker(spec_elapsed(s, now)))
                &&& out.notify == Some(2u8)
                &&& s2.pause_time == s.pause_time
            }
            &&& !bound(keys.pause, data) && !bound(keys.add_marker, data) ==> {
                &&& out.forward
                &&& out.notify is None
                &&& s2.pause_time == s.pause_time
                &&& s2.time_offset == s.time_offset
            }
        }),
{
}

/// With a prefix key set, the prefix key itself is swallowed and arms the
/// next key; an unarmed key that is not the prefix is passed on, even when
/// it is the pause or marker key.
pub proof fn lemma_prefix_key(s: SessionState, keys: KeyBindings, data: Seq<u8>, now: u64)
    requires
        clock_ok(s, now),
        keys.prefix is Some,
        !s.prefix_mode,
    ensures
        ({
            let (s2, out) = spec_handle_input(s, keys, data, now);
            &&& bound(keys.prefix, data) ==> !out.forward && s2.prefix_mode && out.record is None
                && s2.pause_time == s.pause_time
            &&& !bound(keys.prefix, data) ==> out.forward && !s2.prefix_mode && out.notify is None
                && s2.pause_time == s.pause_time
        }),
{
}

/// The session clock runs with the wall clock while recording and stands
/// still while paused; it never reads more than the wall clock.
pub proof fn lemma_clock_runs_unless_paused(s: SessionState, now1: u64, now2: u64)
    requires
        clock_ok(s, now1),
        now1 <= now2,
    ensures
        clock_ok(s, now2),
        s.pause_time is None ==> spec_elapsed(s, now2) - spec_elapsed(s, now1) == now2 - now1,
        s.pause_time is Some ==> spec_elapsed(s, now2) == spec_elapsed(s, now1),
        spec_elapsed(s, now1) <= now1,
{
}

/// The session clock reads the wall-clock time less the time spent paused
/// so far, and while paused it reads the moment the pause began.
pub proof fn lemma_clock_reading(s: SessionState, now: u64)
    requires
        clock_ok(s, now),
    ensures
        s.pause_time is None ==> spec_elapsed(s, now) == now - s.time_offset,
        s.pause_time matches Some(p) ==> spec_elapsed(s, now) == p,
{
}

} // verus!

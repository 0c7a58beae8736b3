//! The asciicast recording format: its header, its events, and the
//! integer-time transformations applied to event streams.
use vstd::prelude::*;
use crate::tty::TtyTheme;

pub mod util;
pub mod v1;
pub mod v2;

verus! {

/// The version of an asciicast file.
#[derive(Debug, Copy, Clone, PartialEq, Eq, Structural)]
pub enum Version {
    One,
    Two,
    Three,
}

pub open spec fn version_number(v: Version) -> u8 {
    match v {
        Version::One => 1,
        Version::Two => 2,
        Version::Three => 3,
    }
}

impl Version {
    /// Whether this is version `n`.
    pub fn eq_u8(&self, n: u8) -> (r: bool)
        ensures
            r == (version_number(*self) == n),
    {
        match self {
            Version::One => n == 1,
            Version::Two => n == 2,
            Version::Three => n == 3,
        }
    }

    /// The version number as text.
    pub fn to_string(&self) -> (s: String)
        ensures
            s@ == seq![(0x30 + version_number(*self)) as char],
    {
        let c = crate::text::digit(version_number_of(*self) as u64);
        let v: Vec<char> = vec![c];
        crate::text::string_from_chars(v.as_slice())
    }
}

/// The number of a version.
pub fn version_number_of(v: Version) -> (n: u8)
    ensures
        n == version_number(v),
{
    match v {
        Version::One => 1,
        Version::Two => 2,
        Version::Three => 3,
    }
}

/// The metadata of a recording. The idle time limit is in microseconds and
/// the environment lists its variables as name-value pairs.
pub struct Header {
    pub term_cols: u16,
    pub term_rows: u16,
    pub term_type: Option<String>,
    pub term_version: Option<String>,
    pub term_theme: Option<TtyTheme>,
    pub timestamp: Option<u64>,
    pub idle_time_limit: Option<u64>,
    pub command: Option<String>,
    pub title: Option<String>,
    pub env: Option<Vec<(String, String)>>,
}

impl Default for Header {
    /// An 80x24 terminal and nothing else.
    fn default() -> (h: Self)
        ensures
            h.term_cols == 80,
            h.term_rows == 24,
            h.term_type is None,
            h.term_version is None,
            h.term_theme is None,
            h.timestamp is None,
            h.idle_time_limit is None,
            h.command is None,
            h.title is None,
            h.env is None,
    {
        Header {
            term_cols: 80,
            term_rows: 24,
            term_type: None,
            term_version: None,
            term_theme: None,
            timestamp: None,
            idle_time_limit: None,
            command: None,
            title: None,
            env: None,
        }
    }
}

/// A recorded event: its time in microseconds since the recording began,
/// and what happened.
pub struct Event {
    pub time: u64,
    pub data: EventData,
}

/// What a recorded event is.
pub enum EventData {
    /// Output printed to the terminal.
    Output(String),
    /// Input typed at the keyboard.
    Input(String),
    /// A change of the terminal size: columns, rows.
    Resize(u16, u16),
    /// A marker, with its label.
    Marker(String),
    /// The end of the session, with the exit status.
    Exit(i32),
    /// An event of another kind, with its code.
    Other(char, String),
}

impl Event {
    pub fn output(time: u64, text: String) -> (e: Self)
        ensures
            e.time == time,
            e.data == EventData::Output(text),
    {
        Event { time, data: EventData::Output(text) }
    }

    pub fn input(time: u64, text: String) -> (e: Self)
        ensures
            e.time == time,
            e.data == EventData::Input(text),
    {
        Event { time, data: EventData::Input(text) }
    }

    pub fn resize(time: u64, size: (u16, u16)) -> (e: Self)
        ensures
            e.time == time,
            e.data == EventData::Resize(size.0, size.1),
    {
        Event { time, data: EventData::Resize(size.0, size.1) }
    }

    pub fn marker(time: u64, label: String) -> (e: Self)
        ensures
            e.time == time,
            e.data == EventData::Marker(label),
    {
        Event { time, data: EventData::Marker(label) }
    }

    pub fn exit(time: u64, status: i32) -> (e: Self)
        ensures
            e.time == time,
            e.data == EventData::Exit(status),
    {
        Event { time, data: EventData::Exit(status) }
    }
}

/// The duration of a recording: the time of its last event, or 0 when it
/// has none.
pub fn get_duration(events: &Vec<Event>) -> (d: u64)
    ensures
        events@.len() == 0 ==> d == 0,
        events@.len() > 0 ==> d == events@.last().time,
{
    if events.len() == 0 {
        0
    } else {
        events[events.len() - 1].time
    }
}

/// Whether the event times never decrease.
pub open spec fn times_sorted(events: Seq<Event>) -> bool {
    forall|i: int, j: int| 0 <= i <= j < events.len() ==> events[i].time <= events[j].time
}

/// How much earlier the event at index `k` is shown when every pause
/// longer than `limit` is cut down to `limit`: the sum of the excess of each
/// gap before it.
pub open spec fn idle_cut(events: Seq<Event>, limit: u64, k: int) -> int
    decreases k,
{
    if k <= 0 || k > events.len() {
        0
    } else {
        let prev = if k == 1 {
            0
        } else {
            events[k - 2].time as int
        };
        let gap = events[k - 1].time - prev;
        idle_cut(events, limit, k - 1) + if gap > limit {
            gap - limit
        } else {
            0
        }
    }
}

/// Shortens each pause between events (and before the first one) that is
/// longer than `limit` microseconds to `limit`; the events are otherwise
/// kept as they are. Times must not decrease.
pub fn limit_idle_time(events: Vec<Event>, limit: u64) -> (r: Vec<Event>)
    requires
        times_sorted(events@),
    ensures
        r@.len() == events@.len(),
        forall|k: int|
            0 <= k < events@.len() ==> (#[trigger] r@[k]).time == events@[k].time - idle_cut(
                events@,
                limit,
                k + 1,
            ) && r@[k].data == events@[k].data,
{
    let ghost orig = events@;
    let n = events.len();
    let mut rev = crate::util::reversed(events);
    let mut out: Vec<Event> = Vec::new();
    let mut prev_time: u64 = 0;
    let mut offset: u64 = 0;
    let mut k: usize = 0;
    while rev.len() > 0
        invariant
            n == orig.len(),
            times_sorted(orig),
            k + rev@.len() == n,
            forall|j: int| 0 <= j < rev@.len() ==> rev@[j] == orig[n - 1 - j],
            out@.len() == k,
            prev_time == (if k == 0 {
                0
            } else {
                orig[k - 1].time
            }),
            offset == idle_cut(orig, limit, k as int),
            offset <= prev_time,
            forall|j: int|
                0 <= j < k ==> (#[trigger] out@[j]).time == orig[j].time - idle_cut(
                    orig,
                    limit,
                    j + 1,
                ) && out@[j].data == orig[j].data,
        decreases rev@.len(),
    {
        let e = rev.pop().unwrap();
        assert(e == orig[k as int]);
        assert(k > 0 ==> orig[k - 1].time <= orig[k as int].time);
        let delay = e.time - prev_time;
        if delay > limit {
            offset = offset + (delay - limit);
        }
        prev_time = e.time;
        let time = e.time - offset;
        out.push(Event { time, data: e.data });
        k = k + 1;
    }
    out
}

/// After idle time limiting, each pause (the gap to the previous event, or
/// to the start for the first) is the recorded pause, capped at the limit.
pub proof fn lemma_limit_idle_time_gaps(events: Seq<Event>, limit: u64, k: int)
    requires
        times_sorted(events),
        0 <= k < events.len(),
    ensures
        ({
            let prev = if k == 0 {
                0
            } else {
                events[k - 1].time - idle_cut(events, limit, k)
            };
            let gap = events[k].time - if k == 0 {
                0
            } else {
                events[k - 1].time as int
            };
            (events[k].time - idle_cut(events, limit, k + 1)) - prev == if gap > limit {
                limit as int
            } else {
                gap
            }
        }),
{
    let gap = events[k].time - if k == 0 {
        0
    } else {
        events[k - 1].time as int
    };
    if k > 0 {
        assert(events[k - 1].time <= events[k].time);
    }
    assert(idle_cut(events, limit, k + 1) == idle_cut(events, limit, k) + if gap > limit {
        gap - limit
    } else {
        0
    });
    if k == 0 {
        assert(idle_cut(events, limit, 0) == 0);
    }
}

/// The value of the first variable of `env` named `name`.
pub open spec fn env_lookup(env: Seq<(String, String)>, name: Seq<char>) -> Option<String>
    decreases env.len(),
{
    if env.len() == 0 {
        None
    } else if env[0].0@ == name {
        Some(env[0].1)
    } else {
        env_lookup(env.drop_first(), name)
    }
}

/// The value of the variable `name` in a recorded environment, as the
/// header's terminal type is taken from `TERM`.
pub fn env_var(env: &Vec<(String, String)>, name: &str) -> (r: Option<String>)
    ensures
        r == env_lookup(env@, name@),
{
    let mut i: usize = 0;
    assert(env@.skip(0) =~= env@);
    while i < env.len()
        invariant
            i <= env.len(),
            env_lookup(env@.skip(i as int), name@) == env_lookup(env@, name@),
        decreases env.len() - i,
    {
        assert(env@.skip(i as int).drop_first() =~= env@.skip(i + 1));
        if crate::text::str_eq(env[i].0.as_str(), name) {
            return Some(env[i].1.clone());
        }
        i = i + 1;
    }
    None
}

/// The variables of an environment that have a value, in order.
pub open spec fn set_vars(vars: Seq<(String, Option<String>)>) -> Seq<(String, String)>
    decreases vars.len(),
{
    if vars.len() == 0 {
        Seq::empty()
    } else {
        let rest = set_vars(vars.drop_last());
        match vars.last().1 {
            Some(v) => rest.push((vars.last().0, v)),
            None => rest,
        }
    }
}

/// The environment of a version 1 recording without its unset variables.
pub fn set_env_vars(vars: &Vec<(String, Option<String>)>) -> (r: Vec<(String, String)>)
    ensures
        r@ == set_vars(vars@),
{
    let mut r: Vec<(String, String)> = Vec::new();
    let mut i: usize = 0;
    while i < vars.len()
        invariant
            i <= vars.len(),
            r@ == set_vars(vars@.take(i as int)),
        decreases vars.len() - i,
    {
        assert(vars@.take(i + 1).drop_last() =~= vars@.take(i as int));
        match &vars[i].1 {
            Some(v) => {
                r.push((vars[i].0.clone(), v.clone()));
            },
            None => {},
        }
        i = i + 1;
    }
    assert(vars@.take(i as int) =~= vars@);
    r
}

} // verus!

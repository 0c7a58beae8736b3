//! Events of a streamed session.
use vstd::prelude::*;
use crate::tty::{TtySize, TtyTheme};

verus! {

/// A session event with its time in microseconds since the session began.
pub enum Event {
    /// The start of a stream: time, terminal size, theme and the terminal
    /// contents so far.
    Init(u64, TtySize, Option<TtyTheme>, String),
    /// Output printed to the terminal.
    Output(u64, String),
    /// Input typed at the keyboard.
    Input(u64, String),
    /// A change of the terminal size.
    Resize(u64, TtySize),
    /// A marker, with its label.
    Marker(u64, String),
}

/// The time of an event.
pub open spec fn event_time(event: Event) -> u64 {
    match event {
        Event::Init(time, _, _, _) => time,
        Event::Output(time, _) => time,
        Event::Input(time, _) => time,
        Event::Resize(time, _) => time,
        Event::Marker(time, _) => time,
    }
}

} // verus!

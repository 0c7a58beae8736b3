//! Events of a live session, as they are broadcast to stream subscribers.
use vstd::prelude::*;
use crate::tty::{TtySize, TtyTheme};
use crate::frames::{fresh, Vt, VtInput};
use crate::player::vt::{vt_dump, vt_dump_of, PLAYER_SCROLLBACK};
use crate::session;

verus! {

/// A session event with its id and its time in microseconds since the
/// session began.
pub enum Event {
    /// The start of a stream: the last event id, time, terminal size, theme
    /// and the terminal contents so far.
    Init(u64, u64, TtySize, Option<TtyTheme>, String),
    /// Output printed to the terminal.
    Output(u64, u64, String),
    /// Input typed at the keyboard.
    Input(u64, u64, String),
    /// A change of the terminal size.
    Resize(u64, u64, TtySize),
    /// A marker, with its label.
    Marker(u64, u64, String),
    /// The end of the session, with the exit status.
    Exit(u64, u64, i32),
}

} // verus!

verus! {

/// The state of a live stream: the virtual terminal that follows the
/// session (so a new subscriber can be shown the screen), its size, the id
/// of the last event and the session time of the last event.
pub struct StreamState {
    vt: Vt,
    size: TtySize,
    last_event_id: u64,
    stream_time: u64,
}

/// A dimension as the terminal keeps it: at least 1.
pub open spec fn clamp_one(n: u16) -> u16 {
    if n == 0 {
        1
    } else {
        n
    }
}

/// What a session event gives the stream's terminal: output is
/// interpreted, a resize changes its size; the rest gives nothing.
pub open spec fn session_event_inputs(e: session::Event) -> Seq<VtInput> {
    match e {
        session::Event::Output(_, text) => seq![VtInput::Text(text@)],
        session::Event::Resize(_, size) => seq![VtInput::Size(size.0 as usize, size.1 as usize)],
        _ => Seq::empty(),
    }
}

/// The time of a session event.
pub open spec fn session_event_time(e: session::Event) -> u64 {
    match e {
        session::Event::Output(t, _) => t,
        session::Event::Input(t, _) => t,
        session::Event::Resize(t, _) => t,
        session::Event::Marker(t, _) => t,
        session::Event::Exit(t, _) => t,
    }
}

/// The stream event of a session event, numbered `id`: the same time and
/// data.
pub open spec fn spec_stream_event(e: session::Event, id: u64) -> Event {
    match e {
        session::Event::Output(t, s) => Event::Output(id, t, s),
        session::Event::Input(t, s) => Event::Input(id, t, s),
        session::Event::Resize(t, size) => Event::Resize(id, t, size),
        session::Event::Marker(t, s) => Event::Marker(id, t, s),
        session::Event::Exit(t, status) => Event::Exit(id, t, status),
    }
}

impl StreamState {
    /// The id of the last event, 0 before any.
    pub closed spec fn last_event_id(&self) -> u64 {
        self.last_event_id
    }

    /// The session time of the last event, in microseconds.
    pub closed spec fn stream_time(&self) -> u64 {
        self.stream_time
    }

    /// The terminal's size.
    pub closed spec fn size(&self) -> TtySize {
        self.size
    }

    /// The terminal: the size it was made with, its scrollback limit and
    /// what it was given since.
    pub closed spec fn terminal(&self) -> (usize, usize, Option<usize>, Seq<VtInput>) {
        self.vt@
    }

    /// A stream of a session whose terminal is `tty_size`, before any event.
    pub fn new(tty_size: TtySize) -> (s: Self)
        requires
            tty_size.0 >= 1,
            tty_size.1 >= 1,
        ensures
            s.last_event_id() == 0,
            s.stream_time() == 0,
            s.size() == tty_size,
            s.terminal() == fresh(tty_size.0 as usize, tty_size.1 as usize, Some(PLAYER_SCROLLBACK)),
    {
        StreamState {
            vt: Vt::new(tty_size.0 as usize, tty_size.1 as usize, Some(PLAYER_SCROLLBACK)),
            size: tty_size,
            last_event_id: 0,
            stream_time: 0,
        }
    }

    /// Takes a session event: numbers it with the next id, moves the stream
    /// time to it, gives it to the terminal, and returns the stream event
    /// to broadcast.
    pub fn on_session_event(&mut self, e: session::Event) -> (out: Event)
        requires
            old(self).last_event_id() < u64::MAX,
        ensures
            final(self).last_event_id() == old(self).last_event_id() + 1,
            final(self).stream_time() == session_event_time(e),
            final(self).size() == match e {
                session::Event::Resize(_, size) => TtySize(clamp_one(size.0), clamp_one(size.1)),
                _ => old(self).size(),
            },
            final(self).terminal() == (
                old(self).terminal().0,
                old(self).terminal().1,
                old(self).terminal().2,
                old(self).terminal().3 + session_event_inputs(e),
            ),
            out == spec_stream_event(e, (old(self).last_event_id() + 1) as u64),
    {
        let id = self.last_event_id + 1;
        self.last_event_id = id;
        let ghost before = self.vt@;
        match e {
            session::Event::Output(time, text) => {
                self.vt.feed(text.as_str());
                assert(before.3.push(VtInput::Text(text@)) =~= before.3 + seq![VtInput::Text(text@)]);
                self.stream_time = time;
                Event::Output(id, time, text)
            },
            session::Event::Input(time, text) => {
                assert(before.3 =~= before.3 + Seq::<VtInput>::empty());
                self.stream_time = time;
                Event::Input(id, time, text)
            },
            session::Event::Resize(time, size) => {
                self.vt.resize(size.0 as usize, size.1 as usize);
                assert(before.3.push(VtInput::Size(size.0 as usize, size.1 as usize)) =~= before.3
                    + seq![VtInput::Size(size.0 as usize, size.1 as usize)]);
                let c = if size.0 == 0 {
                    1
                } else {
                    size.0
                };
                let r = if size.1 == 0 {
                    1
                } else {
                    size.1
                };
                self.size = TtySize(c, r);
                self.stream_time = time;
                Event::Resize(id, time, size)
            },
            session::Event::Marker(time, label) => {
                assert(before.3 =~= before.3 + Seq::<VtInput>::empty());
                self.stream_time = time;
                Event::Marker(id, time, label)
            },
            session::Event::Exit(time, status) => {
                assert(before.3 =~= before.3 + Seq::<VtInput>::empty());
                self.stream_time = time;
                Event::Exit(id, time, status)
            },
        }
    }

    /// The event a new subscriber starts with: the last event id, the
    /// stream time (plus `since_last`, the microseconds since the last
    /// event, once there was one), the terminal size, the theme and the
    /// text that draws the terminal (empty before any event).
    pub fn init_event(&self, since_last: u64, theme: Option<TtyTheme>) -> (e: Event)
        requires
            self.last_event_id() > 0 ==> self.stream_time() + since_last <= u64::MAX,
        ensures
            e matches Event::Init(id, time, size, th, text) && {
                &&& id == self.last_event_id()
                &&& time == if self.last_event_id() > 0 {
                    (self.stream_time() + since_last) as u64
                } else {
                    self.stream_time()
                }
                &&& size == self.size()
                &&& th == theme
                &&& text@ == if self.last_event_id() > 0 {
                    vt_dump_of(self.terminal())
                } else {
                    Seq::<char>::empty()
                }
            },
    {
        if self.last_event_id > 0 {
            Event::Init(
                self.last_event_id,
                self.stream_time + since_last,
                self.size,
                theme,
                vt_dump(&self.vt),
            )
        } else {
            Event::Init(self.last_event_id, self.stream_time, self.size, theme, String::new())
        }
    }
}

} // verus!

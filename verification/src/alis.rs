//! The ALiS (asciinema live stream) protocol: the binary messages, carried in
//! WebSocket frames, that asciinema sends to stream viewers and relays.
//!
//! Each message starts with a type byte; integers are unsigned LEB128;
//! strings are a LEB128 byte length followed by UTF-8 bytes; event times are
//! relative to the previous event, in microseconds.
use vstd::prelude::*;
use vstd::utf8::encode_utf8;
use crate::leb128::{encode, read_lebs, spec_encode};
use crate::stream::Event;
use crate::tty::{RGB8, TtyTheme};
use crate::util::{append_bytes, reversed};

verus! {

/// The bytes that open every stream: `ALiS` and the protocol version 1.
pub open spec fn magic() -> Seq<u8> {
    seq![0x41u8, 0x4c, 0x69, 0x53, 0x01]
}

/// The LEB128 encoding of an integer.
pub open spec fn leb(v: u64) -> Seq<u8> {
    spec_encode(v as nat)
}

/// The later of two times.
pub open spec fn later(a: u64, b: u64) -> u64 {
    if a >= b {
        a
    } else {
        b
    }
}

pub open spec fn rgb_bytes(c: RGB8) -> Seq<u8> {
    seq![c.r, c.g, c.b]
}

/// The palette colors, three bytes each.
pub open spec fn palette_bytes(p: Seq<RGB8>) -> Seq<u8>
    decreases p.len(),
{
    if p.len() == 0 {
        seq![]
    } else {
        palette_bytes(p.drop_last()) + rgb_bytes(p.last())
    }
}

/// The theme part of an init message: 0 when there is none, else 16, the
/// foreground, the background and the palette colors.
pub open spec fn theme_bytes(theme: Option<TtyTheme>) -> Seq<u8> {
    match theme {
        None => seq![0u8],
        Some(t) => seq![16u8] + rgb_bytes(t.fg) + rgb_bytes(t.bg) + palette_bytes(t.palette@),
    }
}

/// A string: its UTF-8 length (taken modulo 2^32) in LEB128, then its
/// UTF-8 bytes.
pub open spec fn text_bytes(s: Seq<char>) -> Seq<u8> {
    spec_encode((encode_utf8(s).len() as u32) as nat) + encode_utf8(s)
}

/// The exit status as sent: negative statuses become 0.
pub open spec fn status_value(status: i32) -> u64 {
    if status < 0 {
        0
    } else {
        status as u64
    }
}

/// The message for `event` when the previous event was at `prev`, and the
/// time that the next event is measured from. An init message carries its
/// absolute time and restarts the clock; every other message carries the
/// time since the previous event, 0 for an event that is not later than it,
/// and the clock never goes back.
pub open spec fn spec_message(prev: u64, event: Event) -> (Seq<u8>, u64) {
    match event {
        Event::Init(last_id, time, size, theme, init) => (
            seq![0x01u8] + leb(last_id) + leb(time) + leb(size.0 as u64) + leb(size.1 as u64)
                + theme_bytes(theme) + text_bytes(init@),
            time,
        ),
        Event::Output(id, time, text) => (
            seq![0x6fu8] + leb(id) + leb((later(time, prev) - prev) as u64) + text_bytes(text@),
            later(time, prev),
        ),
        Event::Input(id, time, text) => (
            seq![0x69u8] + leb(id) + leb((later(time, prev) - prev) as u64) + text_bytes(text@),
            later(time, prev),
        ),
        Event::Resize(id, time, size) => (
            seq![0x72u8] + leb(id) + leb((later(time, prev) - prev) as u64) + leb(size.0 as u64)
                + leb(size.1 as u64),
            later(time, prev),
        ),
        Event::Marker(id, time, text) => (
            seq![0x6du8] + leb(id) + leb((later(time, prev) - prev) as u64) + text_bytes(text@),
            later(time, prev),
        ),
        Event::Exit(id, time, status) => (
            seq![0x78u8] + leb(id) + leb((later(time, prev) - prev) as u64) + leb(
                status_value(status),
            ),
            later(time, prev),
        ),
    }
}

/// The clock after serializing `events`, starting from `t0`.
pub open spec fn clock_after(t0: u64, events: Seq<Event>) -> u64
    decreases events.len(),
{
    if events.len() == 0 {
        t0
    } else {
        spec_message(clock_after(t0, events.drop_last()), events.last()).1
    }
}

/// The time of an event.
pub open spec fn event_time(event: Event) -> u64 {
    match event {
        Event::Init(_, time, _, _, _) => time,
        Event::Output(_, time, _) => time,
        Event::Input(_, time, _) => time,
        Event::Resize(_, time, _) => time,
        Event::Marker(_, time, _) => time,
        Event::Exit(_, time, _) => time,
    }
}

/// Between init messages the stream's clock is the latest time seen: it is
/// the start time or the time of one of the events, and no earlier than any
/// of them. So relative times are never negative and a receiver that adds
/// them up follows the latest event time.
pub proof fn lemma_clock_is_latest_time(t0: u64, events: Seq<Event>)
    requires
        forall|k: int| 0 <= k < events.len() ==> !(#[trigger] events[k] is Init),
    ensures
        clock_after(t0, events) >= t0,
        forall|k: int|
            0 <= k < events.len() ==> clock_after(t0, events) >= event_time(#[trigger] events[k]),
        clock_after(t0, events) == t0 || exists|k: int|
            0 <= k < events.len() && clock_after(t0, events) == event_time(#[trigger] events[k]),
    decreases events.len(),
{
    if events.len() > 0 {
        let init = events.drop_last();
        assert forall|k: int| 0 <= k < init.len() implies !(#[trigger] init[k] is Init) by {
            assert(init[k] == events[k]);
        }
        lemma_clock_is_latest_time(t0, init);
        let prev = clock_after(t0, init);
        let last = events.last();
        assert(!(events[events.len() - 1] is Init));
        assert forall|k: int|
            0 <= k < events.len() implies clock_after(t0, events) >= event_time(
            #[trigger] events[k],
        ) by {
            if k < events.len() - 1 {
                assert(init[k] == events[k]);
            }
        }
        if clock_after(t0, events) != t0 {
            if clock_after(t0, events) == prev {
                if prev != t0 {
                    let j = choose|j: int|
                        0 <= j < init.len() && prev == event_time(#[trigger] init[j]);
                    assert(init[j] == events[j]);
                }
            } else {
                assert(clock_after(t0, events) == event_time(events[events.len() - 1]));
            }
        }
    }
}

/// Appends the LEB128 encoding of `v`.
pub(crate) fn push_leb(msg: &mut Vec<u8>, v: u64)
    ensures
        final(msg)@ == old(msg)@ + leb(v),
{
    let bytes = encode(v);
    append_bytes(msg, bytes.as_slice());
}

/// Appends a length-prefixed string.
pub(crate) fn push_text(msg: &mut Vec<u8>, text: &str)
    ensures
        final(msg)@ == old(msg)@ + text_bytes(text@),
{
    let bytes = text.as_bytes();
    let len = bytes.len() as u32;
    push_leb(msg, len as u64);
    append_bytes(msg, bytes);
}

/// Appends an RGB color.
fn push_rgb(msg: &mut Vec<u8>, c: RGB8)
    ensures
        final(msg)@ == old(msg)@ + rgb_bytes(c),
{
    msg.push(c.r);
    msg.push(c.g);
    msg.push(c.b);
    assert(msg@ =~= old(msg)@ + rgb_bytes(c));
}

/// Appends the theme part of an init message.
pub(crate) fn push_theme(msg: &mut Vec<u8>, theme: &Option<TtyTheme>)
    ensures
        final(msg)@ == old(msg)@ + theme_bytes(*theme),
{
    match theme {
        Some(theme) => {
            msg.push(16);
            push_rgb(msg, theme.fg);
            push_rgb(msg, theme.bg);
            let ghost base = msg@;
            let mut k: usize = 0;
            while k < theme.palette.len()
                invariant
                    k <= theme.palette@.len(),
                    msg@ == base + palette_bytes(theme.palette@.take(k as int)),
                decreases theme.palette@.len() - k,
            {
                assert(theme.palette@.take(k + 1).drop_last() =~= theme.palette@.take(k as int));
                push_rgb(msg, theme.palette[k]);
                k = k + 1;
                assert(msg@ =~= base + palette_bytes(theme.palette@.take(k as int)));
            }
            assert(theme.palette@.take(k as int) =~= theme.palette@);
            assert(msg@ =~= old(msg)@ + theme_bytes(Some(*theme)));
        },
        None => {
            msg.push(0);
            assert(msg@ =~= old(msg)@ + theme_bytes(None));
        },
    }
}

/// The state of a stream's serializer: the time of the previous event, in
/// microseconds.
pub struct EventSerializer(pub u64);

impl EventSerializer {
    /// The message for `event`; advances the clock.
    pub fn serialize_event(&mut self, event: Event) -> (msg: Vec<u8>)
        ensures
            (msg@, final(self).0) == spec_message(old(self).0, event),
    {
        match event {
            Event::Init(last_id, time, size, theme, init) => {
                let mut msg: Vec<u8> = vec![0x01];
                push_leb(&mut msg, last_id);
                push_leb(&mut msg, time);
                push_leb(&mut msg, size.0 as u64);
                push_leb(&mut msg, size.1 as u64);
                push_theme(&mut msg, &theme);
                push_text(&mut msg, init.as_str());
                self.0 = time;
                assert(msg@ =~= spec_message(old(self).0, event).0);
                msg
            },
            Event::Output(id, time, text) => {
                let rel = self.rel_time(time);
                let mut msg: Vec<u8> = vec![0x6f];
                push_leb(&mut msg, id);
                push_leb(&mut msg, rel);
                push_text(&mut msg, text.as_str());
                assert(msg@ =~= spec_message(old(self).0, event).0);
                msg
            },
            Event::Input(id, time, text) => {
                let rel = self.rel_time(time);
                let mut msg: Vec<u8> = vec![0x69];
                push_leb(&mut msg, id);
                push_leb(&mut msg, rel);
                push_text(&mut msg, text.as_str());
                assert(msg@ =~= spec_message(old(self).0, event).0);
                msg
            },
            Event::Resize(id, time, size) => {
                let rel = self.rel_time(time);
                let mut msg: Vec<u8> = vec![0x72];
                push_leb(&mut msg, id);
                push_leb(&mut msg, rel);
                push_leb(&mut msg, size.0 as u64);
                push_leb(&mut msg, size.1 as u64);
                assert(msg@ =~= spec_message(old(self).0, event).0);
                msg
            },
            Event::Marker(id, time, text) => {
                let rel = self.rel_time(time);
                let mut msg: Vec<u8> = vec![0x6d];
                push_leb(&mut msg, id);
                push_leb(&mut msg, rel);
                push_text(&mut msg, text.as_str());
                assert(msg@ =~= spec_message(old(self).0, event).0);
                msg
            },
            Event::Exit(id, time, status) => {
                let rel = self.rel_time(time);
                let mut msg: Vec<u8> = vec![0x78];
                push_leb(&mut msg, id);
                push_leb(&mut msg, rel);
                let status_u: u64 = if status < 0 {
                    0
                } else {
                    status as u64
                };
                push_leb(&mut msg, status_u);
                assert(msg@ =~= spec_message(old(self).0, event).0);
                msg
            },
        }
    }

    /// The time since the previous event, 0 for an event that is not later
    /// than it; the clock moves to the later of the two.
    pub fn rel_time(&mut self, time: u64) -> (rel: u64)
        ensures
            final(self).0 == later(time, old(self).0),
            rel == final(self).0 - old(self).0,
    {
        let time = if time >= self.0 {
            time
        } else {
            self.0
        };
        let rel = time - self.0;
        self.0 = time;
        rel
    }
}

/// The messages of a stream of `events`: the magic string, then each event
/// serialized in turn, the clock starting at 0.
pub fn stream(events: Vec<Event>) -> (msgs: Vec<Vec<u8>>)
    ensures
        msgs@.len() == events@.len() + 1,
        msgs@[0]@ == magic(),
        forall|k: int|
            0 <= k < events@.len() ==> #[trigger] msgs@[k + 1]@ == spec_message(
                clock_after(0, events@.take(k)),
                events@[k],
            ).0,
{
    let ghost evs = events@;
    let n = events.len();
    let mut msgs: Vec<Vec<u8>> = Vec::new();
    msgs.push(vec![0x41u8, 0x4c, 0x69, 0x53, 0x01]);
    assert(msgs@[0]@ =~= magic());
    let mut serializer = EventSerializer(0);
    let mut events = reversed(events);
    let ghost rev = events@;
    let mut k: usize = 0;
    assert(evs.take(0) =~= Seq::<Event>::empty());
    while events.len() > 0
        invariant
            n == evs.len(),
            rev.len() == evs.len(),
            forall|j: int| 0 <= j < evs.len() ==> rev[j] == evs[evs.len() - 1 - j],
            k + events@.len() == evs.len(),
            events@ == rev.take(evs.len() - k),
            serializer.0 == clock_after(0, evs.take(k as int)),
            msgs@.len() == k + 1,
            msgs@[0]@ == magic(),
            forall|j: int|
                0 <= j < k ==> #[trigger] msgs@[j + 1]@ == spec_message(
                    clock_after(0, evs.take(j)),
                    evs[j],
                ).0,
        decreases events@.len(),
    {
        let event = events.pop().unwrap();
        assert(event == evs[k as int]);
        assert(evs.take(k + 1).drop_last() =~= evs.take(k as int));
        let msg = serializer.serialize_event(event);
        msgs.push(msg);
        k = k + 1;
        assert(events@ =~= rev.take(evs.len() - k));
    }
    msgs
}

/// Every message reads back as the event it was made from: its type byte
/// names the kind of event, and the LEB128 numbers after it are, in order,
/// the event id (the last id for an init), the time (absolute for an init,
/// else since the previous event, never negative), then the size (columns
/// first), the exit status, or the length of the text, whose UTF-8 bytes
/// end the message.
#[verifier::rlimit(60)]
#[verifier::spinoff_prover]
pub proof fn lemma_messages_read_back(prev: u64, event: Event)
    ensures
        ({
            let m = spec_message(prev, event).0;
            let rel = (later(event_time(event), prev) - prev) as nat;
            &&& m.len() >= 1
            &&& match event {
                Event::Init(last_id, time, size, theme, init) => m[0] == 0x01 && read_lebs(
                    m.skip(1),
                    4,
                ) == Some(
                    (
                        seq![last_id as nat, time as nat, size.0 as nat, size.1 as nat],
                        theme_bytes(theme) + text_bytes(init@),
                    ),
                ),
                Event::Output(id, _, text) => m[0] == 0x6f && read_lebs(m.skip(1), 3) == Some(
                    (
                        seq![id as nat, rel, (encode_utf8(text@).len() as u32) as nat],
                        encode_utf8(text@),
                    ),
                ),
                Event::Input(id, _, text) => m[0] == 0x69 && read_lebs(m.skip(1), 3) == Some(
                    (
                        seq![id as nat, rel, (encode_utf8(text@).len() as u32) as nat],
                        encode_utf8(text@),
                    ),
                ),
                Event::Resize(id, _, size) => m[0] == 0x72 && read_lebs(m.skip(1), 4) == Some(
                    (seq![id as nat, rel, size.0 as nat, size.1 as nat], Seq::<u8>::empty()),
                ),
                Event::Marker(id, _, text) => m[0] == 0x6d && read_lebs(m.skip(1), 3) == Some(
                    (
                        seq![id as nat, rel, (encode_utf8(text@).len() as u32) as nat],
                        encode_utf8(text@),
                    ),
                ),
                Event::Exit(id, _, status) => m[0] == 0x78 && read_lebs(m.skip(1), 3) == Some(
                    (seq![id as nat, rel, status_value(status) as nat], Seq::<u8>::empty()),
                ),
            }
        }),
{
    let m = spec_message(prev, event).0;
    let rel = (later(event_time(event), prev) - prev) as nat;
    match event {
        Event::Init(last_id, time, size, theme, init) => {
            let vs = seq![last_id as nat, time as nat, size.0 as nat, size.1 as nat];
            let rest = theme_bytes(theme) + text_bytes(init@);
            crate::leb128::lemma_encodings4(vs[0], vs[1], vs[2], vs[3]);
            assert(m.skip(1) =~= crate::leb128::encodings(vs) + rest);
            crate::leb128::lemma_read_lebs_in_a_row(vs, rest);
        },
        Event::Output(id, _, text) => {
            let vs = seq![id as nat, rel, (encode_utf8(text@).len() as u32) as nat];
            crate::leb128::lemma_encodings3(vs[0], vs[1], vs[2]);
            assert(m.skip(1) =~= crate::leb128::encodings(vs) + encode_utf8(text@));
            crate::leb128::lemma_read_lebs_in_a_row(vs, encode_utf8(text@));
        },
        Event::Input(id, _, text) => {
            let vs = seq![id as nat, rel, (encode_utf8(text@).len() as u32) as nat];
            crate::leb128::lemma_encodings3(vs[0], vs[1], vs[2]);
            assert(m.skip(1) =~= crate::leb128::encodings(vs) + encode_utf8(text@));
            crate::leb128::lemma_read_lebs_in_a_row(vs, encode_utf8(text@));
        },
        Event::Resize(id, _, size) => {
            let vs = seq![id as nat, rel, size.0 as nat, size.1 as nat];
            crate::leb128::lemma_encodings4(vs[0], vs[1], vs[2], vs[3]);
            assert(m.skip(1) =~= crate::leb128::encodings(vs) + Seq::<u8>::empty());
            crate::leb128::lemma_read_lebs_in_a_row(vs, Seq::<u8>::empty());
        },
        Event::Marker(id, _, text) => {
            let vs = seq![id as nat, rel, (encode_utf8(text@).len() as u32) as nat];
            crate::leb128::lemma_encodings3(vs[0], vs[1], vs[2]);
            assert(m.skip(1) =~= crate::leb128::encodings(vs) + encode_utf8(text@));
            crate::leb128::lemma_read_lebs_in_a_row(vs, encode_utf8(text@));
        },
        Event::Exit(id, _, status) => {
            let vs = seq![id as nat, rel, status_value(status) as nat];
            crate::leb128::lemma_encodings3(vs[0], vs[1], vs[2]);
            assert(m.skip(1) =~= crate::leb128::encodings(vs) + Seq::<u8>::empty());
            crate::leb128::lemma_read_lebs_in_a_row(vs, Seq::<u8>::empty());
        },
    }
}

} // verus!

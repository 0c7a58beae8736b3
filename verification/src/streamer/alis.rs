//! The ALiS messages of the streaming server, whose events carry no ids.
use vstd::prelude::*;
use crate::alis::{leb, push_leb, push_text, push_theme, text_bytes, theme_bytes};
use crate::leb128::{encodings, lemma_encodings3, lemma_encodings4, lemma_read_lebs_in_a_row, read_lebs};
use vstd::utf8::encode_utf8;
use crate::streamer::session::{event_time, Event};

verus! {

/// The message for `event` when the previous event was at `prev`, and the
/// event's time. An init message carries its absolute time, the others the
/// time since the previous event.
pub open spec fn spec_serialize_event(event: Event, prev: u64) -> (Seq<u8>, u64) {
    match event {
        Event::Init(time, size, theme, init) => (
            seq![0x01u8] + leb(time) + leb(size.0 as u64) + leb(size.1 as u64) + theme_bytes(theme)
                + text_bytes(init@),
            time,
        ),
        Event::Output(time, text) => (
            seq![0x6fu8] + leb((time - prev) as u64) + text_bytes(text@),
            time,
        ),
        Event::Input(time, text) => (
            seq![0x69u8] + leb((time - prev) as u64) + text_bytes(text@),
            time,
        ),
        Event::Resize(time, size) => (
            seq![0x72u8] + leb((time - prev) as u64) + leb(size.0 as u64) + leb(size.1 as u64),
            time,
        ),
        Event::Marker(time, text) => (
            seq![0x6du8] + leb((time - prev) as u64) + text_bytes(text@),
            time,
        ),
    }
}

/// The message for `event`, the previous event having been at
/// `prev_event_time`, and the event's time. Events other than init must not
/// be earlier than the previous one.
pub fn serialize_event(event: Event, prev_event_time: u64) -> (r: (Vec<u8>, u64))
    requires
        !(event is Init) ==> event_time(event) >= prev_event_time,
    ensures
        (r.0@, r.1) == spec_serialize_event(event, prev_event_time),
{
    match event {
        Event::Init(time, size, theme, init) => {
            let mut msg: Vec<u8> = vec![0x01];
            push_leb(&mut msg, time);
            push_leb(&mut msg, size.0 as u64);
            push_leb(&mut msg, size.1 as u64);
            push_theme(&mut msg, &theme);
            push_text(&mut msg, init.as_str());
            assert(msg@ =~= spec_serialize_event(event, prev_event_time).0);
            (msg, time)
        },
        Event::Output(time, text) => {
            let mut msg: Vec<u8> = vec![0x6f];
            push_leb(&mut msg, time - prev_event_time);
            push_text(&mut msg, text.as_str());
            assert(msg@ =~= spec_serialize_event(event, prev_event_time).0);
            (msg, time)
        },
        Event::Input(time, text) => {
            let mut msg: Vec<u8> = vec![0x69];
            push_leb(&mut msg, time - prev_event_time);
            push_text(&mut msg, text.as_str());
            assert(msg@ =~= spec_serialize_event(event, prev_event_time).0);
            (msg, time)
        },
        Event::Resize(time, size) => {
            let mut msg: Vec<u8> = vec![0x72];
            push_leb(&mut msg, time - prev_event_time);
            push_leb(&mut msg, size.0 as u64);
            push_leb(&mut msg, size.1 as u64);
            assert(msg@ =~= spec_serialize_event(event, prev_event_time).0);
            (msg, time)
        },
        Event::Marker(time, text) => {
            let mut msg: Vec<u8> = vec![0x6d];
            push_leb(&mut msg, time - prev_event_time);
            push_text(&mut msg, text.as_str());
            assert(msg@ =~= spec_serialize_event(event, prev_event_time).0);
            (msg, time)
        },
    }
}

/// Every message reads back as its event: the type byte names the kind,
/// and the LEB128 numbers after it are the time (absolute for an init, else
/// since the previous event), then the size (columns first) or the length
/// of the text, whose UTF-8 bytes end the message; the time returned is the
/// event's own.
#[verifier::rlimit(60)]
#[verifier::spinoff_prover]
pub proof fn lemma_messages_read_back(event: Event, prev: u64)
    requires
        !(event is Init) ==> event_time(event) >= prev,
    ensures
        ({
            let (m, t) = spec_serialize_event(event, prev);
            let rel = event_time(event) - prev;
            &&& t == event_time(event)
            &&& m.len() >= 1
            &&& match event {
                Event::Init(time, size, theme, init) => m[0] == 0x01 && read_lebs(m.skip(1), 3)
                    == Some(
                    (
                        seq![time as nat, size.0 as nat, size.1 as nat],
                        theme_bytes(theme) + text_bytes(init@),
                    ),
                ),
                Event::Output(_, text) => m[0] == 0x6f && read_lebs(m.skip(1), 2) == Some(
                    (
                        seq![rel as nat, (encode_utf8(text@).len() as u32) as nat],
                        encode_utf8(text@),
                    ),
                ),
                Event::Input(_, text) => m[0] == 0x69 && read_lebs(m.skip(1), 2) == Some(
                    (
                        seq![rel as nat, (encode_utf8(text@).len() as u32) as nat],
                        encode_utf8(text@),
                    ),
                ),
                Event::Resize(_, size) => m[0] == 0x72 && read_lebs(m.skip(1), 3) == Some(
                    (seq![rel as nat, size.0 as nat, size.1 as nat], Seq::<u8>::empty()),
                ),
                Event::Marker(_, text) => m[0] == 0x6d && read_lebs(m.skip(1), 2) == Some(
                    (
                        seq![rel as nat, (encode_utf8(text@).len() as u32) as nat],
                        encode_utf8(text@),
                    ),
                ),
            }
        }),
{
    let m = spec_serialize_event(event, prev).0;
    let rel = event_time(event) - prev;
    match event {
        Event::Init(time, size, theme, init) => {
            let vs = seq![time as nat, size.0 as nat, size.1 as nat];
            let rest = theme_bytes(theme) + text_bytes(init@);
            lemma_encodings3(vs[0], vs[1], vs[2]);
            assert(m.skip(1) =~= encodings(vs) + rest);
            lemma_read_lebs_in_a_row(vs, rest);
        },
        Event::Output(_, text) => {
            let l = (encode_utf8(text@).len() as u32) as nat;
            let vs = seq![rel as nat, l];
            lemma_encodings2(vs[0], vs[1]);
            assert(m.skip(1) =~= encodings(vs) + encode_utf8(text@));
            lemma_read_lebs_in_a_row(vs, encode_utf8(text@));
        },
        Event::Input(_, text) => {
            let l = (encode_utf8(text@).len() as u32) as nat;
            let vs = seq![rel as nat, l];
            lemma_encodings2(vs[0], vs[1]);
            assert(m.skip(1) =~= encodings(vs) + encode_utf8(text@));
            lemma_read_lebs_in_a_row(vs, encode_utf8(text@));
        },
        Event::Resize(_, size) => {
            let vs = seq![rel as nat, size.0 as nat, size.1 as nat];
            lemma_encodings3(vs[0], vs[1], vs[2]);
            assert(m.skip(1) =~= encodings(vs) + Seq::<u8>::empty());
            lemma_read_lebs_in_a_row(vs, Seq::<u8>::empty());
        },
        Event::Marker(_, text) => {
            let l = (encode_utf8(text@).len() as u32) as nat;
            let vs = seq![rel as nat, l];
            lemma_encodings2(vs[0], vs[1]);
            assert(m.skip(1) =~= encodings(vs) + encode_utf8(text@));
            lemma_read_lebs_in_a_row(vs, encode_utf8(text@));
        },
    }
}

proof fn lemma_encodings2(a: nat, b: nat)
    ensures
        encodings(seq![a, b]) == crate::leb128::spec_encode(a) + crate::leb128::spec_encode(b),
{
    assert(seq![a, b].drop_first() =~= seq![b]);
    assert(seq![b].drop_first() =~= Seq::<nat>::empty());
    assert(encodings(Seq::<nat>::empty()) =~= Seq::<u8>::empty());
    assert(encodings(seq![b]) =~= crate::leb128::spec_encode(b));
    assert(encodings(seq![a, b]) =~= crate::leb128::spec_encode(a) + crate::leb128::spec_encode(
        b,
    ));
}

} // verus!

//! The raw encoder: the terminal output alone, preceded by a resize
//! sequence.
use vstd::prelude::*;
use crate::asciicast::{Event, EventData, Header};
use crate::text::{push_decimal, spec_decimal, string_from_chars, utf8_bytes};
use vstd::utf8::encode_utf8;

verus! {

/// The XTWINOPS sequence that resizes the terminal: `ESC [8;rows;cols t`.
pub open spec fn spec_resize_sequence(rows: u16, cols: u16) -> Seq<char> {
    seq!['\u{1b}', '[', '8', ';'] + spec_decimal(rows as nat) + seq![';'] + spec_decimal(
        cols as nat,
    ) + seq!['t']
}

/// Writes only what the terminal displayed.
pub struct RawEncoder;

impl RawEncoder {
    pub fn new() -> Self {
        RawEncoder
    }

    /// The sequence that gives the terminal the recording's size.
    pub fn header(&mut self, header: &Header) -> (r: Vec<u8>)
        ensures
            r@ == encode_utf8(spec_resize_sequence(header.term_rows, header.term_cols)),
    {
        let mut out: Vec<char> = vec!['\u{1b}', '[', '8', ';'];
        push_decimal(&mut out, header.term_rows as u64);
        out.push(';');
        push_decimal(&mut out, header.term_cols as u64);
        out.push('t');
        assert(out@ =~= spec_resize_sequence(header.term_rows, header.term_cols));
        let s = string_from_chars(out.as_slice());
        utf8_bytes(s.as_str())
    }

    /// The bytes of an output event; nothing for any other event.
    pub fn event(&mut self, event: Event) -> (r: Vec<u8>)
        ensures
            match event.data {
                EventData::Output(data) => r@ == encode_utf8(data@),
                _ => r@.len() == 0,
            },
    {
        match event.data {
            EventData::Output(data) => utf8_bytes(data.as_str()),
            _ => Vec::new(),
        }
    }

    /// Nothing is held back.
    pub fn flush(&mut self) -> (r: Vec<u8>)
        ensures
            r@.len() == 0,
    {
        Vec::new()
    }
}

} // verus!

//! The asciicast v2 encoder, which can also continue an existing file.
use vstd::prelude::*;
use crate::asciicast::{Event, EventData, Header};
use crate::asciicast::v2::{spec_event_json, spec_header_json, V2Encoder};
use vstd::utf8::encode_utf8;

verus! {

/// Writes asciicast v2. When appending to an existing recording it writes
/// no header, only a resize event at time 0 (shifted like every event) that
/// records the new terminal size.
pub struct AsciicastV2Encoder {
    inner: V2Encoder,
    append: bool,
}

impl AsciicastV2Encoder {
    /// The microseconds added to every event time.
    pub closed spec fn offset(&self) -> u64 {
        self.inner.offset()
    }

    /// Whether the encoder continues an existing file.
    pub closed spec fn appending(&self) -> bool {
        self.append
    }

    pub fn new(append: bool, time_offset: u64) -> (e: Self)
        ensures
            e.offset() == time_offset,
            e.appending() == append,
    {
        let inner = V2Encoder::new(time_offset);
        Self { inner, append }
    }

    /// The header line, or the resize line when appending.
    pub fn header(&mut self, header: &Header) -> (r: Vec<u8>)
        ensures
            final(self).offset() == old(self).offset(),
            final(self).appending() == old(self).appending(),
            old(self).appending() ==> r@ == encode_utf8(
                spec_event_json(
                    Event { time: 0, data: EventData::Resize(header.term_cols, header.term_rows) },
                    old(self).offset(),
                ),
            ) + seq![0x0au8],
            !old(self).appending() ==> r@ == encode_utf8(spec_header_json(*header)) + seq![0x0au8],
    {
        if self.append {
            let size = (header.term_cols, header.term_rows);
            let e = Event::resize(0, size);
            self.inner.event(&e)
        } else {
            self.inner.header(header)
        }
    }

    /// The line of an event.
    pub fn event(&mut self, event: Event) -> (r: Vec<u8>)
        requires
            event.time + old(self).offset() <= u64::MAX,
        ensures
            final(self).offset() == old(self).offset(),
            final(self).appending() == old(self).appending(),
            r@ == encode_utf8(spec_event_json(event, old(self).offset())) + seq![0x0au8],
    {
        self.inner.event(&event)
    }

    /// Nothing is held back.
    pub fn flush(&mut self) -> (r: Vec<u8>)
        ensures
            r@.len() == 0,
    {
        Vec::new()
    }
}

/// Encoding with an offset is encoding the event moved later by the
/// offset: an encoder that continues a recording writes each event as a
/// fresh one writes it at the shifted time.
pub proof fn lemma_offset_shifts_events(e: Event, offset: u64)
    requires
        e.time + offset <= u64::MAX,
    ensures
        spec_event_json(e, offset) == spec_event_json(
            Event { time: (e.time + offset) as u64, data: e.data },
            0,
        ),
{
}

} // verus!

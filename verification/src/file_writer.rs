//! Writing a session to a file as it happens: the header when the session
//! starts, then the encoding of each event; the caller writes the bytes.
use vstd::prelude::*;
use crate::asciicast::v2::{spec_event_json, spec_header_json};
use crate::asciicast::{Event, EventData, Header};
use crate::encoder::asciicast::AsciicastV2Encoder;
use crate::encoder::raw::{spec_resize_sequence, RawEncoder};
use crate::encoder::txt::{
    fed_view, fresh_view, lines_bytes, spec_encode_output, spec_output_lines, transcript_fed_lines,
    transcript_final_lines, transcript_resized_lines, TextEncoder,
};
use crate::frames::{given, VtInput};
use crate::session::{spec_recording_event, Metadata};
use vstd::utf8::encode_utf8;

verus! {

/// The encoder a file is written with.
pub enum FileEncoder {
    AsciicastV2(AsciicastV2Encoder),
    Raw(RawEncoder),
    Txt(TextEncoder),
}

impl FileEncoder {
    /// Whether the encoder can take this event: the v2 encoder's shifted
    /// time fits; the text encoder has seen the header and resizes to at
    /// least 1x1.
    pub open spec fn can_encode(&self, e: Event) -> bool {
        match self {
            FileEncoder::AsciicastV2(x) => e.time + x.offset() <= u64::MAX,
            FileEncoder::Raw(_) => true,
            FileEncoder::Txt(t) => t.ready() && (e.data matches EventData::Resize(c, r) ==> c >= 1
                && r >= 1),
        }
    }

    /// Whether the encoder can take this header: the text encoder needs a
    /// size of at least 1x1.
    pub open spec fn can_start(&self, h: Header) -> bool {
        self matches FileEncoder::Txt(_) ==> h.term_cols >= 1 && h.term_rows >= 1
    }

    /// What the encoder writes for the event: for the v2 encoder its JSON
    /// line, for the raw encoder the output text, for the text encoder the
    /// lines its terminal hands back (see `spec_output_lines`).
    pub open spec fn event_bytes_ok(&self, e: Event, r: Seq<u8>) -> bool {
        match self {
            FileEncoder::AsciicastV2(x) => r == encode_utf8(spec_event_json(e, x.offset()))
                + seq![0x0au8],
            FileEncoder::Raw(_) => match e.data {
                EventData::Output(d) => r == encode_utf8(d@),
                _ => r.len() == 0,
            },
            FileEncoder::Txt(t) => match e.data {
                EventData::Output(s) => r == lines_bytes(
                    spec_output_lines(t.terminal(), t.size()->0, t.pending(), s@).0,
                ),
                EventData::Resize(c, rw) => r == lines_bytes(
                    transcript_resized_lines(t.terminal(), c as usize, rw as usize),
                ),
                _ => r.len() == 0,
            },
        }
    }

    /// The header bytes.
    pub fn header(&mut self, header: &Header) -> (r: Vec<u8>)
        requires
            old(self).can_start(*header),
        ensures
            match (*old(self), *final(self)) {
                (FileEncoder::AsciicastV2(a), FileEncoder::AsciicastV2(b)) => {
                    &&& b.offset() == a.offset()
                    &&& b.appending() == a.appending()
                    &&& !a.appending() ==> r@ == encode_utf8(spec_header_json(*header)) + seq![
                        0x0au8,
                    ]
                    &&& a.appending() ==> r@ == encode_utf8(
                        spec_event_json(
                            Event {
                                time: 0,
                                data: EventData::Resize(header.term_cols, header.term_rows),
                            },
                            a.offset(),
                        ),
                    ) + seq![0x0au8]
                },
                (FileEncoder::Raw(_), FileEncoder::Raw(_)) => r@ == encode_utf8(
                    spec_resize_sequence(header.term_rows, header.term_cols),
                ),
                (FileEncoder::Txt(_), FileEncoder::Txt(t)) => {
                    &&& r@.len() == 0
                    &&& t.ready()
                    &&& t.terminal() == fresh_view((header.term_cols, header.term_rows))
                },
                _ => false,
            },
    {
        match self {
            FileEncoder::AsciicastV2(x) => x.header(header),
            FileEncoder::Raw(x) => x.header(header),
            FileEncoder::Txt(x) => x.header(header),
        }
    }

    /// The bytes of an event.
    pub fn event(&mut self, e: Event) -> (r: Vec<u8>)
        requires
            old(self).can_encode(e),
        ensures
            old(self).event_bytes_ok(e, r@),
            match (*old(self), *final(self)) {
                (FileEncoder::AsciicastV2(a), FileEncoder::AsciicastV2(b)) => b.offset()
                    == a.offset(),
                (FileEncoder::Raw(_), FileEncoder::Raw(_)) => true,
                (FileEncoder::Txt(a), FileEncoder::Txt(b)) => {
                    &&& b.ready()
                    &&& e.data matches EventData::Output(s) ==> {
                        &&& (b.fed(), b.pending()) == spec_encode_output(a.fed(), a.pending(), s@)
                        &&& b.terminal() == spec_output_lines(
                            a.terminal(),
                            a.size()->0,
                            a.pending(),
                            s@,
                        ).1
                    }
                    &&& e.data matches EventData::Resize(c, rw) ==> {
                        &&& b.size() == Some((c, rw))
                        &&& b.terminal() == given(
                            a.terminal(),
                            VtInput::Size(c as usize, rw as usize),
                        )
                    }
                },
                _ => false,
            },
    {
        let ghost ev = e;
        match self {
            FileEncoder::AsciicastV2(x) => x.event(e),
            FileEncoder::Raw(x) => x.event(e),
            FileEncoder::Txt(x) => x.event(e),
        }
    }

    /// The bytes held back until the end.
    pub fn flush(&mut self) -> (r: Vec<u8>)
        requires
            *old(self) matches FileEncoder::Txt(t) ==> t.ready(),
        ensures
            !(*old(self) is Txt) ==> r@.len() == 0,
            *old(self) matches FileEncoder::Txt(t) ==> r@ == lines_bytes(
                transcript_fed_lines(t.terminal(), t.pending()) + transcript_final_lines(
                    fed_view(t.terminal(), t.pending()),
                ),
            ),
    {
        match self {
            FileEncoder::AsciicastV2(x) => x.flush(),
            FileEncoder::Raw(x) => x.flush(),
            FileEncoder::Txt(x) => x.flush(),
        }
    }
}

/// The notification when the header cannot be written.
pub open spec fn start_error_notice() -> Seq<char> {
    "Write error, session won't be recorded"@
}

/// The notification when an event cannot be written.
pub open spec fn event_error_notice() -> Seq<char> {
    "Write error, recording suspended"@
}

/// The header of a session recorded to a file.
pub open spec fn spec_session_header(m: Metadata) -> Header {
    Header {
        term_cols: m.term.size.0,
        term_rows: m.term.size.1,
        term_type: m.term.type_,
        term_version: m.term.version,
        term_theme: m.term.theme,
        timestamp: m.timestamp,
        idle_time_limit: m.idle_time_limit,
        command: m.command,
        title: m.title,
        env: Some(m.env),
    }
}

/// The header of a session: the terminal's size, type, version and theme,
/// the start time, the idle time limit, the command, the title and the
/// recorded environment.
pub fn make_header(metadata: Metadata) -> (h: Header)
    ensures
        h == spec_session_header(metadata),
        h.term_cols == metadata.term.size.0,
        h.term_rows == metadata.term.size.1,
        h.term_type == metadata.term.type_,
        h.term_version == metadata.term.version,
        h.term_theme == metadata.term.theme,
        h.timestamp == metadata.timestamp,
        h.idle_time_limit == metadata.idle_time_limit,
        h.command == metadata.command,
        h.title == metadata.title,
        h.env == Some(metadata.env),
{
    Header {
        term_cols: metadata.term.size.0,
        term_rows: metadata.term.size.1,
        term_type: metadata.term.type_,
        term_version: metadata.term.version,
        term_theme: metadata.term.theme,
        timestamp: metadata.timestamp,
        idle_time_limit: metadata.idle_time_limit,
        command: metadata.command,
        title: metadata.title,
        env: Some(metadata.env),
    }
}

/// A file writer before the session starts.
pub struct FileWriter {
    pub encoder: FileEncoder,
    pub metadata: Metadata,
}

/// A file writer of a running session.
pub struct LiveFileWriter {
    pub encoder: FileEncoder,
}

impl FileWriter {
    pub fn new(encoder: FileEncoder, metadata: Metadata) -> (w: Self)
        ensures
            w.encoder == encoder,
            w.metadata == metadata,
    {
        FileWriter { encoder, metadata }
    }

    /// Starts the session: the header bytes to write (the header made from
    /// the metadata, which must give the start time), and the live writer.
    pub fn start(self) -> (r: (Vec<u8>, LiveFileWriter))
        requires
            self.metadata.timestamp is Some,
            self.encoder.can_start(spec_session_header(self.metadata)),
        ensures
            match (self.encoder, r.1.encoder) {
                (FileEncoder::AsciicastV2(a), FileEncoder::AsciicastV2(b)) => {
                    &&& b.offset() == a.offset()
                    &&& b.appending() == a.appending()
                    &&& !a.appending() ==> r.0@ == encode_utf8(
                        spec_header_json(spec_session_header(self.metadata)),
                    ) + seq![0x0au8]
                    &&& a.appending() ==> r.0@ == encode_utf8(
                        spec_event_json(
                            Event {
                                time: 0,
                                data: EventData::Resize(
                                    self.metadata.term.size.0,
                                    self.metadata.term.size.1,
                                ),
                            },
                            a.offset(),
                        ),
                    ) + seq![0x0au8]
                },
                (FileEncoder::Raw(_), FileEncoder::Raw(_)) => r.0@ == encode_utf8(
                    spec_resize_sequence(self.metadata.term.size.1, self.metadata.term.size.0),
                ),
                (FileEncoder::Txt(_), FileEncoder::Txt(t)) => r.0@.len() == 0 && t.ready(),
                _ => false,
            },
    {
        let FileWriter { encoder, metadata } = self;
        let header = make_header(metadata);
        let mut encoder = encoder;
        let bytes = encoder.header(&header);
        (bytes, LiveFileWriter { encoder })
    }
}

impl LiveFileWriter {
    /// The bytes of a session event, encoded as a recording event.
    pub fn event(&mut self, event: crate::session::Event) -> (r: Vec<u8>)
        requires
            old(self).encoder.can_encode(spec_recording_event(event)),
        ensures
            old(self).encoder.event_bytes_ok(spec_recording_event(event), r@),
    {
        let e: Event = event.into();
        self.encoder.event(e)
    }

    /// The bytes held back until the end.
    pub fn flush(&mut self) -> (r: Vec<u8>)
        requires
            old(self).encoder matches FileEncoder::Txt(t) ==> t.ready(),
        ensures
            !(old(self).encoder is Txt) ==> r@.len() == 0,
            old(self).encoder matches FileEncoder::Txt(t) ==> r@ == lines_bytes(
                transcript_fed_lines(t.terminal(), t.pending()) + transcript_final_lines(
                    fed_view(t.terminal(), t.pending()),
                ),
            ),
    {
        self.encoder.flush()
    }
}

/// A session's header carries its metadata unchanged: the terminal's size
/// (columns, then rows), type, version and theme, the start time, the idle
/// time limit, the command, the title and the environment.
pub proof fn lemma_session_header_keeps_metadata(m: Metadata)
    ensures
        spec_session_header(m).term_cols == m.term.size.0,
        spec_session_header(m).term_rows == m.term.size.1,
        spec_session_header(m).term_type == m.term.type_,
        spec_session_header(m).term_version == m.term.version,
        spec_session_header(m).term_theme == m.term.theme,
        spec_session_header(m).timestamp == m.timestamp,
        spec_session_header(m).idle_time_limit == m.idle_time_limit,
        spec_session_header(m).command == m.command,
        spec_session_header(m).title == m.title,
        spec_session_header(m).env == Some(m.env),
{
}

} // verus!

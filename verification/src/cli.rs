//! The command line: the options of the commands that take plain values,
//! and the parsers of option values.
use vstd::prelude::*;
use crate::text::{
    chars_of, int_error_message, int_error_text, parse_uint, parse_uint_result, spec_parse_uint,
    spec_parse_uint_result, spec_trim, split_on, split_on_char, split_once, split_once_char,
    string_from_chars, trim, IntErrorKind,
};

verus! {

/// Visibility level for uploads and streams.
#[derive(Debug, Clone, Copy, PartialEq, Eq, Structural)]
pub enum Visibility {
    Public,
    Unlisted,
    Private,
}

/// The format of a converted or recorded file.
#[derive(Clone, Copy, Debug, PartialEq, Eq, Structural)]
pub enum Format {
    /// asciicast v3: timing and metadata (current generation).
    AsciicastV3,
    /// asciicast v2: timing and metadata (previous generation).
    AsciicastV2,
    /// Raw terminal output, control sequences included, without timing.
    Raw,
    /// Plain text without colors or control sequences.
    Txt,
}

/// The output format of the frame listing.
#[derive(Clone, Copy, Debug, PartialEq, Eq, Structural)]
pub enum ListFormat {
    /// A table with aligned columns, for people.
    Table,
    /// Comma-separated values with a header row.
    Csv,
    /// A JSON array of frame objects.
    Json,
}

/// The output format of printed frames.
#[derive(Clone, Copy, Debug, PartialEq, Eq, Structural)]
pub enum CatFramesFormat {
    /// Screen snapshots, each preceded by a header line.
    Terminal,
    /// A JSON array of frame objects.
    Json,
}

/// Concatenates recordings.
#[derive(Debug)]
pub struct Cat {
    /// The recordings, at least two, in order.
    pub file: Vec<String>,
}

/// Converts a recording to another format.
#[derive(Debug)]
pub struct Convert {
    /// The source: a path, an HTTP(S) URL or `-` for standard input.
    pub input: String,
    /// The destination: a path or `-` for standard output.
    pub output: String,
    /// The output format; by default asciicast v3, or txt for a `.txt` path.
    pub output_format: Option<Format>,
    /// Whether an existing output file may be replaced.
    pub overwrite: bool,
}

/// Lists the frames of a recording.
#[derive(Debug)]
pub struct LsFrames {
    /// The recording: a path, an HTTP(S) URL or `-` for standard input.
    pub file: String,
    /// The output format.
    pub format: ListFormat,
}

/// Uploads a recording to an asciinema server.
#[derive(Debug)]
pub struct Upload {
    pub file: String,
    pub title: Option<String>,
    pub description: Option<String>,
    pub visibility: Option<Visibility>,
    pub audio_url: Option<String>,
    pub server_url: Option<String>,
}

/// Links this machine with an asciinema server account.
#[derive(Debug)]
pub struct Auth {
    pub server_url: Option<String>,
}

/// Inclusive frame number ranges, for example `1,4-7`.
#[derive(Debug)]
pub struct FrameSpec(pub Vec<(usize, usize)>);

/// One comma-separated part of a frame list: a frame number or an
/// inclusive range `start-end`, whitespace around the numbers allowed.
/// Frame numbers start at 1 and a range must not go backwards.
pub open spec fn frame_part(part: Seq<char>) -> Result<(usize, usize), Seq<char>> {
    let p = spec_trim(part);
    let (a, b) = match split_once(p, '-') {
        Some(x) => x,
        None => (p, p),
    };
    match (
        spec_parse_uint(spec_trim(a), usize::MAX as nat),
        spec_parse_uint(spec_trim(b), usize::MAX as nat),
    ) {
        (Some(start), Some(end)) => if start == 0 || end == 0 {
            Err("frame numbers start at 1"@)
        } else if end < start {
            Err("invalid frame range: "@ + p)
        } else {
            Ok((start as usize, end as usize))
        },
        _ => Err("invalid frame number: "@ + p),
    }
}

/// The ranges of the parts, in order, or the error of the first part that
/// has one.
pub open spec fn frame_parts(parts: Seq<Seq<char>>) -> Result<Seq<(usize, usize)>, Seq<char>>
    decreases parts.len(),
{
    if parts.len() == 0 {
        Ok(seq![])
    } else {
        match frame_parts(parts.drop_last()) {
            Err(e) => Err(e),
            Ok(rs) => match frame_part(parts.last()) {
                Err(e) => Err(e),
                Ok(r) => Ok(rs.push(r)),
            },
        }
    }
}

/// A frame list: comma-separated frame numbers and ranges.
pub open spec fn spec_parse_frame_spec(s: Seq<char>) -> Result<Seq<(usize, usize)>, Seq<char>> {
    frame_parts(split_on(s, ','))
}

/// Once a part fails, the whole list fails with its error.
pub proof fn lemma_frame_parts_error_stays(parts: Seq<Seq<char>>, k: int)
    requires
        0 <= k <= parts.len(),
        frame_parts(parts.take(k)) is Err,
    ensures
        frame_parts(parts) == frame_parts(parts.take(k)),
    decreases parts.len() - k,
{
    if k < parts.len() {
        assert(parts.take(k + 1).drop_last() =~= parts.take(k));
        lemma_frame_parts_error_stays(parts, k + 1);
    } else {
        assert(parts.take(k) =~= parts);
    }
}

/// Appends the characters of a message and a part of the input.
fn message_with(prefix: &str, part: &[char]) -> (s: String)
    ensures
        s@ == prefix@ + part@,
{
    let mut out = chars_of(prefix);
    crate::text::append_chars(&mut out, part);
    string_from_chars(out.as_slice())
}

/// Parses one part of a frame list.
fn parse_frame_part(part: &[char]) -> (r: Result<(usize, usize), String>)
    ensures
        match frame_part(part@) {
            Ok(v) => r matches Ok(x) && x == v,
            Err(e) => r matches Err(x) && x@ == e,
        },
{
    let p = trim(part);
    let (a, b) = match split_once_char(p.as_slice(), '-') {
        Some(x) => x,
        None => (p.clone(), p.clone()),
    };
    proof {
        assert(a@ == (match split_once(p@, '-') {
            Some(x) => x,
            None => (p@, p@),
        }).0);
    }
    let ta = trim(a.as_slice());
    let tb = trim(b.as_slice());
    let start = parse_uint(ta.as_slice(), usize::MAX as u64);
    let end = parse_uint(tb.as_slice(), usize::MAX as u64);
    match (start, end) {
        (Some(start), Some(end)) => {
            if start == 0 || end == 0 {
                Err("frame numbers start at 1".to_owned())
            } else if end < start {
                Err(message_with("invalid frame range: ", p.as_slice()))
            } else {
                Ok((start as usize, end as usize))
            }
        },
        _ => Err(message_with("invalid frame number: ", p.as_slice())),
    }
}

/// Parses a frame list such as `1,4-7`: frame numbers and inclusive
/// ranges, separated by commas.
pub fn parse_frame_spec(s: &str) -> (r: Result<FrameSpec, String>)
    ensures
        match spec_parse_frame_spec(s@) {
            Ok(v) => r matches Ok(spec) && spec.0@ == v,
            Err(e) => r matches Err(x) && x@ == e,
        },
{
    let chars = chars_of(s);
    let parts = split_on_char(chars.as_slice(), ',');
    let ghost ps = split_on(s@, ',');
    let mut ranges: Vec<(usize, usize)> = Vec::new();
    let mut k: usize = 0;
    assert(ps.take(0) =~= Seq::<Seq<char>>::empty());
    while k < parts.len()
        invariant
            ps == split_on(s@, ','),
            parts@.len() == ps.len(),
            forall|j: int| 0 <= j < parts@.len() ==> (#[trigger] parts@[j])@ == ps[j],
            k <= parts@.len(),
            frame_parts(ps.take(k as int)) == Ok::<Seq<(usize, usize)>, Seq<char>>(ranges@),
        decreases parts@.len() - k,
    {
        assert(ps.take(k + 1).drop_last() =~= ps.take(k as int));
        assert(ps.take(k + 1).last() == ps[k as int]);
        match parse_frame_part(parts[k].as_slice()) {
            Ok(range) => {
                ranges.push(range);
            },
            Err(e) => {
                proof {
                    lemma_frame_parts_error_stays(ps, k + 1);
                }
                return Err(e);
            },
        }
        k = k + 1;
    }
    assert(ps.take(k as int) =~= ps);
    Ok(FrameSpec(ranges))
}

/// A window size `COLSxROWS`, `COLSx` or `xROWS`; anything without an `x`
/// is refused with the text itself as the error, and a number that does not
/// parse as a `u16` with the message of its parse error.
pub open spec fn spec_parse_window_size(s: Seq<char>) -> Result<
    (Option<u16>, Option<u16>),
    Seq<char>,
> {
    match split_once(s, 'x') {
        None => Err(s),
        Some((cols, rows)) => if rows.len() == 0 {
            match spec_parse_uint_result(cols, u16::MAX as nat) {
                Ok(c) => Ok((Some(c as u16), None)),
                Err(e) => Err(int_error_message(e)),
            }
        } else if cols.len() == 0 {
            match spec_parse_uint_result(rows, u16::MAX as nat) {
                Ok(r) => Ok((None, Some(r as u16))),
                Err(e) => Err(int_error_message(e)),
            }
        } else {
            match spec_parse_uint_result(cols, u16::MAX as nat) {
                Err(e) => Err(int_error_message(e)),
                Ok(c) => match spec_parse_uint_result(rows, u16::MAX as nat) {
                    Err(e) => Err(int_error_message(e)),
                    Ok(r) => Ok((Some(c as u16), Some(r as u16))),
                },
            }
        },
    }
}

/// Parses a `u16` option value.
fn parse_u16(s: &[char]) -> (r: Result<u16, String>)
    ensures
        match spec_parse_uint_result(s@, u16::MAX as nat) {
            Ok(v) => r == Ok::<u16, String>(v as u16),
            Err(e) => r matches Err(x) && x@ == int_error_message(e),
        },
{
    proof {
        crate::text::lemma_parse_uint_result_bounded(s@, u16::MAX as nat);
    }
    match parse_uint_result(s, u16::MAX as u64) {
        Ok(v) => Ok(v as u16),
        Err(e) => Err(int_error_text(e)),
    }
}

/// Parses a window size: `COLSxROWS`, `COLSx` or `xROWS`.
pub fn parse_window_size(s: &str) -> (r: Result<(Option<u16>, Option<u16>), String>)
    ensures
        match spec_parse_window_size(s@) {
            Ok(v) => r == Ok::<(Option<u16>, Option<u16>), String>(v),
            Err(e) => r matches Err(x) && x@ == e,
        },
{
    let chars = chars_of(s);
    match split_once_char(chars.as_slice(), 'x') {
        None => Err(string_from_chars(chars.as_slice())),
        Some((cols, rows)) => {
            if rows.len() == 0 {
                let c = parse_u16(cols.as_slice())?;
                Ok((Some(c), None))
            } else if cols.len() == 0 {
                let r = parse_u16(rows.as_slice())?;
                Ok((None, Some(r)))
            } else {
                let c = parse_u16(cols.as_slice())?;
                let r = parse_u16(rows.as_slice())?;
                Ok((Some(c), Some(r)))
            }
        },
    }
}

/// Where a session is streamed to: a stream of the user's account on the
/// server, by id, or a relay's WebSocket producer URL.
#[derive(Debug, Clone, PartialEq, Eq)]
pub enum RelayTarget {
    StreamId(String),
    WsProducerUrl(String),
}

/// The error for a URL that is not a WebSocket one.
pub open spec fn not_websocket_error() -> Seq<char> {
    "must be a WebSocket URL (ws:// or wss://)"@
}

/// Reads where to stream to: the trimmed text is a `ws` or `wss` URL (any
/// other URL is an error); a text that is no absolute URL (a relative one)
/// is a stream id; any other URL error is reported.
pub fn validate_forward_target(s: &str) -> (r: Result<RelayTarget, String>)
    ensures
        ({
            let t = spec_trim(s@);
            match crate::urls::url_parse_result(t) {
                Ok((u, scheme, _)) => if scheme == "ws"@ || scheme == "wss"@ {
                    r matches Ok(RelayTarget::WsProducerUrl(x)) && x@ == u
                } else {
                    r matches Err(e) && e@ == not_websocket_error()
                },
                Err((relative, m)) => if relative {
                    r matches Ok(RelayTarget::StreamId(x)) && x@ == t
                } else {
                    r matches Err(e) && e@ == m
                },
            }
        }),
{
    let cs = chars_of(s);
    let t = string_from_chars(trim(cs.as_slice()).as_slice());
    match crate::urls::parse_url(t.as_str()) {
        Ok((u, scheme, _)) => {
            if crate::text::str_eq(scheme.as_str(), "ws") || crate::text::str_eq(
                scheme.as_str(),
                "wss",
            ) {
                Ok(RelayTarget::WsProducerUrl(u))
            } else {
                Err("must be a WebSocket URL (ws:// or wss://)".to_string())
            }
        },
        Err((relative, m)) => {
            if relative {
                Ok(RelayTarget::StreamId(t))
            } else {
                Err(m)
            }
        },
    }
}

} // verus!

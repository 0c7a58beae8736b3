//! Version 2 of the asciicast format: a JSON header line, then one JSON
//! array per event with the absolute time in seconds.
use vstd::prelude::*;
use crate::asciicast::{Event, EventData, Header};
use crate::json::{json_quote, json_string};
use crate::asciicast::util::{micros_text, spec_time_text};
use crate::text::{
    all_digit_chars, append_chars, append_str, chars_of, digit, digit_char, digit_chars_value,
    first_failure, index_of, lemma_digit_chars_prefix_le, lemma_index_of, push_decimal, split_once,
    spec_decimal, spec_parse_uint_result, spec_trim, split_on, string_from_chars, trim_end,
    trim_start, utf8_bytes, IntErrorKind,
};
use crate::tty::{TtyTheme, RGB8};
use vstd::utf8::encode_utf8;

verus! {

/// The six digits of `f < 1_000_000`, zero-padded.
pub open spec fn six_digits(f: nat) -> Seq<char> {
    seq![
        digit_char(f / 100000 % 10),
        digit_char(f / 10000 % 10),
        digit_char(f / 1000 % 10),
        digit_char(f / 100 % 10),
        digit_char(f / 10 % 10),
        digit_char(f % 10),
    ]
}

/// `s` without its trailing zeros, keeping at least one character.
pub open spec fn trim_zeros(s: Seq<char>) -> Seq<char>
    decreases s.len(),
{
    if s.len() > 1 && s.last() == '0' {
        trim_zeros(s.drop_last())
    } else {
        s
    }
}

/// A time in microseconds as seconds with up to six decimals, trailing
/// zeros dropped but one decimal kept: 12300000 is `12.3`, 0 is `0.0`.
pub open spec fn spec_format_time(time: nat) -> Seq<char> {
    spec_decimal(time / 1_000_000) + seq!['.'] + trim_zeros(six_digits(time % 1_000_000))
}

/// Appends the formatted time.
pub fn push_time(out: &mut Vec<char>, time: u64)
    ensures
        final(out)@ == old(out)@ + spec_format_time(time as nat),
{
    push_decimal(out, time / 1_000_000);
    out.push('.');
    let f = time % 1_000_000;
    let mut frac: Vec<char> = vec![
        digit(f / 100000 % 10),
        digit(f / 10000 % 10),
        digit(f / 1000 % 10),
        digit(f / 100 % 10),
        digit(f / 10 % 10),
        digit(f % 10),
    ];
    assert(frac@ =~= six_digits(f as nat));
    while frac.len() > 1 && frac[frac.len() - 1] == '0'
        invariant
            frac@.len() >= 1,
            trim_zeros(frac@) == trim_zeros(six_digits(f as nat)),
        decreases frac@.len(),
    {
        frac.pop();
    }
    let ghost before = out@;
    crate::text::append_chars(out, frac.as_slice());
    assert(out@ =~= old(out)@ + spec_format_time(time as nat));
}

/// A time in microseconds as the decimal seconds written in asciicast v2.
pub fn format_time(time: u64) -> (s: String)
    ensures
        s@ == spec_format_time(time as nat),
{
    let mut out: Vec<char> = Vec::new();
    push_time(&mut out, time);
    assert(out@ =~= spec_format_time(time as nat));
    string_from_chars(out.as_slice())
}


/// A signed integer in decimal.
pub open spec fn spec_signed_decimal(i: int) -> Seq<char> {
    if i < 0 {
        seq!['-'] + spec_decimal((-i) as nat)
    } else {
        spec_decimal(i as nat)
    }
}

/// Appends a signed integer in decimal.
pub fn push_signed(out: &mut Vec<char>, i: i32)
    ensures
        final(out)@ == old(out)@ + spec_signed_decimal(i as int),
{
    if i < 0 {
        out.push('-');
        let m: i64 = -(i as i64);
        push_decimal(out, m as u64);
    } else {
        push_decimal(out, i as u64);
    }
    assert(out@ =~= old(out)@ + spec_signed_decimal(i as int));
}

/// The code and the JSON data of an event line.
pub open spec fn event_code_data(data: EventData) -> (char, Seq<char>) {
    match data {
        EventData::Output(d) => ('o', json_quote(d@)),
        EventData::Input(d) => ('i', json_quote(d@)),
        EventData::Resize(cols, rows) => (
            'r',
            json_quote(spec_decimal(cols as nat) + seq!['x'] + spec_decimal(rows as nat)),
        ),
        EventData::Marker(d) => ('m', json_quote(d@)),
        EventData::Exit(status) => ('x', json_quote(spec_signed_decimal(status as int))),
        EventData::Other(c, d) => (c, json_quote(d@)),
    }
}

/// The JSON array of an event, shifted by `offset` microseconds:
/// `[time, "code", data]`.
pub open spec fn spec_event_json(event: Event, offset: u64) -> Seq<char> {
    let (code, data) = event_code_data(event.data);
    seq!['['] + spec_format_time((event.time + offset) as nat) + seq![',', ' '] + json_quote(
        seq![code],
    ) + seq![',', ' '] + data + seq![']']
}

/// Writes asciicast v2 lines.
pub struct V2Encoder {
    time_offset: u64,
}

impl V2Encoder {
    /// The microseconds added to every event time.
    pub closed spec fn offset(&self) -> u64 {
        self.time_offset
    }

    /// An encoder that shifts event times by `time_offset` microseconds.
    pub fn new(time_offset: u64) -> (e: Self)
        ensures
            e.offset() == time_offset,
    {
        V2Encoder { time_offset }
    }

    /// The header line.
    pub fn header(&mut self, header: &Header) -> (r: Vec<u8>)
        ensures
            final(self).offset() == old(self).offset(),
            r@ == encode_utf8(spec_header_json(*header)) + seq![0x0au8],
    {
        let text = header_json(header);
        let mut data = utf8_bytes(text.as_str());
        data.push(0x0a);
        data
    }

    /// The line of an event.
    pub fn event(&mut self, event: &Event) -> (r: Vec<u8>)
        requires
            event.time + old(self).offset() <= u64::MAX,
        ensures
            final(self).offset() == old(self).offset(),
            r@ == encode_utf8(spec_event_json(*event, old(self).offset())) + seq![0x0au8],
    {
        let line = self.serialize_event(event);
        let mut data = utf8_bytes(line.as_str());
        data.push(0x0a);
        data
    }

    fn serialize_event(&self, event: &Event) -> (s: String)
        requires
            event.time + self.offset() <= u64::MAX,
        ensures
            s@ == spec_event_json(*event, self.offset()),
    {
        let (code, data) = match &event.data {
            EventData::Output(d) => ('o', json_string(d.as_str())),
            EventData::Input(d) => ('i', json_string(d.as_str())),
            EventData::Resize(cols, rows) => {
                let mut size: Vec<char> = Vec::new();
                push_decimal(&mut size, *cols as u64);
                size.push('x');
                push_decimal(&mut size, *rows as u64);
                assert(size@ =~= spec_decimal(*cols as nat) + seq!['x'] + spec_decimal(*rows as nat));
                let size = string_from_chars(size.as_slice());
                ('r', json_string(size.as_str()))
            },
            EventData::Marker(d) => ('m', json_string(d.as_str())),
            EventData::Exit(status) => {
                let mut text: Vec<char> = Vec::new();
                push_signed(&mut text, *status);
                let text = string_from_chars(text.as_slice());
                ('x', json_string(text.as_str()))
            },
            EventData::Other(c, d) => (*c, json_string(d.as_str())),
        };
        assert((code, data@) == event_code_data(event.data));
        let code_chars: Vec<char> = vec![code];
        assert(code_chars@ =~= seq![code]);
        let code_text = string_from_chars(code_chars.as_slice());
        let code_json = json_string(code_text.as_str());
        let mut out: Vec<char> = Vec::new();
        out.push('[');
        push_time(&mut out, event.time + self.time_offset);
        out.push(',');
        out.push(' ');
        append_str(&mut out, code_json.as_str());
        out.push(',');
        out.push(' ');
        append_str(&mut out, data.as_str());
        out.push(']');
        assert(out@ =~= spec_event_json(*event, self.offset()));
        string_from_chars(out.as_slice())
    }
}

/// `#rrggbb` with lowercase hex digits.
pub open spec fn spec_hex_color(c: RGB8) -> Seq<char> {
    seq![
        '#',
        crate::json::hex_digit((c.r / 16) as nat),
        crate::json::hex_digit((c.r % 16) as nat),
        crate::json::hex_digit((c.g / 16) as nat),
        crate::json::hex_digit((c.g % 16) as nat),
        crate::json::hex_digit((c.b / 16) as nat),
        crate::json::hex_digit((c.b % 16) as nat),
    ]
}

/// The palette as `#rrggbb` triplets separated by `:`.
pub open spec fn spec_palette_text(p: Seq<RGB8>) -> Seq<char>
    decreases p.len(),
{
    if p.len() == 0 {
        seq![]
    } else if p.len() == 1 {
        spec_hex_color(p[0])
    } else {
        spec_palette_text(p.drop_last()) + seq![':'] + spec_hex_color(p.last())
    }
}

/// The theme object of a v2 header.
pub open spec fn spec_theme_json(t: TtyTheme) -> Seq<char> {
    seq!['{'] + json_quote(seq!['f', 'g']) + seq![':'] + json_quote(spec_hex_color(t.fg)) + seq![
        ',',
    ] + json_quote(seq!['b', 'g']) + seq![':'] + json_quote(spec_hex_color(t.bg)) + seq![',']
        + json_quote(seq!['p', 'a', 'l', 'e', 't', 't', 'e']) + seq![':'] + json_quote(
        spec_palette_text(t.palette@),
    ) + seq!['}']
}

/// The members `"name":"value"` of the environment object, comma-separated.
pub open spec fn spec_env_members(env: Seq<(String, String)>) -> Seq<char>
    decreases env.len(),
{
    if env.len() == 0 {
        seq![]
    } else {
        let member = json_quote(env.last().0@) + seq![':'] + json_quote(env.last().1@);
        if env.len() == 1 {
            member
        } else {
            spec_env_members(env.drop_last()) + seq![','] + member
        }
    }
}

/// A member `"key":value` of a JSON object, preceded by a comma.
#[verifier::opaque]
pub open spec fn member(key: Seq<char>, value: Seq<char>) -> Seq<char> {
    seq![','] + json_quote(key) + seq![':'] + value
}

/// An optional member: nothing when absent.
#[verifier::opaque]
pub open spec fn opt_member(key: Seq<char>, value: Option<Seq<char>>) -> Seq<char> {
    match value {
        Some(v) => member(key, v),
        None => seq![],
    }
}

pub open spec fn opt_text(s: Option<String>) -> Option<Seq<char>> {
    match s {
        Some(v) => Some(json_quote(v@)),
        None => None,
    }
}

pub open spec fn opt_number(n: Option<u64>) -> Option<Seq<char>> {
    match n {
        Some(v) => Some(spec_decimal(v as nat)),
        None => None,
    }
}

pub open spec fn opt_time(n: Option<u64>) -> Option<Seq<char>> {
    match n {
        Some(v) => Some(spec_format_time(v as nat)),
        None => None,
    }
}

/// The environment member, written only when there are variables.
pub open spec fn opt_env(env: Option<Vec<(String, String)>>) -> Option<Seq<char>> {
    match env {
        Some(e) => if e@.len() > 0 {
            Some(seq!['{'] + spec_env_members(e@) + seq!['}'])
        } else {
            None
        },
        None => None,
    }
}

pub open spec fn opt_theme(t: Option<TtyTheme>) -> Option<Seq<char>> {
    match t {
        Some(theme) => Some(spec_theme_json(theme)),
        None => None,
    }
}

pub open spec fn key_version() -> Seq<char> {
    seq!['v', 'e', 'r', 's', 'i', 'o', 'n']
}

pub open spec fn key_width() -> Seq<char> {
    seq!['w', 'i', 'd', 't', 'h']
}

pub open spec fn key_height() -> Seq<char> {
    seq!['h', 'e', 'i', 'g', 'h', 't']
}

pub open spec fn key_timestamp() -> Seq<char> {
    seq!['t', 'i', 'm', 'e', 's', 't', 'a', 'm', 'p']
}

pub open spec fn key_idle_time_limit() -> Seq<char> {
    seq!['i', 'd', 'l', 'e', '_', 't', 'i', 'm', 'e', '_', 'l', 'i', 'm', 'i', 't']
}

pub open spec fn key_command() -> Seq<char> {
    seq!['c', 'o', 'm', 'm', 'a', 'n', 'd']
}

pub open spec fn key_title() -> Seq<char> {
    seq!['t', 'i', 't', 'l', 'e']
}

pub open spec fn key_env() -> Seq<char> {
    seq!['e', 'n', 'v']
}

pub open spec fn key_theme() -> Seq<char> {
    seq!['t', 'h', 'e', 'm', 'e']
}

/// Appends the JSON text of `s`.
fn push_json(out: &mut Vec<char>, s: &str)
    ensures
        final(out)@ == old(out)@ + json_quote(s@),
{
    let j = json_string(s);
    append_str(out, j.as_str());
}

/// Appends `,"key":`.
fn push_member_key(out: &mut Vec<char>, key: &str)
    ensures
        final(out)@ == old(out)@ + seq![','] + json_quote(key@) + seq![':'],
{
    out.push(',');
    push_json(out, key);
    out.push(':');
    assert(out@ =~= old(out)@ + seq![','] + json_quote(key@) + seq![':']);
}

/// The lowercase hexadecimal digit for `d < 16`.
pub fn hex_char(d: u8) -> (c: char)
    requires
        d < 16,
    ensures
        c == crate::json::hex_digit(d as nat),
{
    if d < 10 {
        crate::text::char_from_ascii((0x30 + d) as u32)
    } else {
        crate::text::char_from_ascii((0x61 + d - 10) as u32)
    }
}

/// Appends `#rrggbb`.
fn push_hex_color(out: &mut Vec<char>, c: RGB8)
    ensures
        final(out)@ == old(out)@ + spec_hex_color(c),
{
    out.push('#');
    out.push(hex_char(c.r / 16));
    out.push(hex_char(c.r % 16));
    out.push(hex_char(c.g / 16));
    out.push(hex_char(c.g % 16));
    out.push(hex_char(c.b / 16));
    out.push(hex_char(c.b % 16));
    assert(out@ =~= old(out)@ + spec_hex_color(c));
}

/// The palette as `#rrggbb` triplets separated by `:`.
pub fn palette_text(palette: &Vec<RGB8>) -> (s: String)
    ensures
        s@ == spec_palette_text(palette@),
{
    let mut out: Vec<char> = Vec::new();
    let mut k: usize = 0;
    while k < palette.len()
        invariant
            k <= palette@.len(),
            out@ == spec_palette_text(palette@.take(k as int)),
        decreases palette@.len() - k,
    {
        assert(palette@.take(k + 1).drop_last() =~= palette@.take(k as int));
        if k > 0 {
            out.push(':');
        }
        push_hex_color(&mut out, palette[k]);
        k = k + 1;
        assert(out@ =~= spec_palette_text(palette@.take(k as int)));
    }
    assert(palette@.take(k as int) =~= palette@);
    string_from_chars(out.as_slice())
}

/// Appends the theme object.
fn push_theme_json(out: &mut Vec<char>, t: &TtyTheme)
    ensures
        final(out)@ == old(out)@ + spec_theme_json(*t),
{
    proof {
        reveal_strlit("fg");
        reveal_strlit("bg");
        reveal_strlit("palette");
        assert("fg"@ =~= seq!['f', 'g']);
        assert("bg"@ =~= seq!['b', 'g']);
        assert("palette"@ =~= seq!['p', 'a', 'l', 'e', 't', 't', 'e']);
    }
    out.push('{');
    push_json(out, "fg");
    out.push(':');
    let mut fg: Vec<char> = Vec::new();
    push_hex_color(&mut fg, t.fg);
    let fg = string_from_chars(fg.as_slice());
    push_json(out, fg.as_str());
    out.push(',');
    push_json(out, "bg");
    out.push(':');
    let mut bg: Vec<char> = Vec::new();
    push_hex_color(&mut bg, t.bg);
    let bg = string_from_chars(bg.as_slice());
    push_json(out, bg.as_str());
    out.push(',');
    push_json(out, "palette");
    out.push(':');
    let p = palette_text(&t.palette);
    push_json(out, p.as_str());
    out.push('}');
    assert(out@ =~= old(out)@ + spec_theme_json(*t));
}

/// Appends the members of the environment object.
fn push_env_members(out: &mut Vec<char>, env: &Vec<(String, String)>)
    ensures
        final(out)@ == old(out)@ + spec_env_members(env@),
{
    let ghost base = out@;
    let mut k: usize = 0;
    while k < env.len()
        invariant
            k <= env@.len(),
            out@ == base + spec_env_members(env@.take(k as int)),
        decreases env@.len() - k,
    {
        assert(env@.take(k + 1).drop_last() =~= env@.take(k as int));
        if k > 0 {
            out.push(',');
        }
        push_json(out, env[k].0.as_str());
        out.push(':');
        push_json(out, env[k].1.as_str());
        k = k + 1;
        assert(out@ =~= base + spec_env_members(env@.take(k as int)));
    }
    assert(env@.take(k as int) =~= env@);
}

/// The header object of a v2 file: version, width and height, then the
/// members that are present, in this order: timestamp, idle time limit (in
/// seconds), command, title, environment (when not empty) and theme.
pub open spec fn spec_header_json(h: Header) -> Seq<char> {
    seq!['{'] + json_quote(key_version()) + seq![':', '2'] + member(
        key_width(),
        spec_decimal(h.term_cols as nat),
    ) + member(key_height(), spec_decimal(h.term_rows as nat)) + opt_member(
        key_timestamp(),
        opt_number(h.timestamp),
    ) + opt_member(key_idle_time_limit(), opt_time(h.idle_time_limit)) + opt_member(
        key_command(),
        opt_text(h.command),
    ) + opt_member(key_title(), opt_text(h.title)) + opt_member(key_env(), opt_env(h.env))
        + opt_member(key_theme(), opt_theme(h.term_theme)) + seq!['}']
}

/// Appends an optional number member.
fn push_opt_number(out: &mut Vec<char>, key: &str, v: Option<u64>)
    ensures
        final(out)@ == old(out)@ + opt_member(key@, opt_number(v)),
{
    reveal(opt_member);
    reveal(member);
    match v {
        Some(t) => {
            push_member_key(out, key);
            push_decimal(out, t);
        },
        None => {},
    }
    assert(out@ =~= old(out)@ + opt_member(key@, opt_number(v)));
}

/// Appends an optional time member, in seconds.
fn push_opt_time(out: &mut Vec<char>, key: &str, v: Option<u64>)
    ensures
        final(out)@ == old(out)@ + opt_member(key@, opt_time(v)),
{
    reveal(opt_member);
    reveal(member);
    match v {
        Some(t) => {
            push_member_key(out, key);
            push_time(out, t);
        },
        None => {},
    }
    assert(out@ =~= old(out)@ + opt_member(key@, opt_time(v)));
}

/// Appends an optional string member.
fn push_opt_text(out: &mut Vec<char>, key: &str, v: &Option<String>)
    ensures
        final(out)@ == old(out)@ + opt_member(key@, opt_text(*v)),
{
    reveal(opt_member);
    reveal(member);
    match v {
        Some(t) => {
            push_member_key(out, key);
            push_json(out, t.as_str());
        },
        None => {},
    }
    assert(out@ =~= old(out)@ + opt_member(key@, opt_text(*v)));
}

/// Appends the environment member when there are variables.
fn push_opt_env(out: &mut Vec<char>, key: &str, v: &Option<Vec<(String, String)>>)
    ensures
        final(out)@ == old(out)@ + opt_member(key@, opt_env(*v)),
{
    reveal(opt_member);
    reveal(member);
    match v {
        Some(env) => {
            if env.len() > 0 {
                push_member_key(out, key);
                out.push('{');
                push_env_members(out, env);
                out.push('}');
            }
        },
        None => {},
    }
    assert(out@ =~= old(out)@ + opt_member(key@, opt_env(*v)));
}

/// Appends the theme member when there is a theme.
fn push_opt_theme(out: &mut Vec<char>, key: &str, v: &Option<TtyTheme>)
    ensures
        final(out)@ == old(out)@ + opt_member(key@, opt_theme(*v)),
{
    reveal(opt_member);
    reveal(member);
    match v {
        Some(t) => {
            push_member_key(out, key);
            push_theme_json(out, t);
        },
        None => {},
    }
    assert(out@ =~= old(out)@ + opt_member(key@, opt_theme(*v)));
}

/// The JSON text of the header.
pub fn header_json(h: &Header) -> (s: String)
    ensures
        s@ == spec_header_json(*h),
{
    proof {
        reveal_strlit("version");
        reveal_strlit("width");
        reveal_strlit("height");
        reveal_strlit("timestamp");
        reveal_strlit("idle_time_limit");
        reveal_strlit("command");
        reveal_strlit("title");
        reveal_strlit("env");
        reveal_strlit("theme");
        assert("version"@ =~= key_version());
        assert("width"@ =~= key_width());
        assert("height"@ =~= key_height());
        assert("timestamp"@ =~= key_timestamp());
        assert("idle_time_limit"@ =~= key_idle_time_limit());
        assert("command"@ =~= key_command());
        assert("title"@ =~= key_title());
        assert("env"@ =~= key_env());
        assert("theme"@ =~= key_theme());
    }
    let mut out: Vec<char> = Vec::new();
    out.push('{');
    push_json(&mut out, "version");
    out.push(':');
    out.push('2');
    let ghost a = out@;
    push_member_key(&mut out, "width");
    push_decimal(&mut out, h.term_cols as u64);
    push_member_key(&mut out, "height");
    push_decimal(&mut out, h.term_rows as u64);
    assert(out@ =~= a + member(key_width(), spec_decimal(h.term_cols as nat)) + member(
        key_height(),
        spec_decimal(h.term_rows as nat),
    )) by {
        reveal(member);
    }
    push_opt_number(&mut out, "timestamp", h.timestamp);
    push_opt_time(&mut out, "idle_time_limit", h.idle_time_limit);
    push_opt_text(&mut out, "command", &h.command);
    push_opt_text(&mut out, "title", &h.title);
    push_opt_env(&mut out, "env", &h.env);
    push_opt_theme(&mut out, "theme", &h.term_theme);
    out.push('}');
    assert(out@ =~= spec_header_json(*h));
    string_from_chars(out.as_slice())
}

} // verus!

verus! {

/// The code of an asciicast v2 event.
#[derive(Debug, Clone, Copy, PartialEq, Eq, Structural)]
pub enum V2EventCode {
    Output,
    Input,
    Resize,
    Marker,
    Other(char),
}

/// The event code a code text stands for: `o`, `i`, `r`, `m`, or any other
/// text by its first character; an empty text is no code.
pub open spec fn spec_event_code(s: Seq<char>) -> Result<V2EventCode, Seq<char>> {
    if s == seq!['o'] {
        Ok(V2EventCode::Output)
    } else if s == seq!['i'] {
        Ok(V2EventCode::Input)
    } else if s == seq!['r'] {
        Ok(V2EventCode::Resize)
    } else if s == seq!['m'] {
        Ok(V2EventCode::Marker)
    } else if s.len() == 0 {
        Err("missing event code"@)
    } else {
        Ok(V2EventCode::Other(s[0]))
    }
}

/// Reads the code of an event.
pub fn deserialize_code(value: &str) -> (r: Result<V2EventCode, String>)
    ensures
        match spec_event_code(value@) {
            Ok(c) => r == Ok::<V2EventCode, String>(c),
            Err(m) => r matches Err(e) && e@ == m,
        },
{
    let cs = chars_of(value);
    if cs.len() == 0 {
        return Err("missing event code".to_string());
    }
    if cs.len() == 1 {
        let c = cs[0];
        assert(value@ =~= seq![c]);
        if c == 'o' {
            return Ok(V2EventCode::Output);
        } else if c == 'i' {
            return Ok(V2EventCode::Input);
        } else if c == 'r' {
            return Ok(V2EventCode::Resize);
        } else if c == 'm' {
            return Ok(V2EventCode::Marker);
        }
    }
    assert(value@.len() != 1 ==> value@ != seq!['o'] && value@ != seq!['i'] && value@ != seq!['r']
        && value@ != seq!['m']);
    Ok(V2EventCode::Other(cs[0]))
}

/// The error of a resize value whose columns or rows do not parse.
pub open spec fn resize_error(which: Seq<char>, e: crate::text::IntErrorKind) -> Seq<char> {
    "invalid "@ + which + " value in resize event: "@ + crate::text::int_error_message(e)
}

/// What an event of this code with this data is: output, input and markers
/// carry the data; a resize reads `COLSxROWS`; another code keeps its
/// character and the data.
pub open spec fn event_data_ok(code: V2EventCode, data: Seq<char>, r: Result<EventData, String>) -> bool {
    match code {
        V2EventCode::Output => r matches Ok(EventData::Output(s)) && s@ == data,
        V2EventCode::Input => r matches Ok(EventData::Input(s)) && s@ == data,
        V2EventCode::Marker => r matches Ok(EventData::Marker(s)) && s@ == data,
        V2EventCode::Other(c) => r matches Ok(EventData::Other(c2, s)) && c2 == c && s@ == data,
        V2EventCode::Resize => match crate::text::split_once(data, 'x') {
            None => r matches Err(e) && e@ == "invalid size value in resize event"@,
            Some((cols, rows)) => match (
                crate::text::spec_parse_uint_result(cols, 65535),
                crate::text::spec_parse_uint_result(rows, 65535),
            ) {
                (Err(e1), _) => r matches Err(e) && e@ == resize_error("cols"@, e1),
                (Ok(_), Err(e2)) => r matches Err(e) && e@ == resize_error("rows"@, e2),
                (Ok(c), Ok(rw)) => r == Ok::<EventData, String>(EventData::Resize(c as u16, rw as u16)),
            },
        },
    }
}

fn resize_error_text(which: &str, e: crate::text::IntErrorKind) -> (s: String)
    ensures
        s@ == resize_error(which@, e),
{
    let mut out: Vec<char> = Vec::new();
    append_str(&mut out, "invalid ");
    append_str(&mut out, which);
    append_str(&mut out, " value in resize event: ");
    let m = crate::text::int_error_text(e);
    append_str(&mut out, m.as_str());
    assert(out@ =~= resize_error(which@, e));
    string_from_chars(out.as_slice())
}

/// The event data of a parsed event line.
pub fn event_data(code: V2EventCode, data: String) -> (r: Result<EventData, String>)
    ensures
        event_data_ok(code, data@, r),
{
    match code {
        V2EventCode::Output => Ok(EventData::Output(data)),
        V2EventCode::Input => Ok(EventData::Input(data)),
        V2EventCode::Marker => Ok(EventData::Marker(data)),
        V2EventCode::Other(c) => Ok(EventData::Other(c, data)),
        V2EventCode::Resize => {
            let cs = chars_of(data.as_str());
            match crate::text::split_once_char(cs.as_slice(), 'x') {
                None => Err("invalid size value in resize event".to_string()),
                Some((cols, rows)) => {
                    let c = match crate::text::parse_uint_result(cols.as_slice(), 65535) {
                        Ok(v) => v,
                        Err(e) => {
                            return Err(resize_error_text("cols", e));
                        },
                    };
                    let rw = match crate::text::parse_uint_result(rows.as_slice(), 65535) {
                        Ok(v) => v,
                        Err(e) => {
                            return Err(resize_error_text("rows", e));
                        },
                    };
                    proof {
                        crate::text::lemma_parse_uint_result_bounded(cols@, 65535);
                        crate::text::lemma_parse_uint_result_bounded(rows@, 65535);
                    }
                    Ok(EventData::Resize(c as u16, rw as u16))
                },
            }
        },
    }
}

/// The value `u8::from_str_radix` reads from two bytes in base 16: two
/// hexadecimal digits, or `+` and one.
pub open spec fn spec_hex_pair(x: u8, y: u8) -> Option<u8> {
    if x == 0x2b {
        crate::tty::inspect::spec_hex_value(y)
    } else {
        match (crate::tty::inspect::spec_hex_value(x), crate::tty::inspect::spec_hex_value(y)) {
            (Some(h), Some(l)) => Some((16 * h + l) as u8),
            _ => None,
        }
    }
}

/// The color of a `#rrggbb` text, given as its UTF-8 bytes: seven bytes,
/// the first ignored, then three pairs read by `spec_hex_pair`.
pub open spec fn spec_hex_color_bytes(b: Seq<u8>) -> Option<RGB8> {
    if b.len() != 7 {
        None
    } else {
        match (spec_hex_pair(b[1], b[2]), spec_hex_pair(b[3], b[4]), spec_hex_pair(b[5], b[6])) {
            (Some(r), Some(g), Some(bl)) => Some(RGB8 { r, g, b: bl }),
            _ => None,
        }
    }
}

/// Whether reading a color from these bytes cuts no character in two:
/// the pairs are taken at byte positions 1, 3 and 5, and the third only
/// when the first two read.
pub open spec fn hex_color_cuttable(b: Seq<u8>) -> bool {
    b.len() == 7 ==> {
        &&& vstd::utf8::is_char_boundary(b, 1)
        &&& vstd::utf8::is_char_boundary(b, 3)
        &&& spec_hex_pair(b[1], b[2]) is Some ==> vstd::utf8::is_char_boundary(b, 5)
    }
}

fn hex_pair(x: u8, y: u8) -> (r: Option<u8>)
    ensures
        r == spec_hex_pair(x, y),
{
    if x == 0x2b {
        crate::tty::inspect::hex_value(y)
    } else {
        match (crate::tty::inspect::hex_value(x), crate::tty::inspect::hex_value(y)) {
            (Some(h), Some(l)) => Some(16 * h + l),
            _ => None,
        }
    }
}

/// Reads a `#rrggbb` color.
pub fn parse_hex_color(rgb: &str) -> (r: Option<RGB8>)
    requires
        hex_color_cuttable(encode_utf8(rgb@)),
    ensures
        r == spec_hex_color_bytes(encode_utf8(rgb@)),
{
    let b = rgb.as_bytes();
    if b.len() != 7 {
        return None;
    }
    let r = match hex_pair(b[1], b[2]) {
        Some(v) => v,
        None => {
            return None;
        },
    };
    let g = match hex_pair(b[3], b[4]) {
        Some(v) => v,
        None => {
            return None;
        },
    };
    let bl = match hex_pair(b[5], b[6]) {
        Some(v) => v,
        None => {
            return None;
        },
    };
    Some(RGB8 { r, g, b: bl })
}

/// The colors of the pieces that read as one, in order.
pub open spec fn palette_colors(parts: Seq<Seq<char>>) -> Seq<RGB8>
    decreases parts.len(),
{
    if parts.len() == 0 {
        Seq::empty()
    } else {
        let rest = palette_colors(parts.drop_last());
        match spec_hex_color_bytes(encode_utf8(parts.last())) {
            Some(c) => rest.push(c),
            None => rest,
        }
    }
}

/// A palette: the colors of the `:`-separated pieces that read as one;
/// eight are repeated to make sixteen; any other number than eight or
/// sixteen is an error.
pub open spec fn spec_palette(value: Seq<char>) -> Result<Seq<RGB8>, Seq<char>> {
    let colors = palette_colors(crate::text::split_on(value, ':'));
    if colors.len() == 8 {
        Ok(colors + colors)
    } else if colors.len() == 16 {
        Ok(colors)
    } else {
        Err("expected 8 or 16 hex triplets"@)
    }
}

/// Reads a palette.
pub fn deserialize_palette(value: &str) -> (r: Result<Vec<RGB8>, String>)
    requires
        forall|i: int|
            0 <= i < crate::text::split_on(value@, ':').len() ==> hex_color_cuttable(
                encode_utf8(#[trigger] crate::text::split_on(value@, ':')[i]),
            ),
    ensures
        match spec_palette(value@) {
            Ok(cs) => r matches Ok(v) && v@ == cs,
            Err(m) => r matches Err(e) && e@ == m,
        },
{
    let cs = chars_of(value);
    let parts = crate::text::split_on_char(cs.as_slice(), ':');
    let ghost ps = crate::text::split_on(value@, ':');
    let mut colors: Vec<RGB8> = Vec::new();
    let mut i: usize = 0;
    while i < parts.len()
        invariant
            cs@ == value@,
            ps == crate::text::split_on(value@, ':'),
            parts@.len() == ps.len(),
            forall|k: int| 0 <= k < parts@.len() ==> (#[trigger] parts@[k])@ == ps[k],
            forall|k: int| 0 <= k < ps.len() ==> hex_color_cuttable(encode_utf8(#[trigger] ps[k])),
            i <= parts.len(),
            colors@ == palette_colors(ps.take(i as int)),
        decreases parts.len() - i,
    {
        let s = string_from_chars(parts[i].as_slice());
        assert(s@ == ps[i as int]);
        let c = parse_hex_color(s.as_str());
        proof {
            let t = ps.take(i + 1);
            assert(t.drop_last() =~= ps.take(i as int));
            assert(t.last() == ps[i as int]);
        }
        match c {
            Some(c) => colors.push(c),
            None => {},
        }
        i = i + 1;
    }
    assert(ps.take(i as int) =~= ps);
    let len = colors.len();
    if len == 8 {
        let mut doubled = colors.clone();
        let mut j: usize = 0;
        while j < 8
            invariant
                colors@.len() == 8,
                0 <= j <= 8,
                doubled@ == colors@ + colors@.take(j as int),
            decreases 8 - j,
        {
            doubled.push(colors[j]);
            j = j + 1;
            assert(doubled@ =~= colors@ + colors@.take(j as int));
        }
        assert(colors@.take(8) =~= colors@);
        Ok(doubled)
    } else if len != 16 {
        Err("expected 8 or 16 hex triplets".to_string())
    } else {
        Ok(colors)
    }
}

} // verus!

verus! {

/// The character of a digit is that digit.
proof fn lemma_digit_char(d: nat)
    requires
        d < 10,
    ensures
        digit_char(d) as u32 == 0x30 + d,
        '0' <= digit_char(d) <= '9',
{
    assert(((0x30 + d) as char) as u32 == 0x30 + d);
}

/// The decimal text of a number is digits writing that number.
pub(crate) proof fn lemma_decimal_digits(n: nat)
    ensures
        spec_decimal(n).len() >= 1,
        all_digit_chars(spec_decimal(n)),
        digit_chars_value(spec_decimal(n)) == n,
    decreases n,
{
    lemma_digit_char(n % 10);
    let s = spec_decimal(n);
    if n >= 10 {
        lemma_decimal_digits(n / 10);
        assert(s.drop_last() =~= spec_decimal(n / 10));
        assert(s.last() == digit_char(n % 10));
        assert(forall|i: int| 0 <= i < s.len() - 1 ==> s[i] == spec_decimal(n / 10)[i]);
        assert(digit_chars_value(s) == digit_chars_value(s.drop_last()) * 10 + (s.last() as u32
            - 0x30) as nat);
        assert(n == (n / 10) * 10 + n % 10) by (nonlinear_arith);
    } else {
        assert(s.drop_last() =~= Seq::<char>::empty());
        assert(digit_chars_value(s) == digit_chars_value(s.drop_last()) * 10 + (s.last() as u32
            - 0x30) as nat);
    }
}

/// Digits that write at most `max` read as their value.
pub(crate) proof fn lemma_digits_parse(d: Seq<char>, max: nat)
    requires
        d.len() >= 1,
        all_digit_chars(d),
        digit_chars_value(d) <= max,
    ensures
        spec_parse_uint_result(d, max) == Ok::<nat, IntErrorKind>(digit_chars_value(d)),
{
    assert(d != seq!['+']) by {
        assert('0' <= d[0] <= '9');
    }
    lemma_no_failure(d, max, 0);
}

/// No digit of a run that writes at most `max` fails the scan.
proof fn lemma_no_failure(d: Seq<char>, max: nat, k: int)
    requires
        0 <= k <= d.len(),
        all_digit_chars(d),
        digit_chars_value(d) <= max,
    ensures
        first_failure(d, max, k) is None,
    decreases d.len() - k,
{
    if k < d.len() {
        lemma_digit_chars_prefix_le(d, k + 1);
        lemma_no_failure(d, max, k + 1);
    }
}

/// The six digits of a fraction are digits writing it.
pub(crate) proof fn lemma_six_digits(f: nat)
    requires
        f < 1_000_000,
    ensures
        six_digits(f).len() == 6,
        all_digit_chars(six_digits(f)),
        digit_chars_value(six_digits(f)) == f,
{
    let s = six_digits(f);
    lemma_digit_char(f / 100000 % 10);
    lemma_digit_char(f / 10000 % 10);
    lemma_digit_char(f / 1000 % 10);
    lemma_digit_char(f / 100 % 10);
    lemma_digit_char(f / 10 % 10);
    lemma_digit_char(f % 10);
    assert(s.take(1).drop_last() =~= Seq::<char>::empty());
    assert(s.take(2).drop_last() =~= s.take(1));
    assert(s.take(3).drop_last() =~= s.take(2));
    assert(s.take(4).drop_last() =~= s.take(3));
    assert(s.take(5).drop_last() =~= s.take(4));
    assert(s.drop_last() =~= s.take(5));
    assert(f / 100000 < 10);
    assert(f / 10000 == (f / 100000) * 10 + f / 10000 % 10) by (nonlinear_arith);
    assert(f / 1000 == (f / 10000) * 10 + f / 1000 % 10) by (nonlinear_arith);
    assert(f / 100 == (f / 1000) * 10 + f / 100 % 10) by (nonlinear_arith);
    assert(f / 10 == (f / 100) * 10 + f / 10 % 10) by (nonlinear_arith);
    assert(f == (f / 10) * 10 + f % 10) by (nonlinear_arith);
    assert(f / 100000 % 10 == f / 100000);
    assert(s.take(1).last() == s[0]);
    assert(digit_chars_value(s.take(1)) == digit_chars_value(s.take(1).drop_last()) * 10 + (
    s.take(1).last() as u32 - 0x30) as nat);
    assert(digit_chars_value(s.take(1)) == f / 100000);
    assert(digit_chars_value(s.take(2)) == f / 10000);
    assert(digit_chars_value(s.take(3)) == f / 1000);
    assert(digit_chars_value(s.take(4)) == f / 100);
    assert(digit_chars_value(s.take(5)) == f / 10);
}

/// Dropping trailing zeros keeps a prefix of at least one character, and
/// only zeros were dropped.
proof fn lemma_trim_zeros(s: Seq<char>)
    requires
        s.len() >= 1,
    ensures
        1 <= trim_zeros(s).len() <= s.len(),
        trim_zeros(s) == s.take(trim_zeros(s).len() as int),
        forall|i: int| trim_zeros(s).len() <= i < s.len() ==> s[i] == '0',
    decreases s.len(),
{
    if s.len() > 1 && s.last() == '0' {
        lemma_trim_zeros(s.drop_last());
        let t = trim_zeros(s.drop_last());
        assert(s.drop_last().take(t.len() as int) =~= s.take(t.len() as int));
        assert forall|i: int| t.len() <= i < s.len() implies s[i] == '0' by {
            if i < s.len() - 1 {
                assert(s[i] == s.drop_last()[i]);
            }
        }
    } else {
        assert(s.take(s.len() as int) =~= s);
    }
}

/// The first `.` of `a . b`, where `a` has none, splits it into `a` and
/// `b` when `b` has none either.
pub(crate) proof fn lemma_split_dot(a: Seq<char>, b: Seq<char>)
    requires
        forall|i: int| 0 <= i < a.len() ==> a[i] != '.',
        forall|i: int| 0 <= i < b.len() ==> b[i] != '.',
    ensures
        split_on(a + seq!['.'] + b, '.') == seq![a, b],
{
    let s = a + seq!['.'] + b;
    lemma_index_of(s, '.');
    assert(s[a.len() as int] == '.');
    match index_of(s, '.') {
        Some(i) => {
            if i < a.len() {
                assert(s[i] == a[i]);
            }
            assert(i == a.len());
        },
        None => {},
    }
    assert(s.take(a.len() as int) =~= a);
    assert(s.skip(a.len() as int + 1) =~= b);
    lemma_index_of(b, '.');
    assert(index_of(b, '.') is None);
    assert(split_on(b, '.') == seq![b]);
}

/// Digits have no whitespace to trim.
pub(crate) proof fn lemma_trim_digits(s: Seq<char>)
    requires
        s.len() >= 1,
        all_digit_chars(s),
    ensures
        spec_trim(s) == s,
{
    assert('0' <= s[0] <= '9');
    assert('0' <= s.last() <= '9');
    assert(trim_start(s) == s);
    assert(trim_end(s) == s);
}

/// What the reader makes of a time the writer wrote is that time: the text
/// of `t` microseconds as seconds reads back as `t`.
pub proof fn lemma_time_text_roundtrip(t: u64)
    ensures
        spec_time_text(spec_format_time(t as nat)) == Ok::<int, Seq<char>>(t as int),
{
    let secs = (t / 1_000_000) as nat;
    let f = (t % 1_000_000) as nat;
    let d = spec_decimal(secs);
    let six = six_digits(f);
    let frac = trim_zeros(six);
    lemma_decimal_digits(secs);
    lemma_six_digits(f);
    lemma_trim_zeros(six);
    assert(spec_format_time(t as nat) == d + seq!['.'] + frac);
    assert forall|i: int| 0 <= i < d.len() implies d[i] != '.' by {
        assert('0' <= d[i] <= '9');
    }
    assert forall|i: int| 0 <= i < frac.len() implies frac[i] != '.' && '0' <= frac[i] <= '9' by {
        assert(frac[i] == six[i]);
        assert('0' <= six[i] <= '9');
    }
    lemma_split_dot(d, frac);
    lemma_trim_digits(frac);
    assert(micros_text(frac) =~= six);
    lemma_digits_parse(d, u64::MAX as nat);
    lemma_digits_parse(six, u64::MAX as nat);
}

} // verus!

verus! {

/// The text an event line's data string holds: the output, input, marker
/// or other text itself, a resize as `COLSxROWS`, an exit status in
/// decimal.
pub open spec fn event_text(data: EventData) -> Seq<char> {
    match data {
        EventData::Output(d) => d@,
        EventData::Input(d) => d@,
        EventData::Resize(cols, rows) => spec_decimal(cols as nat) + seq!['x'] + spec_decimal(
            rows as nat,
        ),
        EventData::Marker(d) => d@,
        EventData::Exit(status) => spec_signed_decimal(status as int),
        EventData::Other(_, d) => d@,
    }
}

/// Whether a read event data is the written one: the same kind with the
/// same text, or the same size.
pub open spec fn same_event_data(r: Result<EventData, String>, d: EventData) -> bool {
    match (r, d) {
        (Ok(EventData::Output(a)), EventData::Output(b)) => a@ == b@,
        (Ok(EventData::Input(a)), EventData::Input(b)) => a@ == b@,
        (Ok(EventData::Marker(a)), EventData::Marker(b)) => a@ == b@,
        (Ok(EventData::Resize(c1, r1)), EventData::Resize(c2, r2)) => c1 == c2 && r1 == r2,
        (Ok(EventData::Other(c1, a)), EventData::Other(c2, b)) => c1 == c2 && a@ == b@,
        _ => false,
    }
}

/// The first `x` of `a x b`, where `a` has none, splits it into `a` and `b`.
proof fn lemma_split_once_x(a: Seq<char>, b: Seq<char>)
    requires
        forall|i: int| 0 <= i < a.len() ==> a[i] != 'x',
    ensures
        split_once(a + seq!['x'] + b, 'x') == Some((a, b)),
{
    let s = a + seq!['x'] + b;
    lemma_index_of(s, 'x');
    assert(s[a.len() as int] == 'x');
    match index_of(s, 'x') {
        Some(i) => {
            if i < a.len() {
                assert(s[i] == a[i]);
            }
            assert(i == a.len());
        },
        None => {},
    }
    assert(s.take(a.len() as int) =~= a);
    assert(s.skip(a.len() as int + 1) =~= b);
}

/// What the reader makes of the code and data text the writer put in an
/// event line is the event's data again: the code reads as the event's
/// kind, and the data text reads back as the same text or size. Exit
/// events, which the format has no reader code for, and events of another
/// kind whose code is one of `o`, `i`, `r`, `m`, are left out.
pub proof fn lemma_event_data_roundtrip(data: EventData)
    requires
        !(data is Exit),
        data matches EventData::Other(c, _) ==> c != 'o' && c != 'i' && c != 'r' && c != 'm',
    ensures
        event_code_data(data).1 == json_quote(event_text(data)),
        spec_event_code(seq![event_code_data(data).0]) matches Ok(code) && forall|
            r: Result<EventData, String>,
        | #[trigger] event_data_ok(code, event_text(data), r) ==> same_event_data(r, data),
{
    if let EventData::Resize(cols, rows) = data {
        let a = spec_decimal(cols as nat);
        let b = spec_decimal(rows as nat);
        lemma_decimal_digits(cols as nat);
        lemma_decimal_digits(rows as nat);
        assert forall|i: int| 0 <= i < a.len() implies a[i] != 'x' by {
            assert('0' <= a[i] <= '9');
        }
        lemma_split_once_x(a, b);
        lemma_digits_parse(a, 65535);
        lemma_digits_parse(b, 65535);
        assert(event_text(data) == a + seq!['x'] + b);
    }
    let code = match data {
        EventData::Output(_) => V2EventCode::Output,
        EventData::Input(_) => V2EventCode::Input,
        EventData::Resize(..) => V2EventCode::Resize,
        EventData::Marker(_) => V2EventCode::Marker,
        EventData::Other(c, _) => V2EventCode::Other(c),
        EventData::Exit(_) => V2EventCode::Output,
    };
    assert(seq![event_code_data(data).0][0] == event_code_data(data).0);
    assert(seq!['o'][0] == 'o' && seq!['i'][0] == 'i' && seq!['r'][0] == 'r' && seq!['m'][0]
        == 'm');
    assert(spec_event_code(seq![event_code_data(data).0]) == Ok::<V2EventCode, Seq<char>>(code));
    assert forall|r: Result<EventData, String>| #[trigger]
        event_data_ok(code, event_text(data), r) implies same_event_data(r, data) by {
    }
}

} // verus!

verus! {

/// A hexadecimal digit is the ASCII character that reads back as it.
proof fn lemma_hex_digit_reads_back(d: nat)
    requires
        d < 16,
    ensures
        '\0' <= crate::json::hex_digit(d) <= '\u{7f}',
        (crate::json::hex_digit(d) as u8) != 0x2b,
        crate::tty::inspect::spec_hex_value(crate::json::hex_digit(d) as u8) == Some(d as u8),
{
    if d < 10 {
        assert(((0x30 + d) as char) as u32 == 0x30 + d);
    } else {
        assert(((0x61 + d - 10) as char) as u32 == 0x61 + d - 10);
    }
}

/// Reading a color back from its `#rrggbb` text gives the color.
pub proof fn lemma_hex_color_roundtrip(c: RGB8)
    ensures
        spec_hex_color_bytes(encode_utf8(spec_hex_color(c))) == Some(c),
{
    let s = spec_hex_color(c);
    lemma_hex_digit_reads_back((c.r / 16) as nat);
    lemma_hex_digit_reads_back((c.r % 16) as nat);
    lemma_hex_digit_reads_back((c.g / 16) as nat);
    lemma_hex_digit_reads_back((c.g % 16) as nat);
    lemma_hex_digit_reads_back((c.b / 16) as nat);
    lemma_hex_digit_reads_back((c.b % 16) as nat);
    assert(vstd::utf8::is_ascii_chars(s));
    vstd::utf8::is_ascii_chars_encode_utf8(s);
    let b = encode_utf8(s);
    assert(b[1] == s[1] as u8 && b[2] == s[2] as u8 && b[3] == s[3] as u8);
    assert(b[4] == s[4] as u8 && b[5] == s[5] as u8 && b[6] == s[6] as u8);
    assert(16 * (c.r / 16) + c.r % 16 == c.r) by (nonlinear_arith);
    assert(16 * (c.g / 16) + c.g % 16 == c.g) by (nonlinear_arith);
    assert(16 * (c.b / 16) + c.b % 16 == c.b) by (nonlinear_arith);
}

} // verus!

//! Parsing of the terminal's replies to the XTVERSION, OSC 10/11/4 color and
//! DA queries, from which the terminal's version and color theme are learned.
use vstd::prelude::*;
use super::{RGB8, TtyTheme};
use crate::util::{append_bytes, byte_range};

verus! {

/// The value of a hexadecimal digit.
pub open spec fn spec_hex_value(b: u8) -> Option<u8> {
    if 0x30 <= b <= 0x39 {
        Some((b - 0x30) as u8)
    } else if 0x61 <= b <= 0x66 {
        Some((b - 0x61 + 10) as u8)
    } else if 0x41 <= b <= 0x46 {
        Some((b - 0x41 + 10) as u8)
    } else {
        None
    }
}

/// The byte that the first two hexadecimal digits of `s` stand for; further
/// digits are ignored.
pub open spec fn spec_parse_hex_byte(s: Seq<u8>) -> Option<u8> {
    if s.len() < 2 {
        None
    } else {
        match (spec_hex_value(s[0]), spec_hex_value(s[1])) {
            (Some(hi), Some(lo)) => Some((hi * 16 + lo) as u8),
            _ => None,
        }
    }
}

/// The position of the first `sep` at or after `start`, or the length of `s`.
pub open spec fn field_end(s: Seq<u8>, sep: u8, start: int) -> int
    decreases s.len() - start,
{
    if start >= s.len() {
        s.len() as int
    } else if s[start] == sep {
        start
    } else {
        field_end(s, sep, start + 1)
    }
}

pub open spec fn rgb_prefix() -> Seq<u8> {
    seq![0x72u8, 0x67, 0x62, 0x3a]
}

/// Whether `s` begins with `p`.
pub open spec fn has_prefix(s: Seq<u8>, p: Seq<u8>) -> bool {
    p.len() <= s.len() && s.take(p.len() as int) == p
}

/// An X11 color specification `rgb:R/G/B`: at least three `/`-separated
/// components after the `rgb:` prefix, each giving a byte by its first two
/// hexadecimal digits.
pub open spec fn spec_parse_rgb_color(rgb: Seq<u8>) -> Option<RGB8> {
    if !has_prefix(rgb, rgb_prefix()) {
        None
    } else {
        let s = rgb.skip(4);
        let e1 = field_end(s, 0x2f, 0);
        let e2 = field_end(s, 0x2f, e1 + 1);
        let e3 = field_end(s, 0x2f, e2 + 1);
        if e1 >= s.len() || e2 >= s.len() {
            None
        } else {
            match (
                spec_parse_hex_byte(s.subrange(0, e1)),
                spec_parse_hex_byte(s.subrange(e1 + 1, e2)),
                spec_parse_hex_byte(s.subrange(e2 + 1, e3)),
            ) {
                (Some(r), Some(g), Some(b)) => Some(RGB8 { r, g, b }),
                _ => None,
            }
        }
    }
}

/// Whether every byte of `s` is an ASCII decimal digit.
pub open spec fn all_digits(s: Seq<u8>) -> bool {
    forall|i: int| 0 <= i < s.len() ==> 0x30 <= #[trigger] s[i] <= 0x39
}

/// The number that the decimal digits `s` write.
pub open spec fn digits_value(s: Seq<u8>) -> nat
    decreases s.len(),
{
    if s.len() == 0 {
        0
    } else {
        digits_value(s.drop_last()) * 10 + (s.last() - 0x30) as nat
    }
}

/// What `u8::from_str` gives for `s`: an optional `+`, then at least one
/// decimal digit and nothing else, with a value of at most 255.
pub open spec fn spec_parse_u8(s: Seq<u8>) -> Option<u8> {
    let d = if s.len() > 0 && s[0] == 0x2b { s.skip(1) } else { s };
    if d.len() == 0 || !all_digits(d) || digits_value(d) > 255 {
        None
    } else {
        Some(digits_value(d) as u8)
    }
}

/// The palette entries of an OSC 4 reply body `idx;color;idx;color...`, in
/// order, from the `;`-separated field that starts at `start`. Parsing stops
/// at the first index that is not a `u8` or that has no color after it;
/// entries with an index of 16 or more, or an unreadable color, are skipped.
pub open spec fn spec_palette_entries_from(s: Seq<u8>, start: int) -> Seq<(usize, RGB8)>
    decreases s.len() + 1 - start,
{
    if start < 0 || start > s.len() {
        seq![]
    } else {
        let idx_end = field_end(s, 0x3b, start);
        match spec_parse_u8(s.subrange(start, idx_end)) {
            None => seq![],
            Some(idx) => {
                if idx_end >= s.len() {
                    seq![]
                } else {
                    let col_end = field_end(s, 0x3b, idx_end + 1);
                    proof {
                        lemma_field_end_bounds(s, 0x3b, start);
                        lemma_field_end_bounds(s, 0x3b, idx_end + 1);
                    }
                    let rest = spec_palette_entries_from(s, col_end + 1);
                    match spec_parse_rgb_color(s.subrange(idx_end + 1, col_end)) {
                        Some(c) if idx < 16 => seq![(idx as usize, c)] + rest,
                        _ => rest,
                    }
                }
            }
        }
    }
}

/// The palette entries of a whole OSC 4 reply body.
pub open spec fn spec_palette_entries(s: Seq<u8>) -> Seq<(usize, RGB8)> {
    spec_palette_entries_from(s, 0)
}

/// `field_end` lies between `start` and the length, and no `sep` comes
/// before it.
pub proof fn lemma_field_end_bounds(s: Seq<u8>, sep: u8, start: int)
    requires
        0 <= start <= s.len(),
    ensures
        start <= field_end(s, sep, start) <= s.len(),
        field_end(s, sep, start) < s.len() ==> s[field_end(s, sep, start)] == sep,
        forall|j: int| start <= j < field_end(s, sep, start) ==> s[j] != sep,
    decreases s.len() - start,
{
    if start < s.len() && s[start] != sep {
        lemma_field_end_bounds(s, sep, start + 1);
    }
}

/// The value of a hexadecimal digit.
pub fn hex_value(byte: u8) -> (r: Option<u8>)
    ensures
        r == spec_hex_value(byte),
{
    if 0x30 <= byte && byte <= 0x39 {
        Some(byte - 0x30)
    } else if 0x61 <= byte && byte <= 0x66 {
        Some(byte - 0x61 + 10)
    } else if 0x41 <= byte && byte <= 0x46 {
        Some(byte - 0x41 + 10)
    } else {
        None
    }
}

/// The byte written by the first two hexadecimal digits of `bytes`.
pub fn parse_hex_byte(bytes: &[u8]) -> (r: Option<u8>)
    ensures
        r == spec_parse_hex_byte(bytes@),
{
    if bytes.len() < 2 {
        return None;
    }
    let hi = match hex_value(bytes[0]) {
        Some(v) => v,
        None => {
            return None;
        },
    };
    let lo = match hex_value(bytes[1]) {
        Some(v) => v,
        None => {
            return None;
        },
    };
    let r: u8 = (hi << 4) | lo;
    assert(r == hi * 16 + lo) by (bit_vector)
        requires
            hi < 16,
            lo < 16,
            r == (hi << 4) | lo;
    Some(r)
}

/// The position of the first `sep` at or after `start`, or the length.
pub fn find_field_end(s: &[u8], sep: u8, start: usize) -> (r: usize)
    requires
        start <= s.len(),
    ensures
        r == field_end(s@, sep, start as int),
{
    let mut i: usize = start;
    while i < s.len() && s[i] != sep
        invariant
            start <= i <= s.len(),
            field_end(s@, sep, start as int) == field_end(s@, sep, i as int),
        decreases s.len() - i,
    {
        i = i + 1;
    }
    i
}

/// Whether `s` begins with `p`.
pub fn starts_with(s: &[u8], p: &[u8]) -> (r: bool)
    ensures
        r == has_prefix(s@, p@),
{
    if p.len() > s.len() {
        return false;
    }
    let mut i: usize = 0;
    while i < p.len()
        invariant
            p.len() <= s.len(),
            i <= p.len(),
            forall|k: int| 0 <= k < i ==> s@[k] == p@[k],
        decreases p.len() - i,
    {
        if s[i] != p[i] {
            assert(s@.take(p@.len() as int)[i as int] != p@[i as int]);
            return false;
        }
        i = i + 1;
    }
    assert(s@.take(p@.len() as int) =~= p@);
    true
}

/// Parses an X11 `rgb:R/G/B` color specification.
pub fn parse_rgb_color(rgb: &[u8]) -> (r: Option<RGB8>)
    ensures
        r == spec_parse_rgb_color(rgb@),
{
    let prefix: Vec<u8> = vec![0x72u8, 0x67, 0x62, 0x3a];
    assert(prefix@ =~= rgb_prefix());
    if !starts_with(rgb, prefix.as_slice()) {
        return None;
    }
    let s = byte_range(rgb, 4, rgb.len());
    assert(s@ =~= rgb@.skip(4));
    let e1 = find_field_end(s.as_slice(), 0x2f, 0);
    proof {
        lemma_field_end_bounds(s@, 0x2f, 0);
    }
    if e1 >= s.len() {
        return None;
    }
    let e2 = find_field_end(s.as_slice(), 0x2f, e1 + 1);
    proof {
        lemma_field_end_bounds(s@, 0x2f, e1 + 1);
    }
    if e2 >= s.len() {
        return None;
    }
    let e3 = find_field_end(s.as_slice(), 0x2f, e2 + 1);
    proof {
        lemma_field_end_bounds(s@, 0x2f, e2 + 1);
    }
    let rh = byte_range(s.as_slice(), 0, e1);
    let gh = byte_range(s.as_slice(), e1 + 1, e2);
    let bh = byte_range(s.as_slice(), e2 + 1, e3);
    let r = match parse_hex_byte(rh.as_slice()) {
        Some(v) => v,
        None => {
            return None;
        },
    };
    let g = match parse_hex_byte(gh.as_slice()) {
        Some(v) => v,
        None => {
            return None;
        },
    };
    let b = match parse_hex_byte(bh.as_slice()) {
        Some(v) => v,
        None => {
            return None;
        },
    };
    Some(RGB8 { r, g, b })
}

/// What `u8::from_str` gives for the text `s`.
pub fn parse_u8(s: &[u8]) -> (r: Option<u8>)
    ensures
        r == spec_parse_u8(s@),
{
    let start: usize = if s.len() > 0 && s[0] == 0x2b { 1 } else { 0 };
    let ghost d = if s@.len() > 0 && s@[0] == 0x2b { s@.skip(1) } else { s@ };
    assert(d =~= s@.skip(start as int));
    if start == s.len() {
        return None;
    }
    let mut value: u32 = 0;
    let mut i: usize = start;
    while i < s.len()
        invariant
            start <= i <= s.len(),
            d == s@.skip(start as int),
            d == (if s@.len() > 0 && s@[0] == 0x2b { s@.skip(1) } else { s@ }),
            all_digits(d.take(i - start)),
            value == digits_value(d.take(i - start)),
            value <= 255,
        decreases s.len() - i,
    {
        let c = s[i];
        assert(d.take(i + 1 - start).drop_last() =~= d.take(i - start));
        if c < 0x30 || c > 0x39 {
            assert(!all_digits(d)) by {
                assert(d[i - start] == c);
            }
            return None;
        }
        let next: u32 = value * 10 + (c - 0x30) as u32;
        assert(all_digits(d.take(i + 1 - start)));
        if next > 255 {
            proof {
                if all_digits(d) {
                    lemma_digits_value_prefix_le(d, i + 1 - start);
                }
            }
            return None;
        }
        value = next;
        i = i + 1;
    }
    assert(d.take(i - start) =~= d);
    Some(value as u8)
}

/// A longer run of digits has at least the value of a prefix of it.
pub proof fn lemma_digits_value_prefix_le(s: Seq<u8>, k: int)
    requires
        0 <= k <= s.len(),
        all_digits(s),
    ensures
        digits_value(s.take(k)) <= digits_value(s),
    decreases s.len(),
{
    if k < s.len() {
        assert(s.drop_last().take(k) =~= s.take(k));
        lemma_digits_value_prefix_le(s.drop_last(), k);
        assert(all_digits(s.drop_last()));
    } else {
        assert(s.take(k) =~= s);
    }
}

/// Parses the `idx;color;...` body of an OSC 4 reply into palette entries.
pub fn parse_palette_entries(reply: &[u8]) -> (entries: Vec<(usize, RGB8)>)
    ensures
        entries@ == spec_palette_entries(reply@),
{
    let mut entries: Vec<(usize, RGB8)> = Vec::new();
    let mut start: usize = 0;
    let len = reply.len();
    while start <= len
        invariant
            len == reply@.len(),
            start <= len + 1,
            entries@ + spec_palette_entries_from(reply@, start as int) == spec_palette_entries(
                reply@,
            ),
        decreases len + 1 - start,
    {
        let idx_end = find_field_end(reply, 0x3b, start);
        proof {
            lemma_field_end_bounds(reply@, 0x3b, start as int);
        }
        let idx_bytes = byte_range(reply, start, idx_end);
        let idx = match parse_u8(idx_bytes.as_slice()) {
            Some(v) => v,
            None => {
                assert(entries@ =~= entries@ + spec_palette_entries_from(reply@, start as int));
                return entries;
            },
        };
        if idx_end >= len {
            assert(entries@ =~= entries@ + spec_palette_entries_from(reply@, start as int));
            return entries;
        }
        let col_end = find_field_end(reply, 0x3b, idx_end + 1);
        proof {
            lemma_field_end_bounds(reply@, 0x3b, idx_end + 1);
        }
        let color_bytes = byte_range(reply, idx_end + 1, col_end);
        let ghost before = entries@;
        if idx < 16 {
            match parse_rgb_color(color_bytes.as_slice()) {
                Some(c) => {
                    entries.push((idx as usize, c));
                },
                None => {},
            }
        }
        assert(entries@ + spec_palette_entries_from(reply@, col_end + 1) =~= before
            + spec_palette_entries_from(reply@, start as int));
        if col_end >= len {
            assert(entries@ =~= entries@ + spec_palette_entries_from(reply@, col_end + 1));
            return entries;
        }
        start = col_end + 1;
    }
    assert(entries@ =~= entries@ + spec_palette_entries_from(reply@, start as int));
    entries
}

} // verus!

verus! {

pub open spec fn osc10() -> Seq<u8> {
    seq![0x1bu8, 0x5d, 0x31, 0x30, 0x3b]
}

pub open spec fn osc11() -> Seq<u8> {
    seq![0x1bu8, 0x5d, 0x31, 0x31, 0x3b]
}

pub open spec fn osc4() -> Seq<u8> {
    seq![0x1bu8, 0x5d, 0x34, 0x3b]
}

pub open spec fn dcs() -> Seq<u8> {
    seq![0x1bu8, 0x50]
}

pub open spec fn dec_private() -> Seq<u8> {
    seq![0x1bu8, 0x5b, 0x3f]
}

pub open spec fn xtversion_selector() -> Seq<u8> {
    seq![0x3eu8, 0x7c]
}

/// How a byte string relates to the start of an expected sequence.
pub enum PrefixMatch {
    /// The string begins with the whole sequence.
    Full,
    /// The string is a proper beginning of the sequence: more bytes may
    /// complete it.
    Partial,
}

pub open spec fn spec_match_seq_prefix(a: Seq<u8>, b: Seq<u8>) -> Option<PrefixMatch> {
    if has_prefix(a, b) {
        Some(PrefixMatch::Full)
    } else if has_prefix(b, a) {
        Some(PrefixMatch::Partial)
    } else {
        None
    }
}

/// The end of an OSC string body at or after `i`: the position and length of
/// its terminator, BEL or ST (`ESC \`).
pub open spec fn spec_osc_end_from(s: Seq<u8>, i: int) -> Option<(int, int)>
    decreases s.len() - i,
{
    if i < 0 || i >= s.len() {
        None
    } else if s[i] == 0x07 {
        Some((i, 1))
    } else if s[i] == 0x1b && i + 1 < s.len() && s[i + 1] == 0x5c {
        Some((i, 2))
    } else {
        spec_osc_end_from(s, i + 1)
    }
}

/// The end of a DCS string body at or after `i`: the position of its ST
/// terminator (`ESC \`) and the terminator's length.
pub open spec fn spec_dcs_end_from(s: Seq<u8>, i: int) -> Option<(int, int)>
    decreases s.len() - i,
{
    if i < 0 || i + 1 >= s.len() {
        None
    } else if s[i] == 0x1b && s[i + 1] == 0x5c {
        Some((i, 2))
    } else {
        spec_dcs_end_from(s, i + 1)
    }
}

/// The final byte of a DEC private CSI reply at or after `i`: parameter and
/// intermediate bytes (0x20..=0x3f) are skipped, a byte in 0x40..=0x7e ends
/// it, anything else (or the end of the input) means no final byte.
pub open spec fn spec_dec_prv_final_from(s: Seq<u8>, i: int) -> Option<(int, u8)>
    decreases s.len() - i,
{
    if i < 0 || i >= s.len() {
        None
    } else if 0x40 <= s[i] <= 0x7e {
        Some((i, s[i]))
    } else if !(0x20 <= s[i] <= 0x3f) {
        None
    } else {
        spec_dec_prv_final_from(s, i + 1)
    }
}

/// What the parser has learned so far.
pub struct Replies {
    pub fg: Option<RGB8>,
    pub bg: Option<RGB8>,
    pub palette: Seq<Option<RGB8>>,
    pub version: Option<Seq<char>>,
}

/// The abstract state of a reply parser: the unparsed input and the replies
/// learned.
pub struct ParserView {
    pub buf: Seq<u8>,
    pub replies: Replies,
}

/// The palette after storing each entry at its index, in order.
pub open spec fn apply_palette(palette: Seq<Option<RGB8>>, entries: Seq<(usize, RGB8)>) -> Seq<
    Option<RGB8>,
>
    decreases entries.len(),
{
    if entries.len() == 0 {
        palette
    } else {
        let e = entries[0];
        let p = if e.0 < palette.len() {
            palette.update(e.0 as int, Some(e.1))
        } else {
            palette
        };
        apply_palette(p, entries.drop_first())
    }
}

/// What one step of the scan does at position `i` of the buffered input.
pub enum ScanStep {
    /// An incomplete reply starts here: wait for more input.
    Stop,
    /// A DA reply (final byte `c`): the exchange is over.
    Done,
    /// A reply or a stray byte was consumed; the scan goes on from the
    /// position given, with the replies given.
    Advance(Replies, int),
}

/// One step of the scan at position `i` (`0 <= i < buf.len()`): a complete
/// OSC 10/11/4 or XTVERSION reply updates the replies, another complete DEC
/// private reply or an unrecognized byte is skipped, an incomplete reply
/// stops the scan and a DA reply ends the exchange.
pub open spec fn scan_step(r: Replies, buf: Seq<u8>, i: int) -> ScanStep {
    let rest = buf.skip(i);
    match spec_match_seq_prefix(rest, osc10()) {
        Some(PrefixMatch::Partial) => ScanStep::Stop,
        Some(PrefixMatch::Full) => match spec_osc_end_from(rest.skip(5), 0) {
            None => ScanStep::Stop,
            Some((end, tl)) => ScanStep::Advance(
                Replies { fg: spec_parse_rgb_color(rest.skip(5).take(end)), ..r },
                i + 5 + end + tl,
            ),
        },
        None => match spec_match_seq_prefix(rest, osc11()) {
            Some(PrefixMatch::Partial) => ScanStep::Stop,
            Some(PrefixMatch::Full) => match spec_osc_end_from(rest.skip(5), 0) {
                None => ScanStep::Stop,
                Some((end, tl)) => ScanStep::Advance(
                    Replies { bg: spec_parse_rgb_color(rest.skip(5).take(end)), ..r },
                    i + 5 + end + tl,
                ),
            },
            None => match spec_match_seq_prefix(rest, osc4()) {
                Some(PrefixMatch::Partial) => ScanStep::Stop,
                Some(PrefixMatch::Full) => match spec_osc_end_from(rest.skip(4), 0) {
                    None => ScanStep::Stop,
                    Some((end, tl)) => ScanStep::Advance(
                        Replies {
                            palette: apply_palette(
                                r.palette,
                                spec_palette_entries(rest.skip(4).take(end)),
                            ),
                            ..r
                        },
                        i + 4 + end + tl,
                    ),
                },
                None => match spec_match_seq_prefix(rest, dcs()) {
                    Some(PrefixMatch::Partial) => ScanStep::Stop,
                    Some(PrefixMatch::Full) => match spec_dcs_end_from(rest.skip(2), 0) {
                        None => ScanStep::Stop,
                        Some((end, tl)) => {
                            let reply = rest.skip(2).take(end);
                            let r2 = if has_prefix(reply, xtversion_selector()) {
                                Replies {
                                    version: Some(crate::text::utf8_lossy(reply.skip(2))),
                                    ..r
                                }
                            } else {
                                r
                            };
                            ScanStep::Advance(r2, i + 2 + end + tl)
                        },
                    },
                    None => match spec_match_seq_prefix(rest, dec_private()) {
                        Some(PrefixMatch::Partial) => ScanStep::Stop,
                        Some(PrefixMatch::Full) => match spec_dec_prv_final_from(rest.skip(3), 0) {
                            None => ScanStep::Stop,
                            Some((end, t)) => if t == 0x63 {
                                ScanStep::Done
                            } else {
                                ScanStep::Advance(r, i + 3 + end + 1)
                            },
                        },
                        None => ScanStep::Advance(r, i + 1),
                    },
                },
            },
        },
    }
}

/// Every step that advances moves forward and stays within the input.
pub proof fn lemma_scan_step_advances(r: Replies, buf: Seq<u8>, i: int)
    requires
        0 <= i < buf.len(),
    ensures
        scan_step(r, buf, i) matches ScanStep::Advance(_, j) ==> i < j <= buf.len(),
{
    let rest = buf.skip(i);
    lemma_osc_end_bounds(rest.skip(5), 0);
    lemma_osc_end_bounds(rest.skip(4), 0);
    lemma_dcs_end_bounds(rest.skip(2), 0);
    lemma_dec_prv_final_bounds(rest.skip(3), 0);
}

/// Parses the buffered input from position `i` step by step. Gives the
/// replies learned and either the position where the scan stopped (`Some`)
/// or `None` when a DA reply ended the whole exchange.
pub open spec fn spec_scan(r: Replies, buf: Seq<u8>, i: int) -> (Replies, Option<int>)
    decreases buf.len() - i,
{
    if i < 0 || i >= buf.len() {
        (r, Some(i))
    } else {
        match scan_step(r, buf, i) {
            ScanStep::Stop => (r, Some(i)),
            ScanStep::Done => (r, None),
            ScanStep::Advance(r2, j) => {
                proof {
                    lemma_scan_step_advances(r, buf, i);
                }
                spec_scan(r2, buf, j)
            },
        }
    }
}

/// The parser state after feeding `chunk`, and whether the exchange is done.
/// When done, the input is kept as it is; otherwise what was parsed is
/// dropped and an incomplete reply stays buffered.
pub open spec fn spec_feed(p: ParserView, chunk: Seq<u8>) -> (ParserView, bool) {
    let buf = p.buf + chunk;
    let (r, stop) = spec_scan(p.replies, buf, 0);
    match stop {
        None => (ParserView { buf, replies: r }, true),
        Some(i) => (ParserView { buf: buf.skip(i), replies: r }, false),
    }
}

pub proof fn lemma_osc_end_bounds(s: Seq<u8>, i: int)
    requires
        0 <= i,
    ensures
        spec_osc_end_from(s, i) matches Some((e, tl)) ==> i <= e && 1 <= tl && e + tl <= s.len(),
    decreases s.len() - i,
{
    if i < s.len() && s[i] != 0x07 && !(s[i] == 0x1b && i + 1 < s.len() && s[i + 1] == 0x5c) {
        lemma_osc_end_bounds(s, i + 1);
    }
}

pub proof fn lemma_dcs_end_bounds(s: Seq<u8>, i: int)
    requires
        0 <= i,
    ensures
        spec_dcs_end_from(s, i) matches Some((e, tl)) ==> i <= e && tl == 2 && e + tl <= s.len(),
    decreases s.len() - i,
{
    if i + 1 < s.len() && !(s[i] == 0x1b && s[i + 1] == 0x5c) {
        lemma_dcs_end_bounds(s, i + 1);
    }
}

pub proof fn lemma_dec_prv_final_bounds(s: Seq<u8>, i: int)
    requires
        0 <= i,
    ensures
        spec_dec_prv_final_from(s, i) matches Some((e, t)) ==> i <= e < s.len() && t == s[e],
    decreases s.len() - i,
{
    if i < s.len() && !(0x40 <= s[i] <= 0x7e) && (0x20 <= s[i] <= 0x3f) {
        lemma_dec_prv_final_bounds(s, i + 1);
    }
}

} // verus!

verus! {

/// How `a` begins relative to the sequence `b`: with all of it, with a
/// proper part of it, or otherwise.
pub fn match_seq_prefix(a: &[u8], b: &[u8]) -> (r: Option<PrefixMatch>)
    ensures
        r == spec_match_seq_prefix(a@, b@),
{
    if starts_with(a, b) {
        Some(PrefixMatch::Full)
    } else if starts_with(b, a) {
        Some(PrefixMatch::Partial)
    } else {
        None
    }
}

/// The position and length of the terminator (BEL or ST) of an OSC string.
pub fn find_osc_end(buf: &[u8]) -> (r: Option<(usize, usize)>)
    ensures
        match spec_osc_end_from(buf@, 0) {
            None => r is None,
            Some((e, tl)) => r == Some((e as usize, tl as usize)),
        },
{
    let mut i: usize = 0;
    while i < buf.len()
        invariant
            i <= buf@.len(),
            spec_osc_end_from(buf@, 0) == spec_osc_end_from(buf@, i as int),
        decreases buf@.len() - i,
    {
        if buf[i] == 0x07 {
            return Some((i, 1));
        }
        if buf[i] == 0x1b && i + 1 < buf.len() && buf[i + 1] == 0x5c {
            return Some((i, 2));
        }
        i = i + 1;
    }
    None
}

/// The position and length of the ST terminator of a DCS string.
pub fn find_dcs_end(buf: &[u8]) -> (r: Option<(usize, usize)>)
    ensures
        match spec_dcs_end_from(buf@, 0) {
            None => r is None,
            Some((e, tl)) => r == Some((e as usize, tl as usize)),
        },
{
    let mut i: usize = 0;
    while i < buf.len() && i + 1 < buf.len()
        invariant
            i <= buf@.len(),
            spec_dcs_end_from(buf@, 0) == spec_dcs_end_from(buf@, i as int),
        decreases buf@.len() - i,
    {
        if buf[i] == 0x1b && buf[i + 1] == 0x5c {
            return Some((i, 2));
        }
        i = i + 1;
    }
    None
}

/// The position and value of the final byte of a DEC private CSI reply.
pub fn find_dec_prv_final(buf: &[u8]) -> (r: Option<(usize, u8)>)
    ensures
        match spec_dec_prv_final_from(buf@, 0) {
            None => r is None,
            Some((e, t)) => r == Some((e as usize, t)),
        },
{
    let mut i: usize = 0;
    while i < buf.len()
        invariant
            i <= buf@.len(),
            spec_dec_prv_final_from(buf@, 0) == spec_dec_prv_final_from(buf@, i as int),
        decreases buf@.len() - i,
    {
        let byte = buf[i];
        if 0x40 <= byte && byte <= 0x7e {
            return Some((i, byte));
        }
        if !(0x20 <= byte && byte <= 0x3f) {
            return None;
        }
        i = i + 1;
    }
    None
}

/// The text of a DCS reply that starts with `prefix`, decoded as UTF-8 with
/// invalid sequences replaced.
pub fn parse_dcs_reply(reply: &[u8], prefix: &[u8]) -> (r: Option<String>)
    ensures
        has_prefix(reply@, prefix@) ==> (r matches Some(s) && s@ == crate::text::utf8_lossy(
            reply@.skip(prefix@.len() as int),
        )),
        !has_prefix(reply@, prefix@) ==> r is None,
{
    if starts_with(reply, prefix) {
        let value = vstd::slice::slice_subrange(reply, prefix.len(), reply.len());
        assert(value@ =~= reply@.skip(prefix@.len() as int));
        Some(crate::text::string_from_utf8_lossy(value))
    } else {
        None
    }
}

} // verus!

verus! {

/// What one parsing step found.
pub enum ScanOutcome {
    Stop,
    Done,
    Advance(usize),
}

/// Whether the reply exchange has ended.
pub enum ParseResult {
    /// More replies may come.
    Pending,
    /// The DA reply came: every reply to the query has arrived.
    Done,
}

/// Incremental parser of the terminal's replies to the inspection query.
pub struct ReplyParser {
    buf: Vec<u8>,
    fg: Option<RGB8>,
    bg: Option<RGB8>,
    palette: Vec<Option<RGB8>>,
    version: Option<String>,
}

/// The view of an optional string.
pub open spec fn opt_string_view(s: Option<String>) -> Option<Seq<char>> {
    match s {
        Some(v) => Some(v@),
        None => None,
    }
}

/// The palette colors that are known, in index order.
pub open spec fn known_colors(p: Seq<Option<RGB8>>) -> Seq<RGB8>
    decreases p.len(),
{
    if p.len() == 0 {
        seq![]
    } else {
        let rest = known_colors(p.drop_first());
        match p[0] {
            Some(c) => seq![c] + rest,
            None => rest,
        }
    }
}

/// A theme is known once fg, bg and all 16 palette colors are.
pub open spec fn spec_theme(r: Replies) -> Option<(RGB8, RGB8, Seq<RGB8>)> {
    match (r.fg, r.bg) {
        (Some(fg), Some(bg)) => if known_colors(r.palette).len() < 16 {
            None
        } else {
            Some((fg, bg, known_colors(r.palette)))
        },
        _ => None,
    }
}

/// The empty palette: 16 unknown colors.
pub open spec fn empty_palette() -> Seq<Option<RGB8>> {
    Seq::new(16, |i: int| None::<RGB8>)
}

impl View for ReplyParser {
    type V = ParserView;

    closed spec fn view(&self) -> ParserView {
        ParserView {
            buf: self.buf@,
            replies: Replies {
                fg: self.fg,
                bg: self.bg,
                palette: self.palette@,
                version: opt_string_view(self.version),
            },
        }
    }
}

impl ReplyParser {
    /// The parser keeps one slot per palette color.
    pub closed spec fn wf(&self) -> bool {
        self.palette@.len() == 16
    }

    /// A parser that has seen nothing.
    pub fn new() -> (p: Self)
        ensures
            p.wf(),
            p@.buf == Seq::<u8>::empty(),
            p@.replies == (Replies {
                fg: None,
                bg: None,
                palette: empty_palette(),
                version: None,
            }),
    {
        let mut palette: Vec<Option<RGB8>> = Vec::new();
        let mut k: usize = 0;
        while k < 16
            invariant
                k <= 16,
                palette@ == Seq::new(k as nat, |i: int| None::<RGB8>),
            decreases 16 - k,
        {
            palette.push(None);
            k = k + 1;
            assert(palette@ =~= Seq::new(k as nat, |i: int| None::<RGB8>));
        }
        ReplyParser { buf: Vec::new(), fg: None, bg: None, palette, version: None }
    }

    /// Stores each palette entry at its index, in order.
    fn store_palette(&mut self, entries: &Vec<(usize, RGB8)>)
        requires
            old(self).wf(),
        ensures
            final(self).wf(),
            final(self)@ == (ParserView {
                replies: Replies {
                    palette: apply_palette(old(self)@.replies.palette, entries@),
                    ..old(self)@.replies
                },
                ..old(self)@
            }),
    {
        let mut k: usize = 0;
        assert(entries@.skip(0) =~= entries@);
        while k < entries.len()
            invariant
                self.wf(),
                k <= entries@.len(),
                self@ == (ParserView {
                    replies: Replies {
                        palette: self@.replies.palette,
                        ..old(self)@.replies
                    },
                    ..old(self)@
                }),
                apply_palette(self@.replies.palette, entries@.skip(k as int)) == apply_palette(
                    old(self)@.replies.palette,
                    entries@,
                ),
            decreases entries@.len() - k,
        {
            let (idx, color) = entries[k];
            assert(entries@.skip(k as int).drop_first() =~= entries@.skip(k + 1));
            if idx < self.palette.len() {
                self.palette.set(idx, Some(color));
            }
            k = k + 1;
        }
        assert(entries@.skip(k as int) =~= Seq::<(usize, RGB8)>::empty());
    }

    /// The replies learned so far: the terminal's version and, when all of
    /// its colors are known, its theme.
    pub fn result(self) -> (r: (Option<String>, Option<TtyTheme>))
        requires
            self.wf(),
        ensures
            opt_string_view(r.0) == self@.replies.version,
            match spec_theme(self@.replies) {
                None => r.1 is None,
                Some(t) => r.1 matches Some(theme) && theme@ == t,
            },
    {
        let theme = self.build_theme();
        (self.version, theme)
    }

    /// The theme, when fg, bg and all 16 palette colors are known.
    pub fn build_theme(&self) -> (r: Option<TtyTheme>)
        requires
            self.wf(),
        ensures
            match spec_theme(self@.replies) {
                None => r is None,
                Some(t) => r matches Some(theme) && theme@ == t,
            },
    {
        let fg = match self.fg {
            Some(c) => c,
            None => {
                return None;
            },
        };
        let bg = match self.bg {
            Some(c) => c,
            None => {
                return None;
            },
        };
        let mut palette: Vec<RGB8> = Vec::new();
        let mut k: usize = 0;
        assert(self.palette@.skip(0) =~= self.palette@);
        while k < self.palette.len()
            invariant
                k <= self.palette@.len(),
                palette@ + known_colors(self.palette@.skip(k as int)) == known_colors(
                    self.palette@,
                ),
            decreases self.palette@.len() - k,
        {
            assert(self.palette@.skip(k as int).drop_first() =~= self.palette@.skip(k + 1));
            match self.palette[k] {
                Some(c) => {
                    palette.push(c);
                },
                None => {},
            }
            k = k + 1;
        }
        assert(self.palette@.skip(k as int) =~= Seq::<Option<RGB8>>::empty());
        assert(palette@ =~= known_colors(self.palette@));
        if palette.len() < 16 {
            return None;
        }
        Some(TtyTheme { fg, bg, palette })
    }

    /// Parses what starts at position `i` of `buf`: one complete reply or
    /// one stray byte.
    fn scan_one(&mut self, buf: &[u8], i: usize) -> (r: ScanOutcome)
        requires
            old(self).wf(),
            i < buf@.len(),
        ensures
            final(self).wf(),
            final(self)@.buf == old(self)@.buf,
            match scan_step(old(self)@.replies, buf@, i as int) {
                ScanStep::Stop => r is Stop && final(self)@.replies == old(self)@.replies,
                ScanStep::Done => r is Done && final(self)@.replies == old(self)@.replies,
                ScanStep::Advance(r2, j) => r == ScanOutcome::Advance(j as usize)
                    && final(self)@.replies == r2,
            },
    {
        let p10: Vec<u8> = vec![0x1bu8, 0x5d, 0x31, 0x30, 0x3b];
        let p11: Vec<u8> = vec![0x1bu8, 0x5d, 0x31, 0x31, 0x3b];
        let p4: Vec<u8> = vec![0x1bu8, 0x5d, 0x34, 0x3b];
        let pdcs: Vec<u8> = vec![0x1bu8, 0x50];
        let pdec: Vec<u8> = vec![0x1bu8, 0x5b, 0x3f];
        let sel: Vec<u8> = vec![0x3eu8, 0x7c];
        assert(p10@ =~= osc10());
        assert(p11@ =~= osc11());
        assert(p4@ =~= osc4());
        assert(pdcs@ =~= dcs());
        assert(pdec@ =~= dec_private());
        assert(sel@ =~= xtversion_selector());
        let rest = vstd::slice::slice_subrange(buf, i, buf.len());
        assert(rest@ =~= buf@.skip(i as int));
        match match_seq_prefix(rest, p10.as_slice()) {
            Some(PrefixMatch::Partial) => {
                return ScanOutcome::Stop;
            },
            Some(PrefixMatch::Full) => {
                let body = vstd::slice::slice_subrange(rest, 5, rest.len());
                assert(body@ =~= rest@.skip(5));
                return match find_osc_end(body) {
                    None => ScanOutcome::Stop,
                    Some((end, tl)) => {
                        proof {
                            lemma_osc_end_bounds(body@, 0);
                        }
                        let value = vstd::slice::slice_subrange(body, 0, end);
                        assert(value@ =~= body@.take(end as int));
                        self.fg = parse_rgb_color(value);
                        ScanOutcome::Advance(i + 5 + end + tl)
                    },
                };
            },
            None => {},
        }
        match match_seq_prefix(rest, p11.as_slice()) {
            Some(PrefixMatch::Partial) => {
                return ScanOutcome::Stop;
            },
            Some(PrefixMatch::Full) => {
                let body = vstd::slice::slice_subrange(rest, 5, rest.len());
                assert(body@ =~= rest@.skip(5));
                return match find_osc_end(body) {
                    None => ScanOutcome::Stop,
                    Some((end, tl)) => {
                        proof {
                            lemma_osc_end_bounds(body@, 0);
                        }
                        let value = vstd::slice::slice_subrange(body, 0, end);
                        assert(value@ =~= body@.take(end as int));
                        self.bg = parse_rgb_color(value);
                        ScanOutcome::Advance(i + 5 + end + tl)
                    },
                };
            },
            None => {},
        }
        match match_seq_prefix(rest, p4.as_slice()) {
            Some(PrefixMatch::Partial) => {
                return ScanOutcome::Stop;
            },
            Some(PrefixMatch::Full) => {
                let body = vstd::slice::slice_subrange(rest, 4, rest.len());
                assert(body@ =~= rest@.skip(4));
                return match find_osc_end(body) {
                    None => ScanOutcome::Stop,
                    Some((end, tl)) => {
                        proof {
                            lemma_osc_end_bounds(body@, 0);
                        }
                        let value = vstd::slice::slice_subrange(body, 0, end);
                        assert(value@ =~= body@.take(end as int));
                        let entries = parse_palette_entries(value);
                        self.store_palette(&entries);
                        ScanOutcome::Advance(i + 4 + end + tl)
                    },
                };
            },
            None => {},
        }
        match match_seq_prefix(rest, pdcs.as_slice()) {
            Some(PrefixMatch::Partial) => {
                return ScanOutcome::Stop;
            },
            Some(PrefixMatch::Full) => {
                let body = vstd::slice::slice_subrange(rest, 2, rest.len());
                assert(body@ =~= rest@.skip(2));
                return match find_dcs_end(body) {
                    None => ScanOutcome::Stop,
                    Some((end, tl)) => {
                        proof {
                            lemma_dcs_end_bounds(body@, 0);
                        }
                        let value = vstd::slice::slice_subrange(body, 0, end);
                        assert(value@ =~= body@.take(end as int));
                        // XTVERSION replies start with the `>|` function selector.
                        match parse_dcs_reply(value, sel.as_slice()) {
                            Some(version) => {
                                self.version = Some(version);
                            },
                            None => {},
                        }
                        ScanOutcome::Advance(i + 2 + end + tl)
                    },
                };
            },
            None => {},
        }
        match match_seq_prefix(rest, pdec.as_slice()) {
            Some(PrefixMatch::Partial) => ScanOutcome::Stop,
            Some(PrefixMatch::Full) => {
                let body = vstd::slice::slice_subrange(rest, 3, rest.len());
                assert(body@ =~= rest@.skip(3));
                match find_dec_prv_final(body) {
                    None => ScanOutcome::Stop,
                    Some((end, terminator)) => {
                        proof {
                            lemma_dec_prv_final_bounds(body@, 0);
                        }
                        if terminator == 0x63 {
                            // A DA reply. Terminals answer the queries in order and
                            // DA was asked last, so every other reply came before it.
                            ScanOutcome::Done
                        } else {
                            ScanOutcome::Advance(i + 3 + end + 1)
                        }
                    },
                }
            },
            None => ScanOutcome::Advance(i + 1),
        }
    }

    /// Takes in the next chunk of input and parses every reply that is
    /// complete. An incomplete reply stays buffered until more input comes.
    pub fn feed(&mut self, chunk: &[u8]) -> (r: ParseResult)
        requires
            old(self).wf(),
        ensures
            final(self).wf(),
            (final(self)@, r is Done) == spec_feed(old(self)@, chunk@),
    {
        let mut buf: Vec<u8> = Vec::new();
        std::mem::swap(&mut buf, &mut self.buf);
        append_bytes(&mut buf, chunk);
        let ghost r0 = old(self)@.replies;
        let ghost all = old(self)@.buf + chunk@;
        let n = buf.len();
        let mut i: usize = 0;
        loop
            invariant
                r0 == old(self)@.replies,
                all == old(self)@.buf + chunk@,
                self.wf(),
                self@.buf == Seq::<u8>::empty(),
                buf@ == all,
                n == all.len(),
                i <= n,
                spec_scan(r0, all, 0) == spec_scan(self@.replies, all, i as int),
            ensures
                r0 == old(self)@.replies,
                all == old(self)@.buf + chunk@,
                self.wf(),
                self@.buf == Seq::<u8>::empty(),
                buf@ == all,
                i <= n,
                spec_scan(r0, all, 0) == (self@.replies, Some(i as int)),
            decreases n - i,
        {
            if i >= n {
                break;
            }
            proof {
                lemma_scan_step_advances(self@.replies, all, i as int);
            }
            let ghost cur = self@.replies;
            match self.scan_one(buf.as_slice(), i) {
                ScanOutcome::Stop => {
                    break;
                },
                ScanOutcome::Done => {
                    assert(spec_scan(cur, all, i as int) == (cur, None::<int>));
                    self.buf = buf;
                    assert(self@ == (ParserView { buf: all, replies: cur }));
                    return ParseResult::Done;
                },
                ScanOutcome::Advance(j) => {
                    i = j;
                },
            }
        }
        self.buf = byte_range(buf.as_slice(), i, n);
        assert(self.buf@ =~= all.skip(i as int));
        ParseResult::Pending
    }
}

} // verus!

verus! {

proof fn lemma_prefix_extend(a: Seq<u8>, b: Seq<u8>, x: Seq<u8>)
    ensures
        has_prefix(a, b) ==> has_prefix(a + x, b),
        !has_prefix(a, b) && !has_prefix(b, a) ==> !has_prefix(a + x, b) && !has_prefix(b, a + x),
{
    if has_prefix(a, b) {
        assert((a + x).take(b.len() as int) =~= a.take(b.len() as int));
    }
    if !has_prefix(a, b) && !has_prefix(b, a) {
        if has_prefix(a + x, b) {
            if b.len() <= a.len() {
                assert((a + x).take(b.len() as int) =~= a.take(b.len() as int));
            } else {
                assert(b.take(a.len() as int) =~= (a + x).take(b.len() as int).take(a.len() as int));
                assert((a + x).take(b.len() as int).take(a.len() as int) =~= a);
            }
        }
        if has_prefix(b, a + x) {
            assert(b.take(a.len() as int) =~= b.take((a + x).len() as int).take(a.len() as int));
            assert((a + x).take(a.len() as int) =~= a);
        }
    }
}

proof fn lemma_match_extend(a: Seq<u8>, b: Seq<u8>, x: Seq<u8>)
    ensures
        spec_match_seq_prefix(a, b) matches Some(PrefixMatch::Partial) || spec_match_seq_prefix(a + x, b)
            == spec_match_seq_prefix(a, b),
{
    lemma_prefix_extend(a, b, x);
}

proof fn lemma_osc_end_extend(s: Seq<u8>, x: Seq<u8>, i: int)
    requires
        0 <= i,
        spec_osc_end_from(s, i) is Some,
    ensures
        spec_osc_end_from(s + x, i) == spec_osc_end_from(s, i),
    decreases s.len() - i,
{
    let t = s + x;
    assert(t[i] == s[i]);
    if s[i] != 0x07 && !(s[i] == 0x1b && i + 1 < s.len() && s[i + 1] == 0x5c) {
        lemma_osc_end_extend(s, x, i + 1);
        if s[i] == 0x1b && i + 1 < t.len() && t[i + 1] == 0x5c {
            lemma_osc_end_bounds(s, i + 1);
            assert(t[i + 1] == s[i + 1]);
        }
    } else if s[i] == 0x1b && s[i + 1] == 0x5c && s[i] != 0x07 {
        assert(t[i + 1] == s[i + 1]);
    }
}

proof fn lemma_dcs_end_extend(s: Seq<u8>, x: Seq<u8>, i: int)
    requires
        0 <= i,
        spec_dcs_end_from(s, i) is Some,
    ensures
        spec_dcs_end_from(s + x, i) == spec_dcs_end_from(s, i),
    decreases s.len() - i,
{
    let t = s + x;
    assert(t[i] == s[i] && t[i + 1] == s[i + 1]);
    if !(s[i] == 0x1b && s[i + 1] == 0x5c) {
        lemma_dcs_end_extend(s, x, i + 1);
    }
}

proof fn lemma_dec_prv_final_extend(s: Seq<u8>, x: Seq<u8>, i: int)
    requires
        0 <= i,
        spec_dec_prv_final_from(s, i) is Some,
    ensures
        spec_dec_prv_final_from(s + x, i) == spec_dec_prv_final_from(s, i),
    decreases s.len() - i,
{
    let t = s + x;
    assert(t[i] == s[i]);
    if !(0x40 <= s[i] <= 0x7e) && (0x20 <= s[i] <= 0x3f) {
        lemma_dec_prv_final_extend(s, x, i + 1);
    }
}

/// A step that consumes a reply or a stray byte does the same when more
/// input follows.
proof fn lemma_scan_step_extend(r: Replies, buf: Seq<u8>, x: Seq<u8>, i: int)
    requires
        0 <= i < buf.len(),
        scan_step(r, buf, i) is Advance,
    ensures
        scan_step(r, buf + x, i) == scan_step(r, buf, i),
{
    let rest = buf.skip(i);
    let rest2 = (buf + x).skip(i);
    assert(rest2 =~= rest + x);
    lemma_match_extend(rest, osc10(), x);
    lemma_match_extend(rest, osc11(), x);
    lemma_match_extend(rest, osc4(), x);
    lemma_match_extend(rest, dcs(), x);
    lemma_match_extend(rest, dec_private(), x);
    if has_prefix(rest, osc10()) || has_prefix(rest, osc11()) {
        assert(rest2.skip(5) =~= rest.skip(5) + x);
        lemma_osc_end_extend(rest.skip(5), x, 0);
        lemma_osc_end_bounds(rest.skip(5), 0);
        if let Some((end, tl)) = spec_osc_end_from(rest.skip(5), 0) {
            assert(rest2.skip(5).take(end) =~= rest.skip(5).take(end));
        }
    }
    if has_prefix(rest, osc4()) {
        assert(rest2.skip(4) =~= rest.skip(4) + x);
        lemma_osc_end_extend(rest.skip(4), x, 0);
        lemma_osc_end_bounds(rest.skip(4), 0);
        if let Some((end, tl)) = spec_osc_end_from(rest.skip(4), 0) {
            assert(rest2.skip(4).take(end) =~= rest.skip(4).take(end));
        }
    }
    if has_prefix(rest, dcs()) {
        assert(rest2.skip(2) =~= rest.skip(2) + x);
        if spec_dcs_end_from(rest.skip(2), 0) is Some {
            lemma_dcs_end_extend(rest.skip(2), x, 0);
            lemma_dcs_end_bounds(rest.skip(2), 0);
            let (end, tl) = spec_dcs_end_from(rest.skip(2), 0)->0;
            assert(rest2.skip(2).take(end) =~= rest.skip(2).take(end));
        }
    }
    if has_prefix(rest, dec_private()) {
        assert(rest2.skip(3) =~= rest.skip(3) + x);
        if spec_dec_prv_final_from(rest.skip(3), 0) is Some {
            lemma_dec_prv_final_extend(rest.skip(3), x, 0);
        }
    }
}

/// The steps a scan takes over some input it takes again when more input
/// follows; the longer scan then goes on from where the shorter one
/// stopped.
proof fn lemma_scan_extend(r: Replies, buf: Seq<u8>, x: Seq<u8>, i: int)
    requires
        0 <= i,
        spec_scan(r, buf, i).1 is Some,
    ensures
        ({
            let (r2, stop) = spec_scan(r, buf, i);
            spec_scan(r, buf + x, i) == spec_scan(r2, buf + x, stop->0)
        }),
    decreases buf.len() - i,
{
    if i < buf.len() {
        match scan_step(r, buf, i) {
            ScanStep::Advance(r2, j) => {
                lemma_scan_step_advances(r, buf, i);
                lemma_scan_step_extend(r, buf, x, i);
                lemma_scan_step_advances(r, buf + x, i);
                lemma_scan_extend(r2, buf, x, j);
            },
            _ => {},
        }
    }
}

/// A scan step depends only on the input from its position on.
proof fn lemma_scan_step_shift(r: Replies, s: Seq<u8>, k: int, i: int)
    requires
        0 <= k <= i < s.len(),
    ensures
        scan_step(r, s, i) == match scan_step(r, s.skip(k), i - k) {
            ScanStep::Advance(r2, j) => ScanStep::Advance(r2, j + k),
            other => other,
        },
{
    assert(s.skip(k).skip(i - k) =~= s.skip(i));
}

/// Scanning from a position is scanning what follows it.
proof fn lemma_scan_shift(r: Replies, s: Seq<u8>, k: int, i: int)
    requires
        0 <= k <= i,
        k <= s.len(),
    ensures
        spec_scan(r, s, i) == ({
            let (r2, stop) = spec_scan(r, s.skip(k), i - k);
            (
                r2,
                match stop {
                    Some(j) => Some(j + k),
                    None => None,
                },
            )
        }),
    decreases s.len() - i,
{
    if i < s.len() {
        lemma_scan_step_shift(r, s, k, i);
        match scan_step(r, s, i) {
            ScanStep::Advance(r2, j) => {
                lemma_scan_step_advances(r, s, i);
                lemma_scan_shift(r2, s, k, j);
            },
            _ => {},
        }
    }
}

/// Splitting the replies at any byte changes nothing: a parser given `a`
/// by `ReplyParser::feed` (whose outcome is `spec_feed`), which leaves the
/// exchange pending, then `b`, ends as one given `a` and `b` together does:
/// the same decision, the same replies (so the same version and theme from
/// `result`), and the same input left over when the exchange is still
/// pending.
pub proof fn lemma_feed_chunks(p: ParserView, a: Seq<u8>, b: Seq<u8>)
    requires
        !spec_feed(p, a).1,
    ensures
        ({
            let (q, _) = spec_feed(p, a);
            let (two, done2) = spec_feed(q, b);
            let (one, done1) = spec_feed(p, a + b);
            &&& done2 == done1
            &&& two.replies == one.replies
            &&& spec_theme(two.replies) == spec_theme(one.replies)
            &&& !done1 ==> two.buf == one.buf
        }),
{
    let buf = p.buf + a;
    let r1 = spec_scan(p.replies, buf, 0).0;
    let i = spec_scan(p.replies, buf, 0).1->0;
    let all = p.buf + (a + b);
    assert(all =~= buf + b);
    lemma_scan_extend(p.replies, buf, b, 0);
    lemma_scan_stop_bounds(p.replies, buf, 0);
    let s2 = buf.skip(i) + b;
    assert(s2 =~= all.skip(i));
    assert(spec_feed(p, a).0 == (ParserView { buf: buf.skip(i), replies: r1 }));
    lemma_scan_shift(r1, all, i, i);
    assert(all.skip(i).skip(0) =~= all.skip(i));
    assert(spec_scan(p.replies, all, 0) == spec_scan(r1, all, i));
    if let Some(j) = spec_scan(r1, s2, 0).1 {
        lemma_scan_stop_bounds(r1, s2, 0);
        assert(s2.skip(j) =~= all.skip(j + i));
    }
}

/// Where a scan stops lies between its start and the end of the input.
proof fn lemma_scan_stop_bounds(r: Replies, buf: Seq<u8>, i: int)
    requires
        0 <= i <= buf.len(),
    ensures
        spec_scan(r, buf, i).1 matches Some(j) ==> i <= j <= buf.len(),
    decreases buf.len() - i,
{
    if i < buf.len() {
        match scan_step(r, buf, i) {
            ScanStep::Advance(r2, j) => {
                lemma_scan_step_advances(r, buf, i);
                lemma_scan_stop_bounds(r2, buf, j);
            },
            _ => {},
        }
    }
}

/// The color that the last of `entries` with index `i` reports, if any.
pub open spec fn last_reported(entries: Seq<(usize, RGB8)>, i: int) -> Option<RGB8>
    decreases entries.len(),
{
    if entries.len() == 0 {
        None
    } else {
        match last_reported(entries.drop_first(), i) {
            Some(c) => Some(c),
            None => if entries[0].0 == i {
                Some(entries[0].1)
            } else {
                None
            },
        }
    }
}

/// Storing palette entries keeps the palette's size, and each slot ends
/// with the color that the last entry for it reported, whatever order the
/// entries came in; a slot that no entry names keeps its color.
pub proof fn lemma_palette_takes_last_report(
    palette: Seq<Option<RGB8>>,
    entries: Seq<(usize, RGB8)>,
    i: int,
)
    requires
        0 <= i < palette.len(),
    ensures
        apply_palette(palette, entries).len() == palette.len(),
        apply_palette(palette, entries)[i] == match last_reported(entries, i) {
            Some(c) => Some(c),
            None => palette[i],
        },
    decreases entries.len(),
{
    if entries.len() > 0 {
        let e = entries[0];
        let p = if e.0 < palette.len() {
            palette.update(e.0 as int, Some(e.1))
        } else {
            palette
        };
        lemma_palette_takes_last_report(p, entries.drop_first(), i);
    }
}

/// The known colors of a palette are as many as its slots exactly when
/// every slot is known, and then they are the slots' colors in order.
proof fn lemma_known_colors_full(p: Seq<Option<RGB8>>)
    ensures
        known_colors(p).len() <= p.len(),
        known_colors(p).len() == p.len() <==> forall|i: int| 0 <= i < p.len() ==> p[i] is Some,
        known_colors(p).len() == p.len() ==> forall|i: int|
            0 <= i < p.len() ==> p[i] == Some(#[trigger] known_colors(p)[i]),
    decreases p.len(),
{
    if p.len() > 0 {
        let rest = p.drop_first();
        lemma_known_colors_full(rest);
        assert forall|i: int| 1 <= i < p.len() implies p[i] == rest[i - 1] by {}
        if known_colors(p).len() == p.len() {
            assert(p[0] is Some);
            assert forall|i: int| 0 <= i < p.len() implies p[i] == Some(
                #[trigger] known_colors(p)[i],
            ) by {
                if i > 0 {
                    assert(rest[i - 1] == Some(known_colors(rest)[i - 1]));
                }
            }
        }
        if forall|i: int| 0 <= i < p.len() ==> p[i] is Some {
            assert(forall|i: int| 0 <= i < rest.len() ==> rest[i] is Some) by {
                assert forall|i: int| 0 <= i < rest.len() implies rest[i] is Some by {
                    assert(p[i + 1] is Some);
                }
            }
        } else {
            if known_colors(p).len() == p.len() {
                let i = choose|i: int| 0 <= i < p.len() && !(p[i] is Some);
                assert(p[i] == Some(known_colors(p)[i]));
            }
        }
    }
}

/// The theme is known exactly when fg, bg and every one of the 16 palette
/// slots are; its palette then lists the slots' colors by index.
pub proof fn lemma_theme_needs_every_color(r: Replies)
    requires
        r.palette.len() == 16,
    ensures
        spec_theme(r) is Some <==> (r.fg is Some && r.bg is Some && forall|i: int|
            0 <= i < 16 ==> r.palette[i] is Some),
        spec_theme(r) matches Some(t) ==> {
            &&& Some(t.0) == r.fg
            &&& Some(t.1) == r.bg
            &&& t.2.len() == 16
            &&& forall|i: int| 0 <= i < 16 ==> r.palette[i] == Some(#[trigger] t.2[i])
        },
{
    lemma_known_colors_full(r.palette);
}

} // verus!

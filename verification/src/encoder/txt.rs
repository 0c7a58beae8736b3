//! The text encoder: the recording's terminal output as plain text lines,
//! including the lines that scrolled away and the lines a screen clear
//! wiped. Each screen clear ends the current virtual terminal: its text is
//! written out and a fresh terminal of the same size takes its place.
use vstd::prelude::*;
use crate::asciicast::{Event, EventData, Header};
use crate::frames::{fresh, given, Vt, VtInput};
use crate::text::{
    append_str, chars_eq, find_from, lemma_find_from_found, matches_at, occurs_at, slice_copy,
    spec_find_from, string_from_chars, utf8_bytes,
};
use crate::util::append_bytes;
use vstd::utf8::encode_utf8;

verus! {

/// The transcript observer of the avt crate.
#[verifier::external_type_specification]
#[verifier::external_body]
pub struct ExTranscript(avt::observer::Transcript);

/// `ESC [H`: cursor home.
pub open spec fn cursor_home() -> Seq<char> {
    seq!['\u{1b}', '[', 'H']
}

/// `ESC [2J`: clear the screen.
pub open spec fn clear_screen() -> Seq<char> {
    seq!['\u{1b}', '[', '2', 'J']
}

/// `ESC [3J`: clear the scrollback.
pub open spec fn clear_scrollback() -> Seq<char> {
    seq!['\u{1b}', '[', '3', 'J']
}

/// Where the text before a clear at `c` ends: before a cursor-home that
/// directly precedes the clear, if one does.
pub open spec fn segment_end(d: Seq<char>, c: int) -> int {
    if c >= 3 && occurs_at(d, cursor_home(), c - 3) {
        c - 3
    } else {
        c
    }
}

/// Where the text after a clear at `c` resumes: after the clear, and after a
/// clear-scrollback that directly follows it, if one does.
pub open spec fn resume_at(d: Seq<char>, c: int) -> int {
    if occurs_at(d, clear_scrollback(), c + 4) {
        c + 8
    } else {
        c + 4
    }
}

/// The pieces of `d`, from `cursor` on, that precede each screen clear, and
/// the position where the text after the last clear resumes (`cursor` when
/// there is no clear).
pub open spec fn clear_segments(d: Seq<char>, cursor: int) -> (Seq<Seq<char>>, int)
    decreases d.len() - cursor,
{
    if cursor < 0 || cursor > d.len() {
        (Seq::empty(), cursor)
    } else {
        match spec_find_from(d, clear_screen(), cursor) {
            None => (Seq::empty(), cursor),
            Some(c) => {
                proof {
                    lemma_find_from_found(d, clear_screen(), cursor);
                }
                let (rest, end) = clear_segments(d, resume_at(d, c));
                (seq![d.subrange(cursor, segment_end(d, c))] + rest, end)
            },
        }
    }
}

/// Whether `s` is a proper beginning of a screen clear, with or without the
/// cursor-home before it.
pub open spec fn is_clear_start(s: Seq<char>) -> bool {
    ||| s.len() < 7 && s == (cursor_home() + clear_screen()).take(s.len() as int)
    ||| s.len() < 4 && s == clear_screen().take(s.len() as int)
}

/// The last `k` characters of `d`.
pub open spec fn suffix(d: Seq<char>, k: int) -> Seq<char> {
    d.subrange(d.len() - k, d.len() as int)
}

/// The length of the longest end of `d`, at most `k` long and not empty,
/// that may be the beginning of a screen clear; 0 if none is.
pub open spec fn held_len(d: Seq<char>, k: int) -> int
    decreases k,
{
    if k <= 0 {
        0
    } else if is_clear_start(suffix(d, k)) {
        k
    } else {
        held_len(d, k - 1)
    }
}

/// `t` appended to the text of the last terminal.
pub open spec fn append_last(h: Seq<Seq<char>>, t: Seq<char>) -> Seq<Seq<char>> {
    if h.len() == 0 {
        seq![t]
    } else {
        h.update(h.len() - 1, h.last() + t)
    }
}

/// Each segment fed to the current terminal, which then ends and a fresh
/// one begins.
pub open spec fn feed_segments(h: Seq<Seq<char>>, segs: Seq<Seq<char>>) -> Seq<Seq<char>>
    decreases segs.len(),
{
    if segs.len() == 0 {
        h
    } else {
        append_last(feed_segments(h, segs.drop_last()), segs.last()).push(Seq::empty())
    }
}

/// What output does to the text fed to each terminal (`fed`, the current
/// terminal last) and to the text held back (`pending`): the held-back text
/// and the output are split at each screen clear; the text before a clear
/// goes to the current terminal, which then ends; an end that may be the
/// beginning of a clear is held back for the next output.
pub open spec fn spec_encode_output(fed: Seq<Seq<char>>, pending: Seq<char>, data: Seq<char>) -> (
    Seq<Seq<char>>,
    Seq<char>,
) {
    spec_encode_text(fed, pending + data)
}

/// What the held-back text followed by the output, `d`, does to the text
/// fed to each terminal and to the text held back.
pub open spec fn spec_encode_text(fed: Seq<Seq<char>>, d: Seq<char>) -> (
    Seq<Seq<char>>,
    Seq<char>,
) {
    let (segs, cur) = clear_segments(d, 0);
    let h = held_len(d, d.len() - cur);
    (
        append_last(feed_segments(fed, segs), d.subrange(cur, d.len() - h)),
        d.subrange(d.len() - h, d.len() as int),
    )
}

/// The bytes of text lines, each followed by a newline.
pub open spec fn lines_bytes(lines: Seq<Seq<char>>) -> Seq<u8>
    decreases lines.len(),
{
    if lines.len() == 0 {
        Seq::empty()
    } else {
        lines_bytes(lines.drop_last()) + encode_utf8(lines.last()) + seq![0x0au8]
    }
}

/// The text of each line.
pub open spec fn line_texts(lines: Seq<String>) -> Seq<Seq<char>> {
    lines.map_values(|l: String| l@)
}

/// The bytes of text lines, each followed by a newline.
pub fn text_lines_to_bytes(lines: &Vec<String>) -> (r: Vec<u8>)
    ensures
        r@ == lines_bytes(line_texts(lines@)),
{
    let mut out: Vec<u8> = Vec::new();
    let mut i: usize = 0;
    while i < lines.len()
        invariant
            i <= lines.len(),
            out@ == lines_bytes(line_texts(lines@).take(i as int)),
        decreases lines.len() - i,
    {
        let b = utf8_bytes(lines[i].as_str());
        append_bytes(&mut out, b.as_slice());
        out.push(0x0a);
        proof {
            let t = line_texts(lines@).take(i + 1);
            assert(t.drop_last() =~= line_texts(lines@).take(i as int));
            assert(t.last() == lines@[i as int]@);
        }
        i = i + 1;
    }
    assert(line_texts(lines@).take(i as int) =~= line_texts(lines@));
    out
}

/// A new transcript observer; wraps avt's `Transcript::new`.
#[verifier::external_body]
fn transcript_new() -> (t: avt::observer::Transcript) {
    avt::observer::Transcript::new()
}

/// The scrollback the text encoder's terminals keep, in lines.
pub const TEXT_SCROLLBACK: usize = 100;

/// The lines a transcript hands back when text is fed to the terminal it
/// observes (those the scrollback limit pushed out, wrapped rows joined),
/// where the terminal was made with the view's size and scrollback limit,
/// has been observed since it was made and was given the view's inputs.
pub uninterp spec fn transcript_fed_lines(
    v: (usize, usize, Option<usize>, Seq<VtInput>),
    text: Seq<char>,
) -> Seq<Seq<char>>;

/// The lines a transcript hands back when the terminal it observes (as for
/// `transcript_fed_lines`) is resized to the given columns and rows.
pub uninterp spec fn transcript_resized_lines(
    v: (usize, usize, Option<usize>, Seq<VtInput>),
    cols: usize,
    rows: usize,
) -> Seq<Seq<char>>;

/// The lines a transcript hands back when it is finished: the rest of the
/// observed terminal's primary screen (as for `transcript_fed_lines`),
/// trailing empty lines dropped.
pub uninterp spec fn transcript_final_lines(v: (usize, usize, Option<usize>, Seq<VtInput>)) -> Seq<
    Seq<char>,
>;

/// A virtual terminal with the transcript that has observed it since both
/// were made.
struct Collector {
    vt: Vt,
    transcript: avt::observer::Transcript,
}

impl View for Collector {
    /// The terminal's view: the size it was made with, its scrollback
    /// limit, and what it was given since.
    type V = (usize, usize, Option<usize>, Seq<VtInput>);

    closed spec fn view(&self) -> (usize, usize, Option<usize>, Seq<VtInput>) {
        self.vt@
    }
}

/// The view of a terminal once it is fed `text`.
pub open spec fn fed_view(v: (usize, usize, Option<usize>, Seq<VtInput>), text: Seq<char>) -> (
    usize,
    usize,
    Option<usize>,
    Seq<VtInput>,
) {
    given(v, VtInput::Text(text))
}

/// The view of a fresh terminal of `size` keeping `TEXT_SCROLLBACK` lines.
pub open spec fn fresh_view(size: (u16, u16)) -> (usize, usize, Option<usize>, Seq<VtInput>) {
    fresh(size.0 as usize, size.1 as usize, Some(TEXT_SCROLLBACK))
}

/// Feeds text to a collector's terminal; wraps avt's `Terminal::feed_with`
/// with the transcript as observer. The lines handed back are a function
/// of what the pair was made with and given before, and of the text.
#[verifier::external_body]
fn transcript_feed(col: &mut Collector, text: &str) -> (lines: Vec<String>)
    ensures
        line_texts(lines@) == transcript_fed_lines(old(col)@, text@),
        final(col)@ == fed_view(old(col)@, text@),
{
    col.vt.term.feed_with(text, &mut col.transcript)
}

/// Resizes a collector's terminal; wraps avt's `Terminal::resize_with`
/// with the transcript as observer (avt clamps each dimension to at least
/// 1).
#[verifier::external_body]
fn transcript_resize(col: &mut Collector, cols: usize, rows: usize) -> (lines: Vec<String>)
    ensures
        line_texts(lines@) == transcript_resized_lines(old(col)@, cols, rows),
        final(col)@ == given(old(col)@, VtInput::Size(cols, rows)),
{
    col.vt.term.resize_with(cols, rows, &mut col.transcript)
}

/// The transcript's remaining lines; wraps avt's `Transcript::finish`.
#[verifier::external_body]
fn transcript_finish(col: Collector) -> (lines: Vec<String>)
    ensures
        line_texts(lines@) == transcript_final_lines(col@),
{
    col.transcript.finish(&col.vt.term)
}

/// A terminal of the given size keeping `TEXT_SCROLLBACK` lines of
/// scrollback, with its transcript.
fn init_collector(cols: u16, rows: u16) -> (c: Collector)
    requires
        cols >= 1,
        rows >= 1,
    ensures
        c@ == fresh_view((cols, rows)),
{
    Collector {
        vt: Vt::new(cols as usize, rows as usize, Some(TEXT_SCROLLBACK)),
        transcript: transcript_new(),
    }
}

/// The bytes of two runs of lines are those of the first, then those of
/// the second.
proof fn lemma_lines_bytes_concat(a: Seq<Seq<char>>, b: Seq<Seq<char>>)
    ensures
        lines_bytes(a + b) == lines_bytes(a) + lines_bytes(b),
    decreases b.len(),
{
    if b.len() == 0 {
        assert(a + b =~= a);
        assert(lines_bytes(a) + lines_bytes(b) =~= lines_bytes(a));
    } else {
        lemma_lines_bytes_concat(a, b.drop_last());
        assert((a + b).drop_last() =~= a + b.drop_last());
        assert(lines_bytes(a) + lines_bytes(b) =~= lines_bytes(a) + lines_bytes(b.drop_last())
            + encode_utf8(b.last()) + seq![0x0au8]);
    }
}

/// The lines written when each segment in turn is fed to the current
/// terminal (`v` at first), which is then finished and replaced by a fresh
/// one of `size`; and the view of the terminal left.
pub open spec fn segments_lines(
    v: (usize, usize, Option<usize>, Seq<VtInput>),
    size: (u16, u16),
    segs: Seq<Seq<char>>,
) -> (Seq<Seq<char>>, (usize, usize, Option<usize>, Seq<VtInput>))
    decreases segs.len(),
{
    if segs.len() == 0 {
        (Seq::empty(), v)
    } else {
        let (prev, w) = segments_lines(v, size, segs.drop_last());
        (
            prev + transcript_fed_lines(w, segs.last()) + transcript_final_lines(
                fed_view(w, segs.last()),
            ),
            fresh_view(size),
        )
    }
}

/// The lines output writes from a terminal `v` of `size` when `pending`
/// was held back, and the view of the terminal left: the segments before
/// each screen clear go to a terminal that is then finished (see
/// `spec_encode_text`), and the text up to what is held back again is fed
/// to the last one.
pub open spec fn spec_output_lines(
    v: (usize, usize, Option<usize>, Seq<VtInput>),
    size: (u16, u16),
    pending: Seq<char>,
    data: Seq<char>,
) -> (Seq<Seq<char>>, (usize, usize, Option<usize>, Seq<VtInput>)) {
    let d = pending + data;
    let (segs, cur) = clear_segments(d, 0);
    let h = held_len(d, d.len() - cur);
    let tail = d.subrange(cur, d.len() - h);
    let (lines, w) = segments_lines(v, size, segs);
    (lines + transcript_fed_lines(w, tail), fed_view(w, tail))
}

/// Whether the last `k` characters of `d` may be the beginning of a screen
/// clear.
fn ends_with_clear_start(d: &[char], k: usize) -> (r: bool)
    requires
        0 < k <= d.len(),
    ensures
        r == is_clear_start(suffix(d@, k as int)),
{
    if k >= 7 {
        return false;
    }
    let tail = slice_copy(d, d.len() - k, d.len());
    let full: Vec<char> = vec!['\u{1b}', '[', 'H', '\u{1b}', '[', '2', 'J'];
    let clear: Vec<char> = vec!['\u{1b}', '[', '2', 'J'];
    assert(full@ =~= cursor_home() + clear_screen());
    assert(clear@ =~= clear_screen());
    let a = slice_copy(full.as_slice(), 0, k);
    assert(a@ =~= (cursor_home() + clear_screen()).take(k as int));
    if chars_eq(tail.as_slice(), a.as_slice()) {
        return true;
    }
    if k < 4 {
        let b = slice_copy(clear.as_slice(), 0, k);
        assert(b@ =~= clear_screen().take(k as int));
        chars_eq(tail.as_slice(), b.as_slice())
    } else {
        false
    }
}

/// Whether position `n` of `d` falls within, or at the start of, a
/// clear-scrollback that directly follows a screen clear.
pub open spec fn cuts_scrollback(d: Seq<char>, n: int) -> bool {
    exists|c: int|
        #[trigger] occurs_at(d, clear_screen(), c) && occurs_at(d, clear_scrollback(), c + 4) && c
            + 4 <= n < c + 8
}

proof fn lemma_occurs_prefix(d: Seq<char>, nd: Seq<char>, n: int, j: int)
    requires
        0 <= n <= d.len(),
    ensures
        occurs_at(d.take(n), nd, j) == (occurs_at(d, nd, j) && j + nd.len() <= n),
{
    if 0 <= j && j + nd.len() <= n {
        assert(d.take(n).subrange(j, j + nd.len()) =~= d.subrange(j, j + nd.len()));
    }
}

proof fn lemma_occurs_shift(d: Seq<char>, nd: Seq<char>, k: int, j: int)
    requires
        0 <= k <= j,
        k <= d.len(),
    ensures
        occurs_at(d.skip(k), nd, j - k) == occurs_at(d, nd, j),
{
    if j + nd.len() <= d.len() {
        assert(d.skip(k).subrange(j - k, j - k + nd.len()) =~= d.subrange(j, j + nd.len()));
    }
}

proof fn lemma_find_prefix(d: Seq<char>, nd: Seq<char>, n: int, i: int)
    requires
        0 <= n <= d.len(),
        0 <= i,
    ensures
        spec_find_from(d.take(n), nd, i) matches Some(c) ==> spec_find_from(d, nd, i) == Some(c),
        spec_find_from(d.take(n), nd, i) is None ==> (spec_find_from(d, nd, i) matches Some(c)
            ==> c + nd.len() > n),
    decreases d.len() + 1 - i,
{
    lemma_occurs_prefix(d, nd, n, i);
    if i + nd.len() > d.len() {
    } else if occurs_at(d, nd, i) {
    } else {
        lemma_find_prefix(d, nd, n, i + 1);
    }
}

proof fn lemma_find_shift(d: Seq<char>, nd: Seq<char>, k: int, i: int)
    requires
        0 <= k <= i,
        k <= d.len(),
    ensures
        spec_find_from(d.skip(k), nd, i - k) == match spec_find_from(d, nd, i) {
            Some(c) => Some(c - k),
            None => None,
        },
    decreases d.len() + 1 - i,
{
    lemma_occurs_shift(d, nd, k, i);
    if i + nd.len() > d.len() {
    } else if occurs_at(d, nd, i) {
    } else {
        lemma_find_shift(d, nd, k, i + 1);
    }
}

proof fn lemma_find_between(d: Seq<char>, nd: Seq<char>, k: int, c: int)
    requires
        0 <= k <= c,
        occurs_at(d, nd, c),
        forall|q: int| k <= q < c ==> !occurs_at(d, nd, q),
    ensures
        spec_find_from(d, nd, k) == Some(c),
    decreases c - k,
{
    if k < c {
        lemma_find_between(d, nd, k + 1, c);
    }
}

/// A clear found at or after a cursor that is the start or follows a `J`
/// has its segment end at or after the cursor.
proof fn lemma_segment_end_after(d: Seq<char>, i: int, c: int)
    requires
        0 <= i <= c,
        occurs_at(d, clear_screen(), c),
        i == 0 || d[i - 1] == 'J',
    ensures
        i <= segment_end(d, c) <= c,
{
    if c >= 3 && occurs_at(d, cursor_home(), c - 3) && c - 3 < i {
        assert(d.subrange(c - 3, c)[i - 1 - (c - 3)] == d[i - 1]);
    }
}

/// Each clear and each clear-scrollback ends with `J`.
proof fn lemma_resume_after_j(d: Seq<char>, c: int)
    requires
        occurs_at(d, clear_screen(), c),
    ensures
        c + 4 <= resume_at(d, c) <= d.len(),
        d[resume_at(d, c) - 1] == 'J',
{
    assert(d.subrange(c, c + 4)[3] == d[c + 3]);
    if occurs_at(d, clear_scrollback(), c + 4) {
        assert(d.subrange(c + 4, c + 8)[3] == d[c + 7]);
    }
}

/// Where the segments end: no clear follows, and the position is the start
/// or follows a `J`.
proof fn lemma_segments_end(d: Seq<char>, i: int)
    requires
        0 <= i <= d.len(),
        i == 0 || d[i - 1] == 'J',
    ensures
        i <= clear_segments(d, i).1 <= d.len(),
        clear_segments(d, i).1 == 0 || d[clear_segments(d, i).1 - 1] == 'J',
        spec_find_from(d, clear_screen(), clear_segments(d, i).1) is None,
    decreases d.len() - i,
{
    lemma_find_from_found(d, clear_screen(), i);
    match spec_find_from(d, clear_screen(), i) {
        None => {},
        Some(c) => {
            lemma_resume_after_j(d, c);
            lemma_segments_end(d, resume_at(d, c));
        },
    }
}

/// The segments of a prefix are the first segments of the whole, unless
/// the prefix cuts a clear-scrollback after a clear.
proof fn lemma_segments_prefix(d: Seq<char>, n: int, i: int)
    requires
        0 <= i <= n <= d.len(),
        i == 0 || d[i - 1] == 'J',
        !cuts_scrollback(d, n),
    ensures
        clear_segments(d.take(n), i).1 <= n,
        clear_segments(d, i).0 == clear_segments(d.take(n), i).0 + clear_segments(
            d,
            clear_segments(d.take(n), i).1,
        ).0,
        clear_segments(d, i).1 == clear_segments(d, clear_segments(d.take(n), i).1).1,
    decreases n - i,
{
    let a = d.take(n);
    lemma_find_prefix(d, clear_screen(), n, i);
    lemma_find_from_found(a, clear_screen(), i);
    match spec_find_from(a, clear_screen(), i) {
        None => {
            assert(Seq::<Seq<char>>::empty() + clear_segments(d, i).0 =~= clear_segments(d, i).0);
        },
        Some(c) => {
            lemma_occurs_prefix(d, clear_screen(), n, c);
            if c >= 3 {
                lemma_occurs_prefix(d, cursor_home(), n, c - 3);
            }
            lemma_occurs_prefix(d, clear_scrollback(), n, c + 4);
            if occurs_at(d, clear_scrollback(), c + 4) && c + 8 > n {
                assert(occurs_at(d, clear_screen(), c) && occurs_at(d, clear_scrollback(), c + 4)
                    && c + 4 <= n < c + 8);
            }
            assert(resume_at(a, c) == resume_at(d, c));
            assert(segment_end(a, c) == segment_end(d, c));
            lemma_segment_end_after(d, i, c);
            lemma_resume_after_j(d, c);
            let r = resume_at(d, c);
            lemma_segments_prefix(d, n, r);
            assert(a.subrange(i, segment_end(d, c)) =~= d.subrange(i, segment_end(d, c)));
            let seg = d.subrange(i, segment_end(d, c));
            let ra = clear_segments(a, r).0;
            let rd = clear_segments(d, clear_segments(a, r).1).0;
            assert(seq![seg] + (ra + rd) =~= (seq![seg] + ra) + rd);
        },
    }
}

/// The segments of `d` from `i` are those of `d` with its first `k`
/// characters removed, when the first clear's segment does not reach back
/// before `i`.
proof fn lemma_segments_shift(d: Seq<char>, k: int, i: int)
    requires
        0 <= k <= i <= d.len(),
        spec_find_from(d, clear_screen(), i) matches Some(c) ==> segment_end(d, c) >= i,
    ensures
        clear_segments(d.skip(k), i - k) == (clear_segments(d, i).0, clear_segments(d, i).1 - k),
    decreases d.len() - i,
{
    let dk = d.skip(k);
    lemma_find_shift(d, clear_screen(), k, i);
    lemma_find_from_found(d, clear_screen(), i);
    match spec_find_from(d, clear_screen(), i) {
        None => {},
        Some(c) => {
            lemma_occurs_shift(d, clear_scrollback(), k, c + 4);
            if c - 3 >= k {
                lemma_occurs_shift(d, cursor_home(), k, c - 3);
            }
            assert(segment_end(dk, c - k) == segment_end(d, c) - k);
            assert(resume_at(dk, c - k) == resume_at(d, c) - k);
            let r = resume_at(d, c);
            lemma_resume_after_j(d, c);
            lemma_find_from_found(d, clear_screen(), r);
            match spec_find_from(d, clear_screen(), r) {
                Some(c2) => {
                    lemma_segment_end_after(d, r, c2);
                },
                None => {},
            }
            lemma_segments_shift(d, k, r);
            assert(dk.subrange(i - k, segment_end(d, c) - k) =~= d.subrange(i, segment_end(d, c)));
        },
    }
}

/// A beginning of a beginning of a screen clear is one too.
proof fn lemma_clear_start_prefix(s: Seq<char>, m: int)
    requires
        is_clear_start(s),
        0 < m <= s.len(),
    ensures
        is_clear_start(s.take(m)),
{
    if s.len() < 7 && s == (cursor_home() + clear_screen()).take(s.len() as int) {
        assert(s.take(m) =~= (cursor_home() + clear_screen()).take(m));
    } else {
        assert(s.take(m) =~= clear_screen().take(m));
    }
}

/// `held_len` picks the longest end that may begin a clear.
proof fn lemma_held_len(d: Seq<char>, k: int)
    requires
        0 <= k <= d.len(),
    ensures
        0 <= held_len(d, k) <= k,
        held_len(d, k) > 0 ==> is_clear_start(suffix(d, held_len(d, k))),
        forall|j: int| held_len(d, k) < j <= k ==> !is_clear_start(#[trigger] suffix(d, j)),
    decreases k,
{
    if k > 0 && !is_clear_start(suffix(d, k)) {
        lemma_held_len(d, k - 1);
    }
}

proof fn lemma_held_len_eq(d: Seq<char>, m1: int, m2: int)
    requires
        0 <= m1 <= m2 <= d.len(),
        forall|j: int| m1 < j <= m2 ==> !is_clear_start(#[trigger] suffix(d, j)),
    ensures
        held_len(d, m2) == held_len(d, m1),
    decreases m2 - m1,
{
    if m1 < m2 {
        lemma_held_len_eq(d, m1, m2 - 1);
    }
}

proof fn lemma_held_len_shift(d: Seq<char>, k: int, m: int)
    requires
        0 <= k <= d.len(),
        0 <= m <= d.len() - k,
    ensures
        held_len(d.skip(k), m) == held_len(d, m),
    decreases m,
{
    if m > 0 {
        assert(suffix(d.skip(k), m) =~= suffix(d, m));
        lemma_held_len_shift(d, k, m - 1);
    }
}

proof fn lemma_append_last_twice(h: Seq<Seq<char>>, x: Seq<char>, y: Seq<char>)
    ensures
        append_last(append_last(h, x), y) == append_last(h, x + y),
{
    if h.len() == 0 {
        assert(append_last(append_last(h, x), y) =~= seq![x + y]);
    } else {
        assert(h.last() + x + y =~= h.last() + (x + y));
        assert(append_last(append_last(h, x), y) =~= append_last(h, x + y));
    }
}

proof fn lemma_feed_segments_concat(h: Seq<Seq<char>>, s: Seq<Seq<char>>, t: Seq<Seq<char>>)
    ensures
        feed_segments(h, s + t) == feed_segments(feed_segments(h, s), t),
    decreases t.len(),
{
    if t.len() == 0 {
        assert(s + t =~= s);
    } else {
        assert((s + t).drop_last() =~= s + t.drop_last());
        lemma_feed_segments_concat(h, s, t.drop_last());
    }
}

proof fn lemma_feed_segments_join(h: Seq<Seq<char>>, x: Seq<char>, y: Seq<char>, r: Seq<Seq<char>>)
    ensures
        feed_segments(append_last(h, x), seq![y] + r) == feed_segments(h, seq![x + y] + r),
{
    lemma_feed_segments_concat(append_last(h, x), seq![y], r);
    lemma_feed_segments_concat(h, seq![x + y], r);
    assert(seq![y].drop_last() =~= Seq::<Seq<char>>::empty());
    assert(seq![x + y].drop_last() =~= Seq::<Seq<char>>::empty());
    assert(feed_segments(append_last(h, x), Seq::<Seq<char>>::empty()) == append_last(h, x));
    assert(feed_segments(h, Seq::<Seq<char>>::empty()) == h);
    assert(feed_segments(append_last(h, x), seq![y]) == append_last(append_last(h, x), y).push(
        Seq::empty(),
    ));
    assert(feed_segments(h, seq![x + y]) == append_last(h, x + y).push(Seq::empty()));
    lemma_append_last_twice(h, x, y);
}

/// The state after the first part `d.take(n)` of `d` was encoded: where
/// its last clear ends, and where its held-back end begins.
pub open spec fn first_part(d: Seq<char>, n: int) -> (int, int) {
    let aa = d.take(n);
    let cur1 = clear_segments(aa, 0).1;
    (cur1, n - held_len(aa, n - cur1))
}

proof fn lemma_first_part(d: Seq<char>, n: int)
    requires
        0 <= n <= d.len(),
        !cuts_scrollback(d, n),
    ensures
        ({
            let aa = d.take(n);
            let (cur1, k) = first_part(d, n);
            &&& 0 <= cur1 <= k <= n
            &&& cur1 == 0 || d[cur1 - 1] == 'J'
            &&& spec_find_from(aa, clear_screen(), cur1) is None
            &&& clear_segments(d, 0).0 == clear_segments(aa, 0).0 + clear_segments(d, cur1).0
            &&& clear_segments(d, 0).1 == clear_segments(d, cur1).1
            &&& forall|j: int|
                n - k < j <= n - cur1 ==> !is_clear_start(#[trigger] suffix(aa, j))
        }),
{
    let aa = d.take(n);
    lemma_segments_end(aa, 0);
    lemma_segments_prefix(d, n, 0);
    let cur1 = clear_segments(aa, 0).1;
    lemma_held_len(aa, n - cur1);
}

/// The chunks law when no clear follows the first part's last one.
#[verifier::rlimit(40)]
proof fn lemma_chunks_no_clear(fed: Seq<Seq<char>>, d: Seq<char>, n: int)
    requires
        0 <= n <= d.len(),
        !cuts_scrollback(d, n),
        spec_find_from(d, clear_screen(), first_part(d, n).0) is None,
    ensures
        ({
            let aa = d.take(n);
            let (cur1, k) = first_part(d, n);
            let f1 = append_last(feed_segments(fed, clear_segments(aa, 0).0), aa.subrange(cur1, k));
            spec_encode_text(f1, d.skip(k)) == spec_encode_text(fed, d)
        }),
{
    lemma_first_part(d, n);
    let aa = d.take(n);
    let (cur1, k) = first_part(d, n);
    let s1 = clear_segments(aa, 0).0;
    let ff = feed_segments(fed, s1);
    let f1 = append_last(ff, aa.subrange(cur1, k));
    let d2 = d.skip(k);
    lemma_find_from_found(d, clear_screen(), cur1);
    assert(clear_segments(d, cur1) == (Seq::<Seq<char>>::empty(), cur1));
    assert(clear_segments(d, 0) == (s1, cur1)) by {
        assert(s1 + Seq::<Seq<char>>::empty() =~= s1);
    }
    lemma_find_shift(d, clear_screen(), k, k);
    lemma_find_from_found(d, clear_screen(), k);
    assert(clear_segments(d2, 0) == (Seq::<Seq<char>>::empty(), 0int));
    assert forall|j: int| d.len() - k < j <= d.len() - cur1 implies !is_clear_start(
        #[trigger] suffix(d, j),
    ) by {
        if is_clear_start(suffix(d, j)) {
            let st = d.len() - j;
            lemma_clear_start_prefix(suffix(d, j), n - st);
            assert(suffix(d, j).take(n - st) =~= suffix(aa, n - st));
        }
    }
    lemma_held_len_eq(d, d.len() - k, d.len() - cur1);
    lemma_held_len_shift(d, k, d.len() - k);
    lemma_held_len(d, d.len() - k);
    let h = held_len(d, d.len() - cur1);
    assert(feed_segments(f1, Seq::<Seq<char>>::empty()) == f1);
    lemma_append_last_twice(ff, aa.subrange(cur1, k), d2.subrange(0, d2.len() - h));
    assert(aa.subrange(cur1, k) + d2.subrange(0, d2.len() - h) =~= d.subrange(cur1, d.len() - h));
    assert(d2.subrange(d2.len() - h, d2.len() as int) =~= d.subrange(
        d.len() - h,
        d.len() as int,
    ));
}

/// The chunks law when a clear follows the first part's last one: it lies
/// past the first part's held-back end.
#[verifier::rlimit(40)]
proof fn lemma_chunks_clear(fed: Seq<Seq<char>>, d: Seq<char>, n: int, c: int)
    requires
        0 <= n <= d.len(),
        !cuts_scrollback(d, n),
        spec_find_from(d, clear_screen(), first_part(d, n).0) == Some(c),
    ensures
        ({
            let aa = d.take(n);
            let (cur1, k) = first_part(d, n);
            let f1 = append_last(feed_segments(fed, clear_segments(aa, 0).0), aa.subrange(cur1, k));
            spec_encode_text(f1, d.skip(k)) == spec_encode_text(fed, d)
        }),
{
    lemma_first_part(d, n);
    let aa = d.take(n);
    let (cur1, k) = first_part(d, n);
    let s1 = clear_segments(aa, 0).0;
    let ff = feed_segments(fed, s1);
    let d2 = d.skip(k);
    lemma_find_prefix(d, clear_screen(), n, cur1);
    lemma_find_from_found(d, clear_screen(), cur1);
    assert(c + 4 > n);
    assert(d.subrange(c, c + 4) == clear_screen());
    if c < n {
        assert(suffix(aa, n - c) =~= clear_screen().take(n - c)) by {
            assert forall|t: int| 0 <= t < n - c implies suffix(aa, n - c)[t] == clear_screen()[t] by {
                assert(d.subrange(c, c + 4)[t] == d[c + t]);
            }
        }
        assert(is_clear_start(suffix(aa, n - c)));
    }
    assert(c >= k);
    lemma_segment_end_after(d, cur1, c);
    let se = segment_end(d, c);
    if se < c && se < n {
        assert(d.subrange(c - 3, c) == cursor_home());
        assert(suffix(aa, n - se) =~= (cursor_home() + clear_screen()).take(n - se)) by {
            assert forall|t: int| 0 <= t < n - se implies suffix(aa, n - se)[t] == (cursor_home()
                + clear_screen())[t] by {
                if t < 3 {
                    assert(d.subrange(c - 3, c)[t] == d[se + t]);
                } else {
                    assert(d.subrange(c, c + 4)[t - 3] == d[se + t]);
                }
            }
        }
        assert(is_clear_start(suffix(aa, n - se)));
    }
    assert(se >= k);
    lemma_find_between(d, clear_screen(), k, c);
    lemma_segments_shift(d, k, k);
    let r = resume_at(d, c);
    let rest = clear_segments(d, r);
    let e = rest.1;
    lemma_resume_after_j(d, c);
    lemma_segments_end(d, r);
    assert(clear_segments(d, cur1) == (seq![d.subrange(cur1, se)] + rest.0, e));
    assert(clear_segments(d, k) == (seq![d.subrange(k, se)] + rest.0, e));
    assert(clear_segments(d2, 0) == (seq![d.subrange(k, se)] + rest.0, e - k));
    lemma_held_len_shift(d, k, d.len() - e);
    let h = held_len(d, d.len() - e);
    lemma_held_len(d, d.len() - e);
    assert(d2.len() - (e - k) == d.len() - e);
    lemma_feed_segments_join(ff, aa.subrange(cur1, k), d.subrange(k, se), rest.0);
    assert(aa.subrange(cur1, k) + d.subrange(k, se) =~= d.subrange(cur1, se));
    lemma_feed_segments_concat(fed, s1, seq![d.subrange(cur1, se)] + rest.0);
    assert(d2.subrange(e - k, d2.len() - h) =~= d.subrange(e, d.len() - h));
    assert(d2.subrange(d2.len() - h, d2.len() as int) =~= d.subrange(
        d.len() - h,
        d.len() as int,
    ));
}

/// Where output is split into events does not change the text each
/// terminal is fed, nor what is held back: feeding `a` then `b` is feeding
/// `a + b`, unless the split falls within or at the start of a
/// clear-scrollback that follows a screen clear.
pub proof fn lemma_encode_output_chunks(
    fed: Seq<Seq<char>>,
    pending: Seq<char>,
    a: Seq<char>,
    b: Seq<char>,
)
    requires
        !cuts_scrollback(pending + a + b, (pending + a).len() as int),
    ensures
        ({
            let (f1, p1) = spec_encode_output(fed, pending, a);
            spec_encode_output(f1, p1, b) == spec_encode_output(fed, pending, a + b)
        }),
{
    let d = pending + a + b;
    assert(pending + (a + b) =~= d);
    let n = (pending + a).len() as int;
    assert(pending + a =~= d.take(n));
    lemma_first_part(d, n);
    let (cur1, k) = first_part(d, n);
    let p1 = d.take(n).subrange(k, n);
    assert(p1 + b =~= d.skip(k));
    match spec_find_from(d, clear_screen(), cur1) {
        None => lemma_chunks_no_clear(fed, d, n),
        Some(c) => lemma_chunks_clear(fed, d, n, c),
    }
}

/// Turns a recording into plain text.
pub struct TextEncoder {
    collector: Option<Collector>,
    pending_output: Vec<char>,
    term_size: Option<(u16, u16)>,
    fed: Ghost<Seq<Seq<char>>>,
}

impl TextEncoder {
    /// Whether the header was seen and the encoder not flushed: a terminal
    /// of a size of at least 1x1 is collecting text.
    pub closed spec fn ready(&self) -> bool {
        &&& self.collector is Some
        &&& self.term_size matches Some((c, r)) && c >= 1 && r >= 1
    }

    /// The terminal size, once the header was seen.
    pub closed spec fn size(&self) -> Option<(u16, u16)> {
        self.term_size
    }

    /// The output held back because its end may begin a screen clear.
    pub closed spec fn pending(&self) -> Seq<char> {
        self.pending_output@
    }

    /// The text fed to each terminal so far, in order; the current one last.
    pub closed spec fn fed(&self) -> Seq<Seq<char>> {
        self.fed@
    }

    /// The current terminal: the size it was made with and what it was
    /// given since.
    pub closed spec fn terminal(&self) -> (usize, usize, Option<usize>, Seq<VtInput>) {
        match self.collector {
            Some(c) => c@,
            None => (0, 0, None, Seq::empty()),
        }
    }

    pub fn new() -> (e: Self)
        ensures
            !e.ready(),
            e.size() is None,
            e.pending() == Seq::<char>::empty(),
            e.fed() == Seq::<Seq<char>>::empty(),
    {
        TextEncoder {
            collector: None,
            pending_output: Vec::new(),
            term_size: None,
            fed: Ghost(Seq::empty()),
        }
    }

    /// Starts a terminal of the recording's size; writes nothing.
    pub fn header(&mut self, header: &Header) -> (r: Vec<u8>)
        requires
            header.term_cols >= 1,
            header.term_rows >= 1,
        ensures
            r@.len() == 0,
            final(self).ready(),
            final(self).size() == Some((header.term_cols, header.term_rows)),
            final(self).fed() == old(self).fed().push(Seq::empty()),
            final(self).pending() == old(self).pending(),
            final(self).terminal() == fresh_view((header.term_cols, header.term_rows)),
    {
        self.term_size = Some((header.term_cols, header.term_rows));
        self.collector = Some(init_collector(header.term_cols, header.term_rows));
        self.fed = Ghost(self.fed@.push(Seq::empty()));
        Vec::new()
    }

    /// Splits output at screen clears: the text before a clear goes to the
    /// current terminal, which is then written out and replaced; an end that
    /// may begin a clear is held back for the next output.
    fn encode_output(&mut self, data: &str) -> (r: Vec<u8>)
        requires
            old(self).ready(),
        ensures
            final(self).ready(),
            final(self).size() == old(self).size(),
            (final(self).fed(), final(self).pending()) == spec_encode_output(
                old(self).fed(),
                old(self).pending(),
                data@,
            ),
            ({
                let (lines, v) = spec_output_lines(
                    old(self).terminal(),
                    old(self).size()->0,
                    old(self).pending(),
                    data@,
                );
                r@ == lines_bytes(lines) && final(self).terminal() == v
            }),
    {
        let (cols, rows) = match self.term_size {
            Some(sz) => sz,
            None => {
                return Vec::new();
            },
        };
        let mut col = match self.collector.take() {
            Some(c) => c,
            None => {
                return Vec::new();
            },
        };
        let mut d: Vec<char> = Vec::new();
        std::mem::swap(&mut d, &mut self.pending_output);
        append_str(&mut d, data);
        let ghost dd = d@;
        let ghost fed0 = self.fed@;
        let ghost v0 = col@;
        let clear: Vec<char> = vec!['\u{1b}', '[', '2', 'J'];
        let home: Vec<char> = vec!['\u{1b}', '[', 'H'];
        let scrollback: Vec<char> = vec!['\u{1b}', '[', '3', 'J'];
        assert(clear@ =~= clear_screen());
        assert(home@ =~= cursor_home());
        assert(scrollback@ =~= clear_scrollback());
        let mut bytes: Vec<u8> = Vec::new();
        let mut cursor: usize = 0;
        let ghost mut done: Seq<Seq<char>> = Seq::empty();
        assert(done + clear_segments(dd, 0).0 =~= clear_segments(dd, 0).0);
        loop
            invariant
                d@ == dd,
                clear@ == clear_screen(),
                home@ == cursor_home(),
                scrollback@ == clear_scrollback(),
                cursor <= d.len(),
                cursor == 0 || d@[cursor - 1] == 'J',
                clear_segments(dd, 0) == (
                    done + clear_segments(dd, cursor as int).0,
                    clear_segments(dd, cursor as int).1,
                ),
                self.fed@ == feed_segments(fed0, done),
                self.term_size == Some((cols, rows)),
                cols >= 1,
                rows >= 1,
                bytes@ == lines_bytes(segments_lines(v0, (cols, rows), done).0),
                col@ == segments_lines(v0, (cols, rows), done).1,
            ensures
                d@ == dd,
                cursor <= d.len(),
                spec_find_from(dd, clear_screen(), cursor as int) is None,
                clear_segments(dd, 0) == (
                    done + clear_segments(dd, cursor as int).0,
                    clear_segments(dd, cursor as int).1,
                ),
                self.fed@ == feed_segments(fed0, done),
                self.term_size == Some((cols, rows)),
                cols >= 1,
                rows >= 1,
                bytes@ == lines_bytes(segments_lines(v0, (cols, rows), done).0),
                col@ == segments_lines(v0, (cols, rows), done).1,
            decreases d.len() - cursor,
        {
            proof {
                lemma_find_from_found(dd, clear_screen(), cursor as int);
            }
            match find_from(d.as_slice(), clear.as_slice(), cursor) {
                None => {
                    break ;
                },
                Some(c) => {
                    let mut start = c;
                    if c >= 3 && matches_at(d.as_slice(), home.as_slice(), c - 3) {
                        start = c - 3;
                    }
                    proof {
                        assert(d@.subrange(c as int, c + 4) == clear_screen());
                        assert(d@[c + 3] == d@.subrange(c as int, c + 4)[3]);
                        if start < cursor {
                            let i = cursor - 1 - (c - 3);
                            assert(d@.subrange(c - 3, c as int) == cursor_home());
                            assert(d@[cursor - 1] == d@.subrange(c - 3, c as int)[i]);
                        }
                        assert(start as int == segment_end(dd, c as int));
                    }
                    let seg = slice_copy(d.as_slice(), cursor, start);
                    let s = string_from_chars(seg.as_slice());
                    let ghost w = col@;
                    let ghost prev = segments_lines(v0, (cols, rows), done).0;
                    let lines = transcript_feed(&mut col, s.as_str());
                    append_bytes(&mut bytes, text_lines_to_bytes(&lines).as_slice());
                    let ghost fed_lines = transcript_fed_lines(w, seg@);
                    let ghost w1 = col@;
                    let lines = transcript_finish(col);
                    append_bytes(&mut bytes, text_lines_to_bytes(&lines).as_slice());
                    col = init_collector(cols, rows);
                    proof {
                        lemma_lines_bytes_concat(prev, fed_lines);
                        lemma_lines_bytes_concat(prev + fed_lines, transcript_final_lines(w1));
                    }
                    let mut next = c + 4;
                    if matches_at(d.as_slice(), scrollback.as_slice(), next) {
                        next = next + 4;
                    }
                    proof {
                        if next == c + 8 {
                            assert(d@.subrange(c + 4, c + 8) == clear_scrollback());
                            assert(d@[c + 7] == d@.subrange(c + 4, c + 8)[3]);
                        }
                        assert(next as int == resume_at(dd, c as int));
                        let rest = clear_segments(dd, next as int);
                        assert(clear_segments(dd, cursor as int) == (
                            seq![dd.subrange(cursor as int, start as int)] + rest.0,
                            rest.1,
                        ));
                        assert(done + (seq![seg@] + rest.0) =~= done.push(seg@) + rest.0);
                        assert(done.push(seg@).drop_last() =~= done);
                        done = done.push(seg@);
                        assert(segments_lines(v0, (cols, rows), done).0 == prev + fed_lines
                            + transcript_final_lines(w1));
                    }
                    self.fed = Ghost(append_last(self.fed@, seg@).push(Seq::empty()));
                    cursor = next;
                },
            }
        }
        assert(clear_segments(dd, cursor as int).0 =~= Seq::<Seq<char>>::empty());
        assert(done + Seq::<Seq<char>>::empty() =~= done);
        let avail = d.len() - cursor;
        let mut k: usize = avail;
        while k > 0 && !ends_with_clear_start(d.as_slice(), k)
            invariant
                k <= avail,
                avail <= d.len(),
                d@ == dd,
                held_len(dd, avail as int) == held_len(dd, k as int),
            decreases k,
        {
            k = k - 1;
        }
        let feed_end = d.len() - k;
        let tail = slice_copy(d.as_slice(), cursor, feed_end);
        let s = string_from_chars(tail.as_slice());
        let ghost w = col@;
        let ghost prev = segments_lines(v0, (cols, rows), done).0;
        let lines = transcript_feed(&mut col, s.as_str());
        append_bytes(&mut bytes, text_lines_to_bytes(&lines).as_slice());
        proof {
            lemma_lines_bytes_concat(prev, transcript_fed_lines(w, tail@));
        }
        self.fed = Ghost(append_last(self.fed@, tail@));
        self.pending_output = slice_copy(d.as_slice(), feed_end, d.len());
        self.collector = Some(col);
        bytes
    }

    /// Output is split at screen clears (see `spec_encode_output`); a
    /// resize resizes the current terminal; other events write nothing.
    pub fn event(&mut self, event: Event) -> (r: Vec<u8>)
        requires
            old(self).ready(),
            event.data matches EventData::Resize(c, rw) ==> c >= 1 && rw >= 1,
        ensures
            final(self).ready(),
            match event.data {
                EventData::Output(s) => {
                    &&& (final(self).fed(), final(self).pending()) == spec_encode_output(
                        old(self).fed(),
                        old(self).pending(),
                        s@,
                    )
                    &&& final(self).size() == old(self).size()
                    &&& ({
                        let (lines, v) = spec_output_lines(
                            old(self).terminal(),
                            old(self).size()->0,
                            old(self).pending(),
                            s@,
                        );
                        r@ == lines_bytes(lines) && final(self).terminal() == v
                    })
                },
                EventData::Resize(c, rw) => {
                    &&& final(self).size() == Some((c, rw))
                    &&& final(self).fed() == old(self).fed()
                    &&& final(self).pending() == old(self).pending()
                    &&& r@ == lines_bytes(
                        transcript_resized_lines(old(self).terminal(), c as usize, rw as usize),
                    )
                    &&& final(self).terminal() == given(
                        old(self).terminal(),
                        VtInput::Size(c as usize, rw as usize),
                    )
                },
                _ => {
                    &&& r@.len() == 0
                    &&& final(self).size() == old(self).size()
                    &&& final(self).fed() == old(self).fed()
                    &&& final(self).pending() == old(self).pending()
                    &&& final(self).terminal() == old(self).terminal()
                },
            },
    {
        match event.data {
            EventData::Output(data) => self.encode_output(data.as_str()),
            EventData::Resize(cols, rows) => {
                self.term_size = Some((cols, rows));
                match self.collector.take() {
                    Some(mut col) => {
                        let lines = transcript_resize(&mut col, cols as usize, rows as usize);
                        self.collector = Some(col);
                        text_lines_to_bytes(&lines)
                    },
                    None => Vec::new(),
                }
            },
            _ => Vec::new(),
        }
    }

    /// Feeds the held-back output and writes out the current terminal's
    /// remaining text; the encoder is then done.
    pub fn flush(&mut self) -> (r: Vec<u8>)
        requires
            old(self).ready(),
        ensures
            !final(self).ready(),
            final(self).size() == old(self).size(),
            final(self).fed() == append_last(old(self).fed(), old(self).pending()),
            final(self).pending() == Seq::<char>::empty(),
            r@ == lines_bytes(
                transcript_fed_lines(old(self).terminal(), old(self).pending()) + transcript_final_lines(
                    fed_view(old(self).terminal(), old(self).pending()),
                ),
            ),
    {
        let mut pending: Vec<char> = Vec::new();
        std::mem::swap(&mut pending, &mut self.pending_output);
        match self.collector.take() {
            Some(mut col) => {
                let s = string_from_chars(pending.as_slice());
                let ghost w = col@;
                let lines = transcript_feed(&mut col, s.as_str());
                let mut bytes = text_lines_to_bytes(&lines);
                let ghost w1 = col@;
                let lines = transcript_finish(col);
                append_bytes(&mut bytes, text_lines_to_bytes(&lines).as_slice());
                proof {
                    lemma_lines_bytes_concat(
                        transcript_fed_lines(w, pending@),
                        transcript_final_lines(w1),
                    );
                }
                self.fed = Ghost(append_last(self.fed@, pending@));
                bytes
            },
            None => Vec::new(),
        }
    }
}

} // verus!

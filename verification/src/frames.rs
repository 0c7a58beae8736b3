//! Frames of a recording: the screen-affecting events, numbered from 1,
//! and the escaping of untrusted text for display.
use vstd::prelude::*;
use crate::asciicast::{Event, EventData, Header};
use crate::json::hex_digit;
use crate::text::{chars_of, push_decimal, spec_decimal, string_from_chars};
use crate::tty::TtySize;

verus! {

/// The smallest terminal dimension a recording may declare.
pub const MIN_DIMENSION: usize = 1;

/// The largest terminal dimension a recording may declare. The virtual
/// terminal allocates its whole grid at once, so a crafted recording must
/// not be able to exhaust memory; no real terminal comes near this.
pub const MAX_DIMENSION: usize = 2048;

/// What a frame shows.
pub enum FrameKind {
    /// Output changed the screen.
    Output,
    /// The terminal was resized to columns, rows.
    Resize(u16, u16),
    /// A marker, with its label.
    Marker(String),
}

impl FrameKind {
    /// The name of the frame kind.
    pub fn type_str(&self) -> (s: &'static str)
        ensures
            s@ == match self {
                FrameKind::Output => "output"@,
                FrameKind::Resize(..) => "resize"@,
                FrameKind::Marker(_) => "marker"@,
            },
    {
        match self {
            FrameKind::Output => "output",
            FrameKind::Resize(..) => "resize",
            FrameKind::Marker(_) => "marker",
        }
    }
}

/// Whether an event produces a frame. Output and resize events change the
/// screen and markers are listed for orientation; input, exit and other
/// events are not frames. This fixes the numbering of frames from 1.
pub open spec fn spec_is_frame_event(data: EventData) -> bool {
    data is Output || data is Resize || data is Marker
}

/// Whether an event produces a frame.
pub fn is_frame_event(data: &EventData) -> (r: bool)
    ensures
        r == spec_is_frame_event(*data),
{
    match data {
        EventData::Output(_) => true,
        EventData::Resize(..) => true,
        EventData::Marker(_) => true,
        _ => false,
    }
}

/// `v` clamped to the allowed range of dimensions.
pub open spec fn clamp_dimension(v: usize) -> usize {
    if v < MIN_DIMENSION {
        MIN_DIMENSION
    } else if v > MAX_DIMENSION {
        MAX_DIMENSION
    } else {
        v
    }
}

/// Terminal dimensions clamped to the allowed range.
pub fn clamp_size(cols: usize, rows: usize) -> (r: (usize, usize))
    ensures
        r == (clamp_dimension(cols), clamp_dimension(rows)),
{
    let c = if cols < MIN_DIMENSION {
        MIN_DIMENSION
    } else if cols > MAX_DIMENSION {
        MAX_DIMENSION
    } else {
        cols
    };
    let r = if rows < MIN_DIMENSION {
        MIN_DIMENSION
    } else if rows > MAX_DIMENSION {
        MAX_DIMENSION
    } else {
        rows
    };
    (c, r)
}

/// Whether `c` is a control character (general category Cc), as
/// `char::is_control` sees it.
pub open spec fn is_control(c: char) -> bool {
    (c as u32) <= 0x1f || (0x7f <= (c as u32) && (c as u32) <= 0x9f)
}

/// The lowercase hexadecimal digits of `n`, without leading zeros.
pub open spec fn hex_digits(n: nat) -> Seq<char>
    decreases n,
{
    if n < 16 {
        seq![hex_digit(n)]
    } else {
        hex_digits(n / 16) + seq![hex_digit(n % 16)]
    }
}

/// How `char::escape_default` writes a control character: `\t`, `\r` and
/// `\n` for tab, carriage return and line feed, `\u{..}` with lowercase hex
/// digits for the others.
pub open spec fn escape_control(c: char) -> Seq<char> {
    if c == '\t' {
        seq!['\\', 't']
    } else if c == '\r' {
        seq!['\\', 'r']
    } else if c == '\n' {
        seq!['\\', 'n']
    } else {
        seq!['\\', 'u', '{'] + hex_digits(c as u32 as nat) + seq!['}']
    }
}

/// `s` with each control character escaped and every other character kept.
pub open spec fn spec_escape_controls(s: Seq<char>) -> Seq<char>
    decreases s.len(),
{
    if s.len() == 0 {
        seq![]
    } else {
        spec_escape_controls(s.drop_last()) + if is_control(s.last()) {
            escape_control(s.last())
        } else {
            seq![s.last()]
        }
    }
}

proof fn lemma_hex_digits_printable(n: nat)
    ensures
        forall|i: int| 0 <= i < hex_digits(n).len() ==> !is_control(#[trigger] hex_digits(n)[i]),
    decreases n,
{
    if n >= 16 {
        lemma_hex_digits_printable(n / 16);
        let d = n % 16;
        assert(hex_digits(n)[hex_digits(n).len() - 1] == crate::json::hex_digit(d));
        assert forall|i: int| 0 <= i < hex_digits(n).len() implies !is_control(
            #[trigger] hex_digits(n)[i],
        ) by {
            if i < hex_digits(n).len() - 1 {
                assert(hex_digits(n)[i] == hex_digits(n / 16)[i]);
            }
        }
    }
}

/// Escaping leaves no control character (no ESC, BEL, CR or LF), and a
/// text without control characters comes back unchanged.
pub proof fn lemma_escaped_has_no_controls(s: Seq<char>)
    ensures
        forall|i: int|
            0 <= i < spec_escape_controls(s).len() ==> !is_control(
                #[trigger] spec_escape_controls(s)[i],
            ),
        (forall|i: int| 0 <= i < s.len() ==> !is_control(#[trigger] s[i])) ==> spec_escape_controls(
            s,
        ) == s,
    decreases s.len(),
{
    if s.len() > 0 {
        let p = s.drop_last();
        lemma_escaped_has_no_controls(p);
        let c = s.last();
        let tail = if is_control(c) {
            escape_control(c)
        } else {
            seq![c]
        };
        lemma_hex_digits_printable(c as u32 as nat);
        assert forall|i: int| 0 <= i < tail.len() implies !is_control(#[trigger] tail[i]) by {
            if is_control(c) && c != '\t' && c != '\r' && c != '\n' {
                let h = hex_digits(c as u32 as nat);
                if 3 <= i < 3 + h.len() {
                    assert(tail[i] == h[i - 3]);
                }
            }
        }
        let e = spec_escape_controls(s);
        assert(e == spec_escape_controls(p) + tail);
        assert forall|i: int| 0 <= i < e.len() implies !is_control(#[trigger] e[i]) by {
            if i < spec_escape_controls(p).len() {
                assert(e[i] == spec_escape_controls(p)[i]);
            } else {
                assert(e[i] == tail[i - spec_escape_controls(p).len()]);
            }
        }
        if forall|i: int| 0 <= i < s.len() ==> !is_control(#[trigger] s[i]) {
            assert forall|i: int| 0 <= i < p.len() implies !is_control(#[trigger] p[i]) by {
                assert(p[i] == s[i]);
            }
            assert(!is_control(s[s.len() - 1]));
            assert(s == p.push(c));
            assert(e =~= s);
        }
    }
}

/// Appends the hexadecimal digits of `n`.
fn push_hex_digits(out: &mut Vec<char>, n: u32)
    ensures
        final(out)@ == old(out)@ + hex_digits(n as nat),
    decreases n,
{
    if n >= 16 {
        push_hex_digits(out, n / 16);
    }
    out.push(crate::asciicast::v2::hex_char((n % 16) as u8));
    assert(out@ =~= old(out)@ + hex_digits(n as nat));
}

/// Escapes the control characters (ESC, CR and LF among them) of untrusted
/// text, so that it is safe to write to a terminal or a line-oriented
/// format. Printable characters, non-ASCII ones included, stay as they are.
/// Marker labels come from the recording and could otherwise inject escape
/// sequences or split the output across lines.
pub fn escape_controls(s: &str) -> (r: String)
    ensures
        r@ == spec_escape_controls(s@),
{
    let chars = chars_of(s);
    let mut out: Vec<char> = Vec::new();
    let mut i: usize = 0;
    while i < chars.len()
        invariant
            chars@ == s@,
            i <= chars@.len(),
            out@ == spec_escape_controls(chars@.take(i as int)),
        decreases chars@.len() - i,
    {
        let ch = chars[i];
        assert(chars@.take(i + 1).drop_last() =~= chars@.take(i as int));
        let code = ch as u32;
        if code <= 0x1f || (0x7f <= code && code <= 0x9f) {
            if ch == '\t' {
                out.push('\\');
                out.push('t');
            } else if ch == '\r' {
                out.push('\\');
                out.push('r');
            } else if ch == '\n' {
                out.push('\\');
                out.push('n');
            } else {
                out.push('\\');
                out.push('u');
                out.push('{');
                push_hex_digits(&mut out, code);
                out.push('}');
            }
        } else {
            out.push(ch);
        }
        i = i + 1;
        assert(out@ =~= spec_escape_controls(chars@.take(i as int)));
    }
    assert(chars@.take(i as int) =~= chars@);
    string_from_chars(out.as_slice())
}

/// The virtual terminal of the avt crate.
#[verifier::external_type_specification]
#[verifier::external_body]
pub struct ExTerminal(avt::Terminal);

/// A cell color: a palette index or an RGB triple.
#[derive(Clone, Copy, Debug, PartialEq, Eq, Structural)]
pub enum ColorInfo {
    Indexed(u8),
    Rgb(u8, u8, u8),
}

/// The colors and text attributes a cell is drawn with.
#[derive(Clone, Copy, Debug, PartialEq, Eq, Structural)]
pub struct PenInfo {
    pub fg: Option<ColorInfo>,
    pub bg: Option<ColorInfo>,
    pub bold: bool,
    pub faint: bool,
    pub italic: bool,
    pub underline: bool,
    pub blink: bool,
    pub inverse: bool,
    pub strikethrough: bool,
}

/// A screen cell: its character, its width in columns (1, 2 for the head
/// of a wide character, 0 for the column a wide character also covers),
/// and its pen.
#[derive(Clone, Copy, Debug, PartialEq, Eq, Structural)]
pub struct CellInfo {
    pub ch: char,
    pub width: u8,
    pub pen: PenInfo,
}

/// The pen of the terminal's initial state: default colors, no attributes.
pub open spec fn default_pen() -> PenInfo {
    PenInfo {
        fg: None,
        bg: None,
        bold: false,
        faint: false,
        italic: false,
        underline: false,
        blink: false,
        inverse: false,
        strikethrough: false,
    }
}

/// A blank cell drawn with the default pen.
pub open spec fn default_cell() -> CellInfo {
    CellInfo { ch: ' ', width: 1, pen: default_pen() }
}

/// Whether a pen is the default one.
pub fn pen_is_default(p: &PenInfo) -> (r: bool)
    ensures
        r == (*p == default_pen()),
{
    p.fg.is_none() && p.bg.is_none() && !p.bold && !p.faint && !p.italic && !p.underline
        && !p.blink && !p.inverse && !p.strikethrough
}

/// Whether a cell is blank and drawn with the default pen.
pub fn cell_is_default(c: &CellInfo) -> (r: bool)
    ensures
        r == (*c == default_cell()),
{
    c.ch == ' ' && c.width == 1 && pen_is_default(&c.pen)
}

/// A blank cell drawn with the default pen.
pub fn blank_cell() -> (c: CellInfo)
    ensures
        c == default_cell(),
{
    CellInfo {
        ch: ' ',
        width: 1,
        pen: PenInfo {
            fg: None,
            bg: None,
            bold: false,
            faint: false,
            italic: false,
            underline: false,
            blink: false,
            inverse: false,
            strikethrough: false,
        },
    }
}

/// What a virtual terminal is given.
pub enum VtInput {
    /// Text to interpret.
    Text(Seq<char>),
    /// A new size: columns, rows.
    Size(usize, usize),
}

/// A virtual terminal of the avt crate, with what it was given since it
/// was made.
pub struct Vt {
    pub(crate) term: avt::Terminal,
    cols: usize,
    rows: usize,
    scrollback: Option<usize>,
    inputs: Ghost<Seq<VtInput>>,
}

impl View for Vt {
    /// The columns and rows the terminal was made with, the lines of
    /// scrollback it keeps (all for `None`), and what it was given since.
    type V = (usize, usize, Option<usize>, Seq<VtInput>);

    closed spec fn view(&self) -> (usize, usize, Option<usize>, Seq<VtInput>) {
        (self.cols, self.rows, self.scrollback, self.inputs@)
    }
}

/// The view of a terminal once it is given one more input.
pub open spec fn given(v: (usize, usize, Option<usize>, Seq<VtInput>), i: VtInput) -> (
    usize,
    usize,
    Option<usize>,
    Seq<VtInput>,
) {
    (v.0, v.1, v.2, v.3.push(i))
}

/// The view of a fresh terminal.
pub open spec fn fresh(cols: usize, rows: usize, scrollback: Option<usize>) -> (
    usize,
    usize,
    Option<usize>,
    Seq<VtInput>,
) {
    (cols, rows, scrollback, Seq::empty())
}

/// A virtual terminal of the given size keeping at most `scrollback` lines
/// of history (all of it for `None`); wraps avt's
/// `Terminal::with_scrollback`, which refuses only a zero dimension.
#[verifier::external_body]
fn new_terminal(cols: usize, rows: usize, scrollback: Option<usize>) -> (t: avt::Terminal)
    requires
        cols >= 1,
        rows >= 1,
{
    avt::Terminal::with_scrollback(cols, rows, scrollback).unwrap()
}

/// Feeds text to a virtual terminal; wraps avt's `Terminal::feed`.
#[verifier::external_body]
fn vt_feed(vt: &mut Vt, text: &str)
    ensures
        final(vt)@ == given(old(vt)@, VtInput::Text(text@)),
{
    vt.term.feed(text);
}

/// Resizes a virtual terminal; wraps avt's `Terminal::resize` (avt clamps
/// each dimension to at least 1).
#[verifier::external_body]
fn vt_resize(vt: &mut Vt, cols: usize, rows: usize)
    ensures
        final(vt)@ == given(old(vt)@, VtInput::Size(cols, rows)),
{
    vt.term.resize(cols, rows);
}

/// The characters and widths of the visible screen's cells, line by line,
/// top to bottom, of a terminal made and given what the view records (what
/// avt's `Screen::visible_lines`, `Line::cells`, `Cell::char` and
/// `Cell::width` give for it).
pub uninterp spec fn visible_glyphs_of(v: (usize, usize, Option<usize>, Seq<VtInput>)) -> Seq<
    Seq<(char, u8)>,
>;

/// The pens of the visible screen's cells, line by line, of a terminal made
/// and given what the view records (what avt's `Screen::visible_lines`,
/// `Line::cells` and `Cell::pen` give for it, read as `PenInfo`).
pub uninterp spec fn visible_pens_of(v: (usize, usize, Option<usize>, Seq<VtInput>)) -> Seq<
    Seq<PenInfo>,
>;

/// The pen at a position, the default pen where there is none.
pub open spec fn pen_at(pens: Seq<Seq<PenInfo>>, i: int, j: int) -> PenInfo {
    if 0 <= i < pens.len() && 0 <= j < pens[i].len() {
        pens[i][j]
    } else {
        default_pen()
    }
}

/// A cell of the given character and width drawn with `pen`.
pub open spec fn cell_of(glyph: (char, u8), pen: PenInfo) -> CellInfo {
    CellInfo { ch: glyph.0, width: glyph.1, pen }
}

/// The visible screen of a terminal made and given what the view records:
/// each cell's character and width with its pen.
pub open spec fn visible_screen_of(v: (usize, usize, Option<usize>, Seq<VtInput>)) -> Seq<
    Seq<CellInfo>,
> {
    let cs = visible_glyphs_of(v);
    let ps = visible_pens_of(v);
    Seq::new(
        cs.len(),
        |i: int|
            Seq::new(
                cs[i].len(),
                |j: int| cell_of(cs[i][j], pen_at(ps, i, j)),
            ),
    )
}

/// The shape and cells of the visible screen.
proof fn lemma_visible_screen(v: (usize, usize, Option<usize>, Seq<VtInput>), i: int, m: int)
    requires
        0 <= i < visible_glyphs_of(v).len(),
    ensures
        visible_screen_of(v).len() == visible_glyphs_of(v).len(),
        visible_screen_of(v)[i].len() == visible_glyphs_of(v)[i].len(),
        0 <= m < visible_glyphs_of(v)[i].len() ==> visible_screen_of(v)[i][m] == cell_of(
            visible_glyphs_of(v)[i][m],
            pen_at(visible_pens_of(v), i, m),
        ),
{
}

/// The characters and widths of the visible cells; wraps avt's
/// `Screen::visible_lines`, `Line::cells`, `Cell::char` and `Cell::width`.
#[verifier::external_body]
fn visible_glyphs(vt: &Vt) -> (lines: Vec<Vec<(char, u8)>>)
    ensures
        lines@.map_values(|l: Vec<(char, u8)>| l@) == visible_glyphs_of(vt@),
{
    let lines = vt.term.screen().visible_lines();
    lines.map(|l| l.cells().iter().map(|c| (c.char(), c.width())).collect()).collect()
}

/// The pens of the visible cells; wraps avt's `Screen::visible_lines`,
/// `Line::cells` and the accessors of `Cell::pen`, telling the colors'
/// variants apart.
#[verifier::external_body]
fn visible_pens(vt: &Vt) -> (lines: Vec<Vec<PenInfo>>)
    ensures
        lines@.map_values(|l: Vec<PenInfo>| l@) == visible_pens_of(vt@),
{
    let color = |c| match c {
        avt::Color::Indexed(n) => ColorInfo::Indexed(n),
        avt::Color::RGB(c) => ColorInfo::Rgb(c.r, c.g, c.b),
    };
    vt.term.screen().visible_lines().map(|l| l.cells().iter().map(|c| {
        let p = c.pen();
        PenInfo { fg: p.foreground().map(color), bg: p.background().map(color), bold: p.is_bold(), faint: p.is_faint(), italic: p.is_italic(), underline: p.is_underline(), blink: p.is_blink(), inverse: p.is_inverse(), strikethrough: p.is_strikethrough() }
    }).collect()).collect()
}

impl Vt {
    /// A terminal of `cols` by `rows` keeping at most `scrollback` lines of
    /// history (all for `None`), given nothing yet.
    pub fn new(cols: usize, rows: usize, scrollback: Option<usize>) -> (vt: Self)
        requires
            cols >= 1,
            rows >= 1,
        ensures
            vt@ == fresh(cols, rows, scrollback),
    {
        Vt {
            term: new_terminal(cols, rows, scrollback),
            cols,
            rows,
            scrollback,
            inputs: Ghost(Seq::empty()),
        }
    }

    /// Feeds text to the terminal.
    pub fn feed(&mut self, text: &str)
        ensures
            final(self)@ == given(old(self)@, VtInput::Text(text@)),
    {
        vt_feed(self, text);
    }

    /// Resizes the terminal.
    pub fn resize(&mut self, cols: usize, rows: usize)
        ensures
            final(self)@ == given(old(self)@, VtInput::Size(cols, rows)),
    {
        vt_resize(self, cols, rows);
    }
}

/// A snapshot of a terminal's visible screen.
pub struct Screen {
    pub lines: Vec<Vec<CellInfo>>,
}

/// The cells of a screen, line by line.
pub open spec fn lines_view(lines: Seq<Vec<CellInfo>>) -> Seq<Seq<CellInfo>> {
    lines.map_values(|l: Vec<CellInfo>| l@)
}

/// The cell at a position, a default cell where the screen has none.
pub open spec fn cell_at(lines: Seq<Seq<CellInfo>>, row: int, col: int) -> CellInfo {
    if 0 <= row < lines.len() && 0 <= col < lines[row].len() {
        lines[row][col]
    } else {
        default_cell()
    }
}

/// The length of a line, 0 for a line the screen does not have.
pub open spec fn line_len(lines: Seq<Seq<CellInfo>>, row: int) -> int {
    if 0 <= row < lines.len() {
        lines[row].len() as int
    } else {
        0
    }
}

pub open spec fn max_int(a: int, b: int) -> int {
    if a >= b {
        a
    } else {
        b
    }
}

/// The differing cells among the first `cols` columns of a row.
pub open spec fn row_changes(a: Seq<Seq<CellInfo>>, b: Seq<Seq<CellInfo>>, row: int, cols: int) -> nat
    decreases cols,
{
    if cols <= 0 {
        0
    } else {
        row_changes(a, b, row, cols - 1) + if cell_at(a, row, cols - 1) != cell_at(b, row, cols - 1) {
            1nat
        } else {
            0nat
        }
    }
}

/// The differing cells among the first `rows` rows, each row compared over
/// the longer of its two versions.
pub open spec fn screen_changes(a: Seq<Seq<CellInfo>>, b: Seq<Seq<CellInfo>>, rows: int) -> nat
    decreases rows,
{
    if rows <= 0 {
        0
    } else {
        screen_changes(a, b, rows - 1) + row_changes(
            a,
            b,
            rows - 1,
            max_int(line_len(a, rows - 1), line_len(b, rows - 1)),
        )
    }
}

/// The number of cells whose character or attributes differ between two
/// screens, cells missing on either side counting as blank; at most
/// `usize::MAX`.
pub open spec fn spec_changed_cells(a: Seq<Seq<CellInfo>>, b: Seq<Seq<CellInfo>>) -> nat {
    let n = screen_changes(a, b, max_int(a.len() as int, b.len() as int));
    if n > usize::MAX {
        usize::MAX as nat
    } else {
        n
    }
}

proof fn lemma_row_changes_symmetric(a: Seq<Seq<CellInfo>>, b: Seq<Seq<CellInfo>>, row: int, cols: int)
    ensures
        row_changes(a, b, row, cols) == row_changes(b, a, row, cols),
        row_changes(a, a, row, cols) == 0,
    decreases cols,
{
    if cols > 0 {
        lemma_row_changes_symmetric(a, b, row, cols - 1);
    }
}

proof fn lemma_screen_changes_symmetric(a: Seq<Seq<CellInfo>>, b: Seq<Seq<CellInfo>>, rows: int)
    ensures
        screen_changes(a, b, rows) == screen_changes(b, a, rows),
        screen_changes(a, a, rows) == 0,
    decreases rows,
{
    if rows > 0 {
        lemma_screen_changes_symmetric(a, b, rows - 1);
        let r = rows - 1;
        lemma_row_changes_symmetric(a, b, r, max_int(line_len(a, r), line_len(b, r)));
        lemma_row_changes_symmetric(a, a, r, max_int(line_len(a, r), line_len(a, r)));
        assert(max_int(line_len(a, r), line_len(b, r)) == max_int(line_len(b, r), line_len(a, r)));
    }
}

/// The count of changed cells does not depend on which screen comes first,
/// and a screen has no changed cells against itself.
pub proof fn lemma_changed_cells_symmetric(a: Seq<Seq<CellInfo>>, b: Seq<Seq<CellInfo>>)
    ensures
        spec_changed_cells(a, b) == spec_changed_cells(b, a),
        spec_changed_cells(a, a) == 0,
{
    lemma_screen_changes_symmetric(a, b, max_int(a.len() as int, b.len() as int));
    lemma_screen_changes_symmetric(a, a, max_int(a.len() as int, a.len() as int));
    assert(max_int(a.len() as int, b.len() as int) == max_int(b.len() as int, a.len() as int));
}

impl Screen {
    /// The cells of the screen, line by line.
    pub open spec fn view_lines(&self) -> Seq<Seq<CellInfo>> {
        lines_view(self.lines@)
    }

    /// A snapshot of the terminal's visible lines.
    fn from_vt(vt: &Vt) -> (s: Self)
        ensures
            s.view_lines() == visible_screen_of(vt@),
    {
        let chars = visible_glyphs(vt);
        let pens = visible_pens(vt);
        let ghost cs = visible_glyphs_of(vt@);
        let ghost ps = visible_pens_of(vt@);
        proof {
            assert(chars@.len() == cs.len());
            assert(pens@.len() == ps.len());
        }
        let mut lines: Vec<Vec<CellInfo>> = Vec::new();
        let mut i: usize = 0;
        while i < chars.len()
            invariant
                i <= chars@.len(),
                chars@.len() == cs.len(),
                pens@.len() == ps.len(),
                forall|k: int| 0 <= k < chars@.len() ==> #[trigger] chars@[k]@ == cs[k],
                forall|k: int| 0 <= k < pens@.len() ==> #[trigger] pens@[k]@ == ps[k],
                cs == visible_glyphs_of(vt@),
                ps == visible_pens_of(vt@),
                lines@.len() == i,
                forall|k: int|
                    0 <= k < i ==> #[trigger] lines@[k]@ == visible_screen_of(vt@)[k],
            decreases chars@.len() - i,
        {
            assert(chars@[i as int]@ == cs[i as int]);
            proof {
                lemma_visible_screen(vt@, i as int, 0);
            }
            let mut line: Vec<CellInfo> = Vec::new();
            let mut j: usize = 0;
            while j < chars[i].len()
                invariant
                    i < chars@.len(),
                    chars@.len() == cs.len(),
                    pens@.len() == ps.len(),
                    chars@[i as int]@ == cs[i as int],
                    forall|k: int| 0 <= k < pens@.len() ==> #[trigger] pens@[k]@ == ps[k],
                    j <= cs[i as int].len(),
                    cs == visible_glyphs_of(vt@),
                    ps == visible_pens_of(vt@),
                    line@.len() == j,
                    forall|m: int|
                        0 <= m < j ==> #[trigger] line@[m] == visible_screen_of(vt@)[i as int][m],
                decreases cs[i as int].len() - j,
            {
                proof {
                    lemma_visible_screen(vt@, i as int, j as int);
                }
                let (ch, width) = chars[i][j];
                let pen = if i < pens.len() && j < pens[i].len() {
                    assert(pens@[i as int]@ == ps[i as int]);
                    pens[i][j]
                } else {
                    PenInfo {
                        fg: None,
                        bg: None,
                        bold: false,
                        faint: false,
                        italic: false,
                        underline: false,
                        blink: false,
                        inverse: false,
                        strikethrough: false,
                    }
                };
                line.push(CellInfo { ch, width, pen });
                j = j + 1;
            }
            assert(line@ =~= visible_screen_of(vt@)[i as int]);
            lines.push(line);
            i = i + 1;
        }
        let s = Screen { lines };
        proof {
            if cs.len() > 0 {
                lemma_visible_screen(vt@, 0, 0);
            } else {
                assert(visible_screen_of(vt@).len() == 0);
            }
        }
        assert(s.view_lines() =~= visible_screen_of(vt@));
        s
    }

    /// The width of the screen: the length of its first line.
    pub fn cols(&self) -> (n: usize)
        ensures
            n == (if self.lines@.len() == 0 {
                0
            } else {
                self.lines@[0]@.len()
            }),
    {
        if self.lines.len() == 0 {
            0
        } else {
            self.lines[0].len()
        }
    }

    /// The height of the screen.
    pub fn rows(&self) -> (n: usize)
        ensures
            n == self.lines@.len(),
    {
        self.lines.len()
    }

    /// The number of cells whose character or attributes differ from the
    /// other screen. Where the dimensions differ, cells missing on either
    /// side count as blank.
    pub fn changed_cells(&self, other: &Screen) -> (n: usize)
        ensures
            n == spec_changed_cells(self.view_lines(), other.view_lines()),
    {
        let ghost a = self.view_lines();
        let ghost b = other.view_lines();
        let rows = if self.lines.len() >= other.lines.len() {
            self.lines.len()
        } else {
            other.lines.len()
        };
        let mut count: usize = 0;
        let mut row: usize = 0;
        while row < rows
            invariant
                a == self.view_lines(),
                b == other.view_lines(),
                rows == max_int(a.len() as int, b.len() as int),
                row <= rows,
                count == (if screen_changes(a, b, row as int) > usize::MAX {
                    usize::MAX as nat
                } else {
                    screen_changes(a, b, row as int)
                }),
            decreases rows - row,
        {
            let la: usize = if row < self.lines.len() {
                self.lines[row].len()
            } else {
                0
            };
            let lb: usize = if row < other.lines.len() {
                other.lines[row].len()
            } else {
                0
            };
            let cols = if la >= lb {
                la
            } else {
                lb
            };
            assert(cols == max_int(line_len(a, row as int), line_len(b, row as int)));
            let ghost before = screen_changes(a, b, row as int);
            let mut col: usize = 0;
            while col < cols
                invariant
                    a == self.view_lines(),
                    b == other.view_lines(),
                    row < rows,
                    col <= cols,
                    count == (if before + row_changes(a, b, row as int, col as int) > usize::MAX {
                        usize::MAX as nat
                    } else {
                        before + row_changes(a, b, row as int, col as int)
                    }),
                decreases cols - col,
            {
                let ca = if row < self.lines.len() && col < self.lines[row].len() {
                    self.lines[row][col]
                } else {
                    blank_cell()
                };
                let cb = if row < other.lines.len() && col < other.lines[row].len() {
                    other.lines[row][col]
                } else {
                    blank_cell()
                };
                assert(ca == cell_at(a, row as int, col as int));
                assert(cb == cell_at(b, row as int, col as int));
                if ca != cb && count < usize::MAX {
                    count = count + 1;
                }
                col = col + 1;
            }
            row = row + 1;
        }
        count
    }
}

/// The characters of the cells that start a character (width above 0).
pub open spec fn visible_chars(cells: Seq<CellInfo>) -> Seq<char>
    decreases cells.len(),
{
    if cells.len() == 0 {
        seq![]
    } else {
        visible_chars(cells.drop_last()) + if cells.last().width > 0 {
            seq![cells.last().ch]
        } else {
            seq![]
        }
    }
}

/// A line as plain text, trailing whitespace trimmed.
pub open spec fn spec_text_line(cells: Seq<CellInfo>) -> Seq<char> {
    crate::text::trim_end(visible_chars(cells))
}

/// A text line keeps the visible characters of its cells in order, up to
/// a point, and never ends in whitespace.
pub proof fn lemma_text_line_trimmed(cells: Seq<CellInfo>)
    ensures
        spec_text_line(cells).len() > 0 ==> !crate::text::is_unicode_ws(
            spec_text_line(cells).last(),
        ),
        spec_text_line(cells).len() <= visible_chars(cells).len(),
        spec_text_line(cells) == visible_chars(cells).take(spec_text_line(cells).len() as int),
{
    lemma_trim_end_prefix(visible_chars(cells));
}

proof fn lemma_trim_end_prefix(s: Seq<char>)
    ensures
        crate::text::trim_end(s).len() > 0 ==> !crate::text::is_unicode_ws(
            crate::text::trim_end(s).last(),
        ),
        crate::text::trim_end(s).len() <= s.len(),
        crate::text::trim_end(s) == s.take(crate::text::trim_end(s).len() as int),
    decreases s.len(),
{
    if s.len() > 0 && crate::text::is_unicode_ws(s.last()) {
        let p = s.drop_last();
        lemma_trim_end_prefix(p);
        let t = crate::text::trim_end(p);
        assert(p.take(t.len() as int) =~= s.take(t.len() as int));
    } else {
        assert(s.take(s.len() as int) =~= s);
    }
}

/// The number of default cells at the end of a line.
pub open spec fn trailing_defaults(cells: Seq<CellInfo>) -> nat
    decreases cells.len(),
{
    if cells.len() > 0 && cells.last() == default_cell() {
        trailing_defaults(cells.drop_last()) + 1
    } else {
        0
    }
}

/// The SGR code of a color: 30-37 (40-47 for the background) for the first
/// eight palette colors, 90-97 (100-107) for the bright ones, `38;5;n`
/// (`48;5;n`) for the rest of the palette and `38;2;r;g;b` (`48;2;r;g;b`)
/// for RGB colors.
pub open spec fn spec_color_seq(color: ColorInfo, base: u8) -> Seq<char> {
    match color {
        ColorInfo::Indexed(n) => if n < 8 {
            spec_decimal((base + n) as nat)
        } else if n < 16 {
            spec_decimal((base + 60 + n - 8) as nat)
        } else {
            spec_decimal((base + 8) as nat) + seq![';', '5', ';'] + spec_decimal(n as nat)
        },
        ColorInfo::Rgb(r, g, b) => spec_decimal((base + 8) as nat) + seq![';', '2', ';']
            + spec_decimal(r as nat) + seq![';'] + spec_decimal(g as nat) + seq![';']
            + spec_decimal(b as nat),
    }
}

pub open spec fn flag(on: bool, code: char) -> Seq<Seq<char>> {
    if on {
        seq![seq![code]]
    } else {
        seq![]
    }
}

pub open spec fn color_param(c: Option<ColorInfo>, base: u8) -> Seq<Seq<char>> {
    match c {
        Some(color) => seq![spec_color_seq(color, base)],
        None => seq![],
    }
}

/// The SGR parameters that set a pen from scratch: a reset, then each
/// attribute, then the colors.
pub open spec fn pen_params(p: PenInfo) -> Seq<Seq<char>> {
    seq![seq!['0']] + flag(p.bold, '1') + flag(p.faint, '2') + flag(p.italic, '3') + flag(
        p.underline,
        '4',
    ) + flag(p.blink, '5') + flag(p.inverse, '7') + flag(p.strikethrough, '9') + color_param(
        p.fg,
        30,
    ) + color_param(p.bg, 40)
}

/// The SGR sequence that sets a pen.
pub open spec fn spec_pen_seq(p: PenInfo) -> Seq<char> {
    seq!['\u{1b}', '['] + crate::text::join(pen_params(p), seq![';']) + seq!['m']
}

/// The escape-sequence rendering of the cells of a line, and the pen in
/// effect after them (`None` while the default pen of the terminal's initial
/// state is). A sequence is written only where the pen changes, so a leading
/// run of default cells gets none.
pub open spec fn seq_body(cells: Seq<CellInfo>) -> (Seq<char>, Option<PenInfo>)
    decreases cells.len(),
{
    if cells.len() == 0 {
        (seq![], None)
    } else {
        let (s, pen) = seq_body(cells.drop_last());
        let c = cells.last();
        if c.width == 0 {
            (s, pen)
        } else {
            let changed = match pen {
                Some(p) => p != c.pen,
                None => c.pen != default_pen(),
            };
            if changed {
                (s + spec_pen_seq(c.pen) + seq![c.ch], Some(c.pen))
            } else {
                (s + seq![c.ch], pen)
            }
        }
    }
}

/// A line with its colors and attributes as SGR sequences: trailing blank
/// cells are dropped, and a line that leaves a non-default pen in effect
/// ends with a reset.
pub open spec fn spec_seq_line(cells: Seq<CellInfo>) -> Seq<char> {
    let (s, pen) = seq_body(cells.take(cells.len() - trailing_defaults(cells)));
    s + match pen {
        Some(p) => if p != default_pen() {
            seq!['\u{1b}', '[', '0', 'm']
        } else {
            seq![]
        },
        None => seq![],
    }
}

pub proof fn lemma_trailing_defaults_bound(cells: Seq<CellInfo>)
    ensures
        trailing_defaults(cells) <= cells.len(),
    decreases cells.len(),
{
    if cells.len() > 0 && cells.last() == default_cell() {
        lemma_trailing_defaults_bound(cells.drop_last());
    }
}

/// The SGR code of a color.
pub fn color_seq(color: ColorInfo, base: u8) -> (s: Vec<char>)
    requires
        base == 30 || base == 40,
    ensures
        s@ == spec_color_seq(color, base),
{
    let mut out: Vec<char> = Vec::new();
    match color {
        ColorInfo::Indexed(n) => {
            if n < 8 {
                push_decimal(&mut out, (base + n) as u64);
            } else if n < 16 {
                push_decimal(&mut out, (base + 60 + n - 8) as u64);
            } else {
                push_decimal(&mut out, (base + 8) as u64);
                out.push(';');
                out.push('5');
                out.push(';');
                push_decimal(&mut out, n as u64);
            }
        },
        ColorInfo::Rgb(r, g, b) => {
            push_decimal(&mut out, (base + 8) as u64);
            out.push(';');
            out.push('2');
            out.push(';');
            push_decimal(&mut out, r as u64);
            out.push(';');
            push_decimal(&mut out, g as u64);
            out.push(';');
            push_decimal(&mut out, b as u64);
        },
    }
    assert(out@ =~= spec_color_seq(color, base));
    out
}

/// Appends `;` and a parameter, or the parameter alone when it is the
/// first.
fn push_param(out: &mut Vec<char>, params: Ghost<Seq<Seq<char>>>, param: &[char])
    requires
        old(out)@ == crate::text::join(params@, seq![';']),
        params@.len() > 0,
    ensures
        final(out)@ == crate::text::join(params@.push(param@), seq![';']),
{
    out.push(';');
    crate::text::append_chars(out, param);
    assert(params@.push(param@).drop_last() =~= params@);
    reveal(crate::text::join);
    assert(out@ =~= crate::text::join(params@.push(param@), seq![';']));
}

/// Appends the parameter of an attribute flag when it is on.
fn push_flag(out: &mut Vec<char>, params: Ghost<Seq<Seq<char>>>, on: bool, code: char)
    requires
        old(out)@ == crate::text::join(params@, seq![';']),
        params@.len() > 0,
    ensures
        final(out)@ == crate::text::join(params@ + flag(on, code), seq![';']),
{
    if on {
        let c: Vec<char> = vec![code];
        assert(c@ =~= seq![code]);
        push_param(out, params, c.as_slice());
        assert(params@ + flag(on, code) =~= params@.push(seq![code]));
    } else {
        assert(params@ + flag(on, code) =~= params@);
    }
}

/// Appends the parameter of a color when there is one.
fn push_color(out: &mut Vec<char>, params: Ghost<Seq<Seq<char>>>, c: Option<ColorInfo>, base: u8)
    requires
        old(out)@ == crate::text::join(params@, seq![';']),
        params@.len() > 0,
        base == 30 || base == 40,
    ensures
        final(out)@ == crate::text::join(params@ + color_param(c, base), seq![';']),
{
    match c {
        Some(color) => {
            let cs = color_seq(color, base);
            push_param(out, params, cs.as_slice());
            assert(params@ + color_param(c, base) =~= params@.push(cs@));
        },
        None => {
            assert(params@ + color_param(c, base) =~= params@);
        },
    }
}

/// The SGR sequence that sets a pen.
#[verifier::rlimit(50)]
pub fn pen_seq(p: &PenInfo) -> (s: Vec<char>)
    ensures
        s@ == spec_pen_seq(*p),
{
    let ghost p0: Seq<Seq<char>> = seq![seq!['0']];
    let mut body: Vec<char> = vec!['0'];
    assert(body@ =~= crate::text::join(p0, seq![';'])) by {
        reveal(crate::text::join);
    }
    push_flag(&mut body, Ghost(p0), p.bold, '1');
    let ghost p1 = p0 + flag(p.bold, '1');
    push_flag(&mut body, Ghost(p1), p.faint, '2');
    let ghost p2 = p1 + flag(p.faint, '2');
    push_flag(&mut body, Ghost(p2), p.italic, '3');
    let ghost p3 = p2 + flag(p.italic, '3');
    push_flag(&mut body, Ghost(p3), p.underline, '4');
    let ghost p4 = p3 + flag(p.underline, '4');
    push_flag(&mut body, Ghost(p4), p.blink, '5');
    let ghost p5 = p4 + flag(p.blink, '5');
    push_flag(&mut body, Ghost(p5), p.inverse, '7');
    let ghost p6 = p5 + flag(p.inverse, '7');
    push_flag(&mut body, Ghost(p6), p.strikethrough, '9');
    let ghost p7 = p6 + flag(p.strikethrough, '9');
    push_color(&mut body, Ghost(p7), p.fg, 30);
    let ghost p8 = p7 + color_param(p.fg, 30);
    push_color(&mut body, Ghost(p8), p.bg, 40);
    let ghost p9 = p8 + color_param(p.bg, 40);
    assert(p9 =~= pen_params(*p));
    let mut out: Vec<char> = vec!['\u{1b}', '['];
    crate::text::append_chars(&mut out, body.as_slice());
    out.push('m');
    assert(out@ =~= spec_pen_seq(*p));
    out
}

/// A line as plain text, trailing whitespace trimmed.
pub fn text_line(cells: &Vec<CellInfo>) -> (s: String)
    ensures
        s@ == spec_text_line(cells@),
{
    let mut chars: Vec<char> = Vec::new();
    let mut i: usize = 0;
    while i < cells.len()
        invariant
            i <= cells@.len(),
            chars@ == visible_chars(cells@.take(i as int)),
        decreases cells@.len() - i,
    {
        assert(cells@.take(i + 1).drop_last() =~= cells@.take(i as int));
        if cells[i].width > 0 {
            chars.push(cells[i].ch);
        }
        i = i + 1;
        assert(chars@ =~= visible_chars(cells@.take(i as int)));
    }
    assert(cells@.take(i as int) =~= cells@);
    let trimmed = crate::text::trim_end_chars(chars.as_slice());
    string_from_chars(trimmed.as_slice())
}

/// A line with its colors and attributes as SGR sequences.
pub fn seq_line(cells: &Vec<CellInfo>) -> (s: String)
    ensures
        s@ == spec_seq_line(cells@),
{
    let mut n: usize = cells.len();
    assert(cells@.take(n as int) =~= cells@);
    while n > 0 && cell_is_default(&cells[n - 1])
        invariant
            n <= cells@.len(),
            trailing_defaults(cells@) == (cells@.len() - n) + trailing_defaults(
                cells@.take(n as int),
            ),
        decreases n,
    {
        assert(cells@.take(n as int).drop_last() =~= cells@.take(n - 1));
        n = n - 1;
    }
    assert(trailing_defaults(cells@.take(n as int)) == 0);
    assert(cells@.len() - trailing_defaults(cells@) == n);
    let mut out: Vec<char> = Vec::new();
    let mut pen: Option<PenInfo> = None;
    let mut i: usize = 0;
    while i < n
        invariant
            n <= cells@.len(),
            i <= n,
            (out@, pen) == seq_body(cells@.take(i as int)),
        decreases n - i,
    {
        assert(cells@.take(i + 1).drop_last() =~= cells@.take(i as int));
        let c = cells[i];
        if c.width > 0 {
            let changed = match pen {
                Some(p) => p != c.pen,
                None => !pen_is_default(&c.pen),
            };
            if changed {
                let ps = pen_seq(&c.pen);
                crate::text::append_chars(&mut out, ps.as_slice());
                pen = Some(c.pen);
            }
            out.push(c.ch);
        }
        i = i + 1;
        assert(out@ =~= seq_body(cells@.take(i as int)).0);
    }
    let ends_styled = match pen {
        Some(p) => !pen_is_default(&p),
        None => false,
    };
    if ends_styled {
        out.push('\u{1b}');
        out.push('[');
        out.push('0');
        out.push('m');
    }
    assert(out@ =~= spec_seq_line(cells@));
    string_from_chars(out.as_slice())
}

impl Screen {
    /// The lines as plain text, trailing whitespace trimmed.
    pub fn text_lines(&self) -> (r: Vec<String>)
        ensures
            r@.len() == self.lines@.len(),
            forall|i: int| 0 <= i < r@.len() ==> (#[trigger] r@[i])@ == spec_text_line(self.lines@[i]@),
    {
        let mut r: Vec<String> = Vec::new();
        let mut i: usize = 0;
        while i < self.lines.len()
            invariant
                i <= self.lines@.len(),
                r@.len() == i,
                forall|j: int| 0 <= j < i ==> (#[trigger] r@[j])@ == spec_text_line(self.lines@[j]@),
            decreases self.lines@.len() - i,
        {
            r.push(text_line(&self.lines[i]));
            i = i + 1;
        }
        r
    }

    /// The lines with colors and attributes as SGR sequences; each line is
    /// self-contained.
    pub fn seq_lines(&self) -> (r: Vec<String>)
        ensures
            r@.len() == self.lines@.len(),
            forall|i: int| 0 <= i < r@.len() ==> (#[trigger] r@[i])@ == spec_seq_line(self.lines@[i]@),
    {
        let mut r: Vec<String> = Vec::new();
        let mut i: usize = 0;
        while i < self.lines.len()
            invariant
                i <= self.lines@.len(),
                r@.len() == i,
                forall|j: int| 0 <= j < i ==> (#[trigger] r@[j])@ == spec_seq_line(self.lines@[j]@),
            decreases self.lines@.len() - i,
        {
            r.push(seq_line(&self.lines[i]));
            i = i + 1;
        }
        r
    }
}

/// A frame: a screen-affecting event, numbered from 1, with the screen as
/// it is after the event.
pub struct Frame {
    pub number: usize,
    /// The frame's time in microseconds; never earlier than the previous
    /// frame's.
    pub time: u64,
    /// The time since the previous frame (or since the start).
    pub delta_time: u64,
    /// The cells that differ from the previous frame's screen.
    pub changed_cells: usize,
    pub kind: FrameKind,
    pub screen: Screen,
}

/// What a frame shows, as plain values.
pub enum FrameDesc {
    Output,
    Resize(u16, u16),
    Marker(Seq<char>),
}

pub open spec fn kind_desc(kind: FrameKind) -> FrameDesc {
    match kind {
        FrameKind::Output => FrameDesc::Output,
        FrameKind::Resize(c, r) => FrameDesc::Resize(c, r),
        FrameKind::Marker(l) => FrameDesc::Marker(l@),
    }
}

/// The frame an event makes; a resize is clamped to the allowed dimensions.
pub open spec fn event_desc(data: EventData) -> FrameDesc {
    match data {
        EventData::Resize(c, r) => FrameDesc::Resize(
            clamp_dimension(c as usize) as u16,
            clamp_dimension(r as usize) as u16,
        ),
        EventData::Marker(l) => FrameDesc::Marker(l@),
        _ => FrameDesc::Output,
    }
}

/// The time and content of each frame of `events`, in order: one per
/// frame event, its time raised to the previous frame's where it is earlier
/// (a player cannot go back in time).
pub open spec fn spec_frames(events: Seq<Event>) -> Seq<(u64, FrameDesc)>
    decreases events.len(),
{
    if events.len() == 0 {
        seq![]
    } else {
        let prev = spec_frames(events.drop_last());
        let e = events.last();
        if !spec_is_frame_event(e.data) {
            prev
        } else {
            let t0: u64 = if prev.len() == 0 {
                0
            } else {
                prev.last().0
            };
            prev.push((if e.time >= t0 {
                e.time
            } else {
                t0
            }, event_desc(e.data)))
        }
    }
}

/// What a frame event gives the frames' terminal: output is interpreted,
/// a resize changes its size (clamped to the allowed range), a marker gives
/// nothing.
pub open spec fn frame_inputs(data: EventData) -> Seq<VtInput> {
    match data {
        EventData::Output(t) => seq![VtInput::Text(t@)],
        EventData::Resize(c, r) => seq![
            VtInput::Size(clamp_dimension(c as usize), clamp_dimension(r as usize)),
        ],
        _ => Seq::empty(),
    }
}

/// The frames' terminal after the events: made with `cols` and `rows`,
/// keeping no scrollback, and given each frame event.
pub open spec fn frames_vt(cols: usize, rows: usize, events: Seq<Event>) -> (
    usize,
    usize,
    Option<usize>,
    Seq<VtInput>,
)
    decreases events.len(),
{
    if events.len() == 0 {
        fresh(cols, rows, Some(0))
    } else {
        let v = frames_vt(cols, rows, events.drop_last());
        if spec_is_frame_event(events.last().data) {
            (v.0, v.1, v.2, v.3 + frame_inputs(events.last().data))
        } else {
            v
        }
    }
}

/// The screen of each frame: the visible screen of the frames' terminal
/// after its event.
pub open spec fn spec_frame_screens(cols: usize, rows: usize, events: Seq<Event>) -> Seq<
    Seq<Seq<CellInfo>>,
>
    decreases events.len(),
{
    if events.len() == 0 {
        seq![]
    } else {
        let prev = spec_frame_screens(cols, rows, events.drop_last());
        if spec_is_frame_event(events.last().data) {
            prev.push(visible_screen_of(frames_vt(cols, rows, events)))
        } else {
            prev
        }
    }
}

/// Applies a frame event to the terminal and makes its frame.
fn make_frame(vt: &mut Vt, event: Event, number: usize, prev_time: u64, prev: &Screen) -> (f: Frame)
    requires
        spec_is_frame_event(event.data),
    ensures
        final(vt)@ == (old(vt)@.0, old(vt)@.1, old(vt)@.2, old(vt)@.3 + frame_inputs(event.data)),
        f.number == number,
        f.time == (if event.time >= prev_time {
            event.time
        } else {
            prev_time
        }),
        f.delta_time == f.time - prev_time,
        kind_desc(f.kind) == event_desc(event.data),
        f.screen.view_lines() == visible_screen_of(final(vt)@),
        f.changed_cells == spec_changed_cells(f.screen.view_lines(), prev.view_lines()),
{
    let time = if event.time >= prev_time {
        event.time
    } else {
        prev_time
    };
    let ghost data = event.data;
    let kind = match event.data {
        EventData::Output(text) => {
            vt.feed(text.as_str());
            assert(old(vt)@.3.push(VtInput::Text(text@)) =~= old(vt)@.3 + frame_inputs(data));
            FrameKind::Output
        },
        EventData::Resize(c, r) => {
            let (c2, r2) = clamp_size(c as usize, r as usize);
            vt.resize(c2, r2);
            assert(old(vt)@.3.push(VtInput::Size(c2, r2)) =~= old(vt)@.3 + frame_inputs(data));
            FrameKind::Resize(c2 as u16, r2 as u16)
        },
        EventData::Marker(label) => {
            assert(old(vt)@.3 =~= old(vt)@.3 + frame_inputs(data));
            FrameKind::Marker(label)
        },
        _ => FrameKind::Output,
    };
    let screen = Screen::from_vt(vt);
    let changed_cells = screen.changed_cells(prev);
    Frame { number, time, delta_time: time - prev_time, changed_cells, kind, screen }
}

/// Frame `j` is the `j`-th expected one: numbered from 1, with the expected
/// time and description, the time since the previous frame, the expected
/// screen and the cells that changed since the previous screen (`initial`
/// for the first).
pub open spec fn frame_ok(
    out: Seq<Frame>,
    j: int,
    expected: Seq<(u64, FrameDesc)>,
    screens: Seq<Seq<Seq<CellInfo>>>,
    initial: Seq<Seq<CellInfo>>,
) -> bool {
    let f = out[j];
    &&& f.number == j + 1
    &&& (f.time, kind_desc(f.kind)) == expected[j]
    &&& f.delta_time == f.time - (if j == 0 {
        0
    } else {
        out[j - 1].time as int
    })
    &&& f.screen.view_lines() == screens[j]
    &&& f.changed_cells == spec_changed_cells(
        f.screen.view_lines(),
        if j == 0 {
            initial
        } else {
            out[j - 1].screen.view_lines()
        },
    )
}

/// The frames made so far are those of the events seen so far, with the
/// screens expected of them; the first is compared with `initial`.
pub open spec fn frames_match(
    out: Seq<Frame>,
    expected: Seq<(u64, FrameDesc)>,
    screens: Seq<Seq<Seq<CellInfo>>>,
    initial: Seq<Seq<CellInfo>>,
) -> bool {
    &&& out.len() == expected.len()
    &&& out.len() == screens.len()
    &&& forall|j: int|
        0 <= j < out.len() ==> #[trigger] frame_ok(out, j, expected, screens, initial)
}

/// Frames that match stay matched when the next frame is appended with
/// its expected description and screen.
proof fn lemma_frames_match_push(
    out: Seq<Frame>,
    f: Frame,
    expected: Seq<(u64, FrameDesc)>,
    screens: Seq<Seq<Seq<CellInfo>>>,
    initial: Seq<Seq<CellInfo>>,
)
    requires
        frames_match(out, expected, screens, initial),
        f.number == out.len() + 1,
        f.delta_time == f.time - (if out.len() == 0 {
            0
        } else {
            out.last().time as int
        }),
        f.changed_cells == spec_changed_cells(
            f.screen.view_lines(),
            if out.len() == 0 {
                initial
            } else {
                out.last().screen.view_lines()
            },
        ),
    ensures
        frames_match(
            out.push(f),
            expected.push((f.time, kind_desc(f.kind))),
            screens.push(f.screen.view_lines()),
            initial,
        ),
{
    let o = out.push(f);
    let e2 = expected.push((f.time, kind_desc(f.kind)));
    let s2 = screens.push(f.screen.view_lines());
    assert forall|j: int| 0 <= j < o.len() implies #[trigger] frame_ok(o, j, e2, s2, initial) by {
        if j < out.len() {
            assert(frame_ok(out, j, expected, screens, initial));
            assert(o[j] == out[j]);
            assert(e2[j] == expected[j]);
            assert(s2[j] == screens[j]);
            if j > 0 {
                assert(o[j - 1] == out[j - 1]);
            }
        } else {
            if j > 0 {
                assert(o[j - 1] == out.last());
            }
        }
    }
}

/// Replays the events through a virtual terminal of the recording's size
/// (clamped to the allowed range) that keeps no scrollback, and makes one
/// frame per screen-affecting event: numbered from 1, with times that
/// never go back, the time since the previous frame, the screen after the
/// event and the number of cells that changed on it.
#[verifier::rlimit(30)]
pub fn frames(header: &Header, events: Vec<Event>) -> (r: Vec<Frame>)
    ensures
        ({
            let cols = clamp_dimension(header.term_cols as usize);
            let rows = clamp_dimension(header.term_rows as usize);
            frames_match(
                r@,
                spec_frames(events@),
                spec_frame_screens(cols, rows, events@),
                visible_screen_of(fresh(cols, rows, Some(0))),
            )
        }),
{
    let (cols, rows) = clamp_size(header.term_cols as usize, header.term_rows as usize);
    let mut vt = Vt::new(cols, rows, Some(0));
    let initial = Screen::from_vt(&vt);
    let ghost evs = events@;
    let n = events.len();
    let mut rest = crate::util::reversed(events);
    let mut out: Vec<Frame> = Vec::new();
    let mut prev_time: u64 = 0;
    let mut k: usize = 0;
    assert(evs.take(0) =~= Seq::<Event>::empty());
    while rest.len() > 0
        invariant
            n == evs.len(),
            k + rest@.len() == n,
            forall|j: int| 0 <= j < rest@.len() ==> rest@[j] == evs[n - 1 - j],
            out@.len() <= k,
            prev_time == (if out@.len() == 0 {
                0
            } else {
                out@.last().time
            }),
            initial.view_lines() == visible_screen_of(fresh(cols, rows, Some(0))),
            vt@ == frames_vt(cols, rows, evs.take(k as int)),
            frames_match(
                out@,
                spec_frames(evs.take(k as int)),
                spec_frame_screens(cols, rows, evs.take(k as int)),
                initial.view_lines(),
            ),
        decreases rest@.len(),
    {
        let event = rest.pop().unwrap();
        assert(event == evs[k as int]);
        assert(evs.take(k + 1).drop_last() =~= evs.take(k as int));
        assert(evs.take(k + 1).last() == evs[k as int]);
        let ghost tk = evs.take(k as int);
        let ghost tk1 = evs.take(k + 1);
        if is_frame_event(&event.data) {
            proof {
                if out@.len() > 0 {
                    assert(frame_ok(
                        out@,
                        out@.len() - 1,
                        spec_frames(tk),
                        spec_frame_screens(cols, rows, tk),
                        initial.view_lines(),
                    ));
                }
            }
            let number = out.len() + 1;
            let frame = if out.len() == 0 {
                make_frame(&mut vt, event, number, prev_time, &initial)
            } else {
                make_frame(&mut vt, event, number, prev_time, &out[out.len() - 1].screen)
            };
            proof {
                lemma_frames_match_push(
                    out@,
                    frame,
                    spec_frames(evs.take(k as int)),
                    spec_frame_screens(cols, rows, evs.take(k as int)),
                    initial.view_lines(),
                );
            }
            proof {
                assert(frames_vt(cols, rows, tk1) == vt@);
                assert(spec_frames(tk1) == spec_frames(tk).push((frame.time, kind_desc(frame.kind))));
                assert(spec_frame_screens(cols, rows, tk1) == spec_frame_screens(cols, rows, tk).push(
                    frame.screen.view_lines(),
                ));
            }
            prev_time = frame.time;
            out.push(frame);
        } else {
            assert(frames_vt(cols, rows, tk1) == frames_vt(cols, rows, tk));
            assert(spec_frames(tk1) == spec_frames(tk));
            assert(spec_frame_screens(cols, rows, tk1) == spec_frame_screens(cols, rows, tk));
        }
        k = k + 1;
    }
    assert(evs.take(k as int) =~= evs);
    out
}

} // verus!

verus! {

/// A frame description whose size, if any, lies in the allowed range.
pub open spec fn desc_in_range(d: FrameDesc) -> bool {
    d matches FrameDesc::Resize(c, r) ==> MIN_DIMENSION <= c <= MAX_DIMENSION && MIN_DIMENSION <= r
        <= MAX_DIMENSION
}

/// An input whose size, if any, lies in the allowed range.
pub open spec fn input_in_range(i: VtInput) -> bool {
    i matches VtInput::Size(c, r) ==> MIN_DIMENSION <= c <= MAX_DIMENSION && MIN_DIMENSION <= r
        <= MAX_DIMENSION
}

/// Whatever sizes a recording declares, the frames stay within bounds:
/// frame times never go back, each resize frame has a size in the allowed
/// range, and the frames' terminal is only ever made or resized to sizes
/// in that range.
pub proof fn lemma_frames_bounded(cols: u16, rows: u16, events: Seq<Event>)
    ensures
        forall|j: int|
            0 < j < spec_frames(events).len() ==> spec_frames(events)[j - 1].0 <= #[trigger] spec_frames(
                events,
            )[j].0,
        forall|j: int|
            0 <= j < spec_frames(events).len() ==> desc_in_range(#[trigger] spec_frames(events)[j].1),
        forall|k: int|
            0 <= k < frames_vt(clamp_dimension(cols as usize), clamp_dimension(rows as usize), events).3.len()
                ==> input_in_range(
                #[trigger] frames_vt(clamp_dimension(cols as usize), clamp_dimension(rows as usize), events).3[k],
            ),
        MIN_DIMENSION <= clamp_dimension(cols as usize) <= MAX_DIMENSION,
        MIN_DIMENSION <= clamp_dimension(rows as usize) <= MAX_DIMENSION,
    decreases events.len(),
{
    if events.len() > 0 {
        lemma_frames_bounded(cols, rows, events.drop_last());
        let prev = spec_frames(events.drop_last());
        let cur = spec_frames(events);
        let c0 = clamp_dimension(cols as usize);
        let r0 = clamp_dimension(rows as usize);
        let v0 = frames_vt(c0, r0, events.drop_last());
        let v1 = frames_vt(c0, r0, events);
        let e = events.last();
        if spec_is_frame_event(e.data) {
            assert forall|j: int| 0 <= j < prev.len() implies cur[j] == prev[j] by {}
            assert forall|k: int| 0 <= k < v1.3.len() implies input_in_range(#[trigger] v1.3[k]) by {
                if k >= v0.3.len() {
                    assert(v1.3[k] == frame_inputs(e.data)[k - v0.3.len()]);
                } else {
                    assert(v1.3[k] == v0.3[k]);
                }
            }
        }
    }
}

/// The time of the latest frame is the latest time of any frame event so
/// far: no frame event is later, and one frame event has exactly that time.
pub proof fn lemma_frame_time_is_running_max(events: Seq<Event>)
    ensures
        spec_frames(events).len() > 0 ==> {
            &&& forall|i: int|
                0 <= i < events.len() && spec_is_frame_event(#[trigger] events[i].data)
                    ==> events[i].time <= spec_frames(events).last().0
            &&& exists|i: int|
                0 <= i < events.len() && spec_is_frame_event(#[trigger] events[i].data)
                    && events[i].time == spec_frames(events).last().0
        },
    decreases events.len(),
{
    if events.len() > 0 {
        let p = events.drop_last();
        lemma_frame_time_is_running_max(p);
        let n = events.len() - 1;
        let e = events.last();
        assert forall|i: int| 0 <= i < n implies events[i] == p[i] by {}
        if spec_frames(events).len() > 0 {
            let last = spec_frames(events).last().0;
            if spec_is_frame_event(e.data) {
                let pf = spec_frames(p);
                if pf.len() > 0 {
                    let m = pf.last().0;
                    if e.time >= m {
                        assert(events[n].time == last);
                    } else {
                        let w = choose|i: int|
                            0 <= i < p.len() && spec_is_frame_event(#[trigger] p[i].data)
                                && p[i].time == m;
                        assert(events[w] == p[w]);
                    }
                } else {
                    assert forall|i: int|
                        0 <= i < n && spec_is_frame_event(#[trigger] events[i].data) implies false by {
                        assert(events[i] == p[i]);
                        lemma_frames_empty_no_frame_event(p, i);
                    }
                    assert(events[n].time == last);
                }
            } else {
                let w = choose|i: int|
                    0 <= i < p.len() && spec_is_frame_event(#[trigger] p[i].data) && p[i].time
                        == last;
                assert(events[w] == p[w]);
            }
        }
    }
}

/// Without frames there is no frame event.
proof fn lemma_frames_empty_no_frame_event(events: Seq<Event>, i: int)
    requires
        spec_frames(events).len() == 0,
        0 <= i < events.len(),
    ensures
        !spec_is_frame_event(events[i].data),
    decreases events.len(),
{
    let p = events.drop_last();
    if i < events.len() - 1 {
        assert(events[i] == p[i]);
        if spec_is_frame_event(events.last().data) {
        } else {
            lemma_frames_empty_no_frame_event(p, i);
        }
    }
}

/// The events that were read, in order, without the read errors.
pub open spec fn ok_events<E>(items: Seq<Result<Event, E>>) -> Seq<Event>
    decreases items.len(),
{
    if items.len() == 0 {
        Seq::empty()
    } else {
        let rest = ok_events(items.drop_last());
        match items.last() {
            Ok(e) => rest.push(e),
            Err(_) => rest,
        }
    }
}

/// The shape of the frames of read results: in order, one slot per read
/// error (holding it) and one empty slot per frame event; other events
/// leave none.
pub open spec fn result_slots<E>(items: Seq<Result<Event, E>>) -> Seq<Option<E>>
    decreases items.len(),
{
    if items.len() == 0 {
        Seq::empty()
    } else {
        let rest = result_slots(items.drop_last());
        match items.last() {
            Ok(e) => if spec_is_frame_event(e.data) {
                rest.push(None)
            } else {
                rest
            },
            Err(x) => rest.push(Some(x)),
        }
    }
}

/// The shape of produced results: the error of each error, an empty slot
/// for each frame.
pub open spec fn output_slots<E>(out: Seq<Result<Frame, E>>) -> Seq<Option<E>> {
    out.map_values(
        |r: Result<Frame, E>|
            match r {
                Ok(_) => None,
                Err(x) => Some(x),
            },
    )
}

/// The frames among produced results, in order.
pub open spec fn ok_frames<E>(out: Seq<Result<Frame, E>>) -> Seq<Frame>
    decreases out.len(),
{
    if out.len() == 0 {
        Seq::empty()
    } else {
        let rest = ok_frames(out.drop_last());
        match out.last() {
            Ok(f) => rest.push(f),
            Err(_) => rest,
        }
    }
}

/// The number of empty slots.
pub open spec fn empty_slots<E>(slots: Seq<Option<E>>) -> nat
    decreases slots.len(),
{
    if slots.len() == 0 {
        0
    } else {
        empty_slots(slots.drop_last()) + if slots.last() is None {
            1nat
        } else {
            0nat
        }
    }
}

/// There is a frame for each empty slot.
proof fn lemma_slots_count_frames<E>(items: Seq<Result<Event, E>>)
    ensures
        spec_frames(ok_events(items)).len() == empty_slots(result_slots(items)),
    decreases items.len(),
{
    if items.len() > 0 {
        let p = items.drop_last();
        lemma_slots_count_frames(p);
        match items.last() {
            Ok(e) => {
                assert(ok_events(items).drop_last() =~= ok_events(p));
                if spec_is_frame_event(e.data) {
                    assert(result_slots(items).drop_last() =~= result_slots(p));
                }
            },
            Err(_) => {
                assert(result_slots(items).drop_last() =~= result_slots(p));
            },
        }
    }
}

/// Replays read events as `frames` does, passing each read error through
/// in its place: the results hold, in order, the error of each failed read
/// and the frame of each frame event, the frames being those of the events
/// that were read.
pub fn frame_results<E>(header: &Header, items: Vec<Result<Event, E>>) -> (r: Vec<Result<Frame, E>>)
    ensures
        output_slots(r@) == result_slots(items@),
        ({
            let cols = clamp_dimension(header.term_cols as usize);
            let rows = clamp_dimension(header.term_rows as usize);
            let evs = ok_events(items@);
            frames_match(
                ok_frames(r@),
                spec_frames(evs),
                spec_frame_screens(cols, rows, evs),
                visible_screen_of(fresh(cols, rows, Some(0))),
            )
        }),
{
    let ghost its = items@;
    let n = items.len();
    let mut rest = crate::util::reversed(items);
    let mut events: Vec<Event> = Vec::new();
    let mut slots: Vec<Option<E>> = Vec::new();
    let mut k: usize = 0;
    assert(its.take(0) =~= Seq::<Result<Event, E>>::empty());
    while rest.len() > 0
        invariant
            n == its.len(),
            k + rest@.len() == n,
            forall|j: int| 0 <= j < rest@.len() ==> rest@[j] == its[n - 1 - j],
            events@ == ok_events(its.take(k as int)),
            slots@ == result_slots(its.take(k as int)),
        decreases rest@.len(),
    {
        let item = rest.pop().unwrap();
        assert(item == its[k as int]);
        assert(its.take(k + 1).drop_last() =~= its.take(k as int));
        match item {
            Ok(e) => {
                if is_frame_event(&e.data) {
                    slots.push(None);
                }
                events.push(e);
            },
            Err(x) => {
                slots.push(Some(x));
            },
        }
        k = k + 1;
    }
    assert(its.take(k as int) =~= its);
    proof {
        lemma_slots_count_frames(its);
    }
    let ghost s0 = slots@;
    let fs = frames(header, events);
    let ghost f0 = fs@;
    let m = slots.len();
    let nf = fs.len();
    let mut frs = crate::util::reversed(fs);
    let mut srs = crate::util::reversed(slots);
    let mut out: Vec<Result<Frame, E>> = Vec::new();
    let mut i: usize = 0;
    let mut used: usize = 0;
    assert(s0.take(0) =~= Seq::<Option<E>>::empty());
    assert(output_slots(out@) =~= Seq::<Option<E>>::empty());
    while srs.len() > 0
        invariant
            m == s0.len(),
            nf == f0.len(),
            f0.len() == empty_slots(s0),
            i + srs@.len() == m,
            forall|j: int| 0 <= j < srs@.len() ==> srs@[j] == s0[m - 1 - j],
            used == empty_slots(s0.take(i as int)),
            used + frs@.len() == nf,
            forall|j: int| 0 <= j < frs@.len() ==> frs@[j] == f0[nf - 1 - j],
            output_slots(out@) == s0.take(i as int),
            ok_frames(out@) == f0.take(used as int),
        decreases srs@.len(),
    {
        let slot = srs.pop().unwrap();
        assert(slot == s0[i as int]);
        assert(s0.take(i + 1).drop_last() =~= s0.take(i as int));
        proof {
            lemma_empty_slots_prefix(s0, i as int);
        }
        let ghost o0 = out@;
        match slot {
            None => {
                let f = frs.pop().unwrap();
                assert(f == f0[used as int]);
                out.push(Ok(f));
                assert(out@.drop_last() =~= o0);
                assert(ok_frames(out@) =~= f0.take(used + 1));
                used = used + 1;
            },
            Some(x) => {
                out.push(Err(x));
                assert(out@.drop_last() =~= o0);
            },
        }
        assert(output_slots(out@) =~= s0.take(i + 1));
        i = i + 1;
    }
    assert(s0.take(i as int) =~= s0);
    assert(f0.take(used as int) =~= f0);
    out
}

/// The empty slots of a prefix never outnumber those of the whole.
proof fn lemma_empty_slots_prefix<E>(s: Seq<Option<E>>, i: int)
    requires
        0 <= i < s.len(),
    ensures
        empty_slots(s.take(i + 1)) == empty_slots(s.take(i)) + if s[i] is None {
            1nat
        } else {
            0nat
        },
        empty_slots(s.take(i + 1)) <= empty_slots(s),
    decreases s.len() - i,
{
    assert(s.take(i + 1).drop_last() =~= s.take(i));
    if i + 1 < s.len() {
        lemma_empty_slots_prefix(s, i + 1);
    } else {
        assert(s.take(i + 1) =~= s);
    }
}

} // verus!

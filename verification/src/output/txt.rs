//! The text output: the session's screen and history as plain text lines,
//! written when the session ends.
use vstd::prelude::*;
use crate::encoder::txt::{line_texts, lines_bytes, text_lines_to_bytes};
use crate::frames::{fresh, given, Vt, VtInput};
use crate::text::utf8_lossy;
use crate::text::string_from_utf8_lossy;
use crate::tty::TtySize;

verus! {

/// The logical text lines of the primary screen, history included, with
/// soft-wrapped rows joined and trailing whitespace trimmed, of a terminal
/// made and given what the view records (what avt's `Screen::text` of
/// `Terminal::primary_screen` returns for it).
pub uninterp spec fn primary_text_lines(v: (usize, usize, Option<usize>, Seq<VtInput>)) -> Seq<
    Seq<char>,
>;

/// The terminal's text lines; wraps avt's `Screen::text` of
/// `Terminal::primary_screen`, which reads the terminal's state alone.
#[verifier::external_body]
fn primary_text(vt: &Vt) -> (lines: Vec<String>)
    ensures
        line_texts(lines@) == primary_text_lines(vt@),
{
    vt.term.primary_screen().text()
}

/// `lines` without the empty lines at their end.
pub open spec fn trim_trailing_empty(lines: Seq<Seq<char>>) -> Seq<Seq<char>>
    decreases lines.len(),
{
    if lines.len() > 0 && lines.last().len() == 0 {
        trim_trailing_empty(lines.drop_last())
    } else {
        lines
    }
}

/// The bytes of the final text: the lines without the empty ones at the
/// end, each followed by a newline.
pub fn text_bytes(lines: Vec<String>) -> (r: Vec<u8>)
    ensures
        r@ == lines_bytes(trim_trailing_empty(line_texts(lines@))),
{
    let ghost given = lines@;
    let mut lines = lines;
    while lines.len() > 0 && lines[lines.len() - 1].as_str().is_empty()
        invariant
            trim_trailing_empty(line_texts(lines@)) == trim_trailing_empty(line_texts(given)),
        decreases lines.len(),
    {
        proof {
            let t = line_texts(lines@);
            assert(t.last() == lines@[lines.len() - 1]@);
        }
        let ghost before = lines@;
        lines.pop();
        assert(line_texts(lines@) =~= line_texts(before).drop_last());
    }
    proof {
        let t = line_texts(lines@);
        if t.len() > 0 {
            assert(t.last() == lines@[lines.len() - 1]@);
        }
    }
    text_lines_to_bytes(&lines)
}

/// The text output of a session.
pub struct Txt {
    term: Option<Vt>,
}

impl Txt {
    /// Whether the session started.
    pub closed spec fn started(&self) -> bool {
        self.term is Some
    }

    /// The session's terminal: the size it was made with and what it was
    /// given since.
    pub closed spec fn terminal(&self) -> (usize, usize, Option<usize>, Seq<VtInput>) {
        match self.term {
            Some(t) => t@,
            None => (0, 0, None, Seq::empty()),
        }
    }

    pub fn new() -> (t: Self)
        ensures
            !t.started(),
    {
        Txt { term: None }
    }

    /// Starts a terminal of the session's size that keeps all history.
    pub fn start(&mut self, tty_size: TtySize)
        requires
            tty_size.0 >= 1,
            tty_size.1 >= 1,
        ensures
            final(self).started(),
            final(self).terminal() == fresh(tty_size.0 as usize, tty_size.1 as usize, None),
    {
        self.term = Some(Vt::new(tty_size.0 as usize, tty_size.1 as usize, None));
    }

    /// Feeds output to the terminal, decoded as UTF-8 with invalid
    /// sequences replaced.
    pub fn output(&mut self, data: &[u8])
        requires
            old(self).started(),
        ensures
            final(self).started(),
            final(self).terminal() == given(old(self).terminal(), VtInput::Text(utf8_lossy(data@))),
    {
        let text = string_from_utf8_lossy(data);
        match self.term.as_mut() {
            Some(t) => t.feed(text.as_str()),
            None => {},
        }
    }

    /// Input is not part of the text.
    pub fn input(&mut self, data: &[u8])
        ensures
            *final(self) == *old(self),
    {
    }

    /// Resizes the terminal.
    pub fn resize(&mut self, size: (u16, u16))
        requires
            old(self).started(),
        ensures
            final(self).started(),
            final(self).terminal() == given(
                old(self).terminal(),
                VtInput::Size(size.0 as usize, size.1 as usize),
            ),
    {
        match self.term.as_mut() {
            Some(t) => t.resize(size.0 as usize, size.1 as usize),
            None => {},
        }
    }

    /// Markers are not part of the text.
    pub fn marker(&mut self)
        ensures
            *final(self) == *old(self),
    {
    }

    /// The bytes written when the session ends: the terminal's text lines
    /// without the empty ones at the end (see `text_bytes`).
    pub fn finish(&mut self) -> (r: Vec<u8>)
        requires
            old(self).started(),
        ensures
            *final(self) == *old(self),
            r@ == lines_bytes(trim_trailing_empty(primary_text_lines(old(self).terminal()))),
    {
        match self.term.as_ref() {
            Some(t) => {
                let lines = primary_text(t);
                text_bytes(lines)
            },
            None => Vec::new(),
        }
    }
}

} // verus!

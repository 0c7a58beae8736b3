//! Terminal sizes, color themes and the fixed-size terminal wrapper.
use vstd::prelude::*;

pub mod inspect;

verus! {

/// A terminal size: columns, then rows.
#[derive(Clone, Copy, Debug, PartialEq, Eq, Structural)]
pub struct TtySize(pub u16, pub u16);

impl Default for TtySize {
    /// The classic 80x24 terminal.
    fn default() -> (s: Self)
        ensures
            s == TtySize(80, 24),
    {
        TtySize(80, 24)
    }
}

/// An RGB color with 8 bits per channel.
#[derive(Clone, Copy, Debug, PartialEq, Eq, Structural)]
pub struct RGB8 {
    pub r: u8,
    pub g: u8,
    pub b: u8,
}

impl RGB8 {
    pub fn new(r: u8, g: u8, b: u8) -> (c: Self)
        ensures
            c == (RGB8 { r, g, b }),
    {
        RGB8 { r, g, b }
    }
}

/// A terminal color theme: foreground, background and the 16-color palette.
#[derive(Clone, Debug)]
pub struct TtyTheme {
    pub fg: RGB8,
    pub bg: RGB8,
    pub palette: Vec<RGB8>,
}

impl View for TtyTheme {
    type V = (RGB8, RGB8, Seq<RGB8>);

    open spec fn view(&self) -> (RGB8, RGB8, Seq<RGB8>) {
        (self.fg, self.bg, self.palette@)
    }
}

/// The size a terminal reports: rows and columns, and its width and height
/// in pixels (0 when unknown).
#[derive(Clone, Copy, Debug, PartialEq, Eq, Structural)]
pub struct Winsize {
    pub ws_row: u16,
    pub ws_col: u16,
    pub ws_xpixel: u16,
    pub ws_ypixel: u16,
}

/// A terminal whose size can be asked.
pub trait RawTty {
    /// The size the terminal reports.
    spec fn spec_size(&self) -> Winsize;

    /// The terminal's size.
    fn get_size(&self) -> (s: Winsize)
        ensures
            s == self.spec_size(),
    ;
}

/// A terminal that is not there: 80x24 with no pixel size, no input,
/// output discarded.
pub struct NullTty;

impl RawTty for NullTty {
    open spec fn spec_size(&self) -> Winsize {
        Winsize { ws_row: 24, ws_col: 80, ws_xpixel: 0, ws_ypixel: 0 }
    }

    fn get_size(&self) -> (s: Winsize) {
        Winsize { ws_row: 24, ws_col: 80, ws_xpixel: 0, ws_ypixel: 0 }
    }
}

/// A terminal with a fixed number of columns and/or rows, whatever the
/// terminal it wraps reports; the pixel size is the wrapped terminal's.
pub struct FixedSizeTty<T> {
    pub inner: T,
    pub cols: Option<u16>,
    pub rows: Option<u16>,
}

impl<T: RawTty> FixedSizeTty<T> {
    pub fn new(inner: T, cols: Option<u16>, rows: Option<u16>) -> (t: Self)
        ensures
            t.inner == inner,
            t.cols == cols,
            t.rows == rows,
    {
        Self { inner, cols, rows }
    }
}

impl<T: RawTty> RawTty for FixedSizeTty<T> {
    open spec fn spec_size(&self) -> Winsize {
        let w = self.inner.spec_size();
        Winsize {
            ws_col: match self.cols {
                Some(c) => c,
                None => w.ws_col,
            },
            ws_row: match self.rows {
                Some(r) => r,
                None => w.ws_row,
            },
            ..w
        }
    }

    fn get_size(&self) -> (s: Winsize) {
        let mut winsize = self.inner.get_size();
        if let Some(cols) = self.cols {
            winsize.ws_col = cols;
        }
        if let Some(rows) = self.rows {
            winsize.ws_row = rows;
        }
        winsize
    }
}

} // verus!

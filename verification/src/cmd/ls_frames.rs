//! The frame listing: one row per frame, as a table or as CSV.
use vstd::prelude::*;
use crate::asciicast::v2::six_digits;
use crate::frames::{escape_controls, spec_escape_controls, Frame, FrameKind};
use crate::text::{
    append_chars, append_str, chars_of, push_decimal, spec_decimal, string_from_chars,
};

verus! {

/// One row of the frame listing. Times are in microseconds.
pub struct Row {
    pub frame: usize,
    pub time: u64,
    pub delta_time: u64,
    pub delta_cells: usize,
    pub type_: String,
    /// The terminal size in effect at this frame.
    pub cols: usize,
    pub rows: usize,
    /// The marker label, for marker frames.
    pub label: Option<String>,
    /// A short summary for the table and CSV: the new size of a resize, the
    /// escaped label of a marker, nothing for output.
    pub detail: String,
}

/// The summary of a frame kind: `COLSxROWS` for a resize, the label with
/// control characters escaped for a marker, nothing for output.
pub open spec fn spec_detail(kind: FrameKind) -> Seq<char> {
    match kind {
        FrameKind::Output => seq![],
        FrameKind::Resize(c, r) => spec_decimal(c as nat) + seq!['x'] + spec_decimal(r as nat),
        FrameKind::Marker(l) => spec_escape_controls(l@),
    }
}

impl Row {
    /// The row of a frame.
    pub fn from(frame: Frame) -> (r: Self)
        ensures
            r.frame == frame.number,
            r.time == frame.time,
            r.delta_time == frame.delta_time,
            r.delta_cells == frame.changed_cells,
            r.cols == (if frame.screen.lines@.len() == 0 {
                0
            } else {
                frame.screen.lines@[0]@.len()
            }),
            r.rows == frame.screen.lines@.len(),
            r.type_@ == match frame.kind {
                FrameKind::Output => "output"@,
                FrameKind::Resize(..) => "resize"@,
                FrameKind::Marker(_) => "marker"@,
            },
            match frame.kind {
                FrameKind::Marker(l) => r.label matches Some(x) && x@ == l@,
                _ => r.label is None,
            },
            r.detail@ == spec_detail(frame.kind),
    {
        let type_ = frame.kind.type_str().to_owned();
        let cols = frame.screen.cols();
        let rows = frame.screen.rows();
        let (label, detail) = match &frame.kind {
            FrameKind::Output => {
                let d: Vec<char> = Vec::new();
                assert(d@ =~= spec_detail(frame.kind));
                (None, string_from_chars(d.as_slice()))
            },
            FrameKind::Resize(c, r) => {
                let mut d: Vec<char> = Vec::new();
                push_decimal(&mut d, *c as u64);
                d.push('x');
                push_decimal(&mut d, *r as u64);
                assert(d@ =~= spec_detail(frame.kind));
                (None, string_from_chars(d.as_slice()))
            },
            FrameKind::Marker(l) => (Some(string_from_chars(chars_of(l.as_str()).as_slice())), escape_controls(l.as_str())),
        };
        Row {
            frame: frame.number,
            time: frame.time,
            delta_time: frame.delta_time,
            delta_cells: frame.changed_cells,
            type_,
            cols,
            rows,
            label,
            detail,
        }
    }
}

/// Seconds with exactly six decimals, as `{:.6}` writes a time given in
/// whole microseconds.
pub open spec fn spec_fixed6(micros: u64) -> Seq<char> {
    spec_decimal((micros / 1_000_000) as nat) + seq!['.'] + six_digits((micros % 1_000_000) as nat)
}

/// Appends seconds with exactly six decimals.
pub fn push_fixed6(out: &mut Vec<char>, micros: u64)
    ensures
        final(out)@ == old(out)@ + spec_fixed6(micros),
{
    push_decimal(out, micros / 1_000_000);
    out.push('.');
    let f = micros % 1_000_000;
    out.push(crate::text::digit(f / 100000 % 10));
    out.push(crate::text::digit(f / 10000 % 10));
    out.push(crate::text::digit(f / 1000 % 10));
    out.push(crate::text::digit(f / 100 % 10));
    out.push(crate::text::digit(f / 10 % 10));
    out.push(crate::text::digit(f % 10));
    assert(out@ =~= old(out)@ + spec_fixed6(micros));
}

/// Whether `value` begins with a character that makes a spreadsheet read
/// it as a formula.
pub open spec fn formula_like(value: Seq<char>) -> bool {
    value.len() > 0 && (value[0] == '=' || value[0] == '+' || value[0] == '-' || value[0] == '@')
}

/// Whether `value` needs quoting in CSV.
pub open spec fn needs_quotes(value: Seq<char>) -> bool {
    exists|i: int|
        0 <= i < value.len() && (value[i] == '"' || value[i] == ',' || value[i] == '\n' || value[i]
            == '\r')
}

/// `value` with each `"` doubled.
pub open spec fn double_quotes(value: Seq<char>) -> Seq<char>
    decreases value.len(),
{
    if value.len() == 0 {
        seq![]
    } else {
        double_quotes(value.drop_last()) + if value.last() == '"' {
            seq!['"', '"']
        } else {
            seq![value.last()]
        }
    }
}

/// A CSV field: a leading `'` neutralizes a value a spreadsheet would
/// evaluate as a formula (the detail column can hold a label from the
/// recording), and a field with a quote, comma or line break is quoted with
/// its quotes doubled.
pub open spec fn spec_csv_escape(value: Seq<char>) -> Seq<char> {
    let v = if formula_like(value) {
        seq!['\''] + value
    } else {
        value
    };
    if needs_quotes(v) {
        seq!['"'] + double_quotes(v) + seq!['"']
    } else {
        v
    }
}

/// Escapes a CSV field.
pub fn csv_escape(value: &str) -> (r: String)
    ensures
        r@ == spec_csv_escape(value@),
{
    let chars = chars_of(value);
    let mut v: Vec<char> = Vec::new();
    if chars.len() > 0 && (chars[0] == '=' || chars[0] == '+' || chars[0] == '-' || chars[0] == '@') {
        v.push('\'');
    }
    append_chars(&mut v, chars.as_slice());
    let ghost vs = if formula_like(value@) {
        seq!['\''] + value@
    } else {
        value@
    };
    assert(v@ =~= vs);
    let mut quote = false;
    let mut i: usize = 0;
    while i < v.len()
        invariant
            i <= v@.len(),
            quote <==> exists|j: int|
                0 <= j < i && (v@[j] == '"' || v@[j] == ',' || v@[j] == '\n' || v@[j] == '\r'),
        decreases v@.len() - i,
    {
        let c = v[i];
        if c == '"' || c == ',' || c == '\n' || c == '\r' {
            quote = true;
        }
        i = i + 1;
    }
    if !quote {
        return string_from_chars(v.as_slice());
    }
    let mut out: Vec<char> = vec!['"'];
    let mut k: usize = 0;
    while k < v.len()
        invariant
            k <= v@.len(),
            out@ == seq!['"'] + double_quotes(v@.take(k as int)),
        decreases v@.len() - k,
    {
        assert(v@.take(k + 1).drop_last() =~= v@.take(k as int));
        if v[k] == '"' {
            out.push('"');
            out.push('"');
        } else {
            out.push(v[k]);
        }
        k = k + 1;
        assert(out@ =~= seq!['"'] + double_quotes(v@.take(k as int)));
    }
    assert(v@.take(k as int) =~= v@);
    out.push('"');
    string_from_chars(out.as_slice())
}

/// The CSV line of a row.
pub open spec fn spec_csv_line(r: Row) -> Seq<char> {
    spec_decimal(r.frame as nat) + seq![','] + spec_fixed6(r.time) + seq![','] + spec_fixed6(
        r.delta_time,
    ) + seq![','] + spec_decimal(r.delta_cells as nat) + seq![','] + r.type_@ + seq![',']
        + spec_csv_escape(r.detail@) + seq!['\n']
}

/// The CSV lines of the rows.
pub open spec fn spec_csv_lines(rows: Seq<Row>) -> Seq<char>
    decreases rows.len(),
{
    if rows.len() == 0 {
        seq![]
    } else {
        spec_csv_lines(rows.drop_last()) + spec_csv_line(rows.last())
    }
}

pub open spec fn csv_header() -> Seq<char> {
    "frame,time,delta_time,delta_cells,type,detail\n"@
}

/// Appends the CSV line of a row.
fn push_csv_line(out: &mut Vec<char>, row: &Row)
    ensures
        final(out)@ == old(out)@ + spec_csv_line(*row),
{
    push_decimal(out, row.frame as u64);
    out.push(',');
    push_fixed6(out, row.time);
    out.push(',');
    push_fixed6(out, row.delta_time);
    out.push(',');
    push_decimal(out, row.delta_cells as u64);
    out.push(',');
    append_str(out, row.type_.as_str());
    out.push(',');
    let d = csv_escape(row.detail.as_str());
    append_str(out, d.as_str());
    out.push('\n');
    assert(out@ =~= old(out)@ + spec_csv_line(*row));
}

/// The listing as CSV: a header row, then one line per frame.
pub fn write_csv(rows: &Vec<Row>) -> (r: String)
    ensures
        r@ == csv_header() + spec_csv_lines(rows@),
{
    let mut out = chars_of("frame,time,delta_time,delta_cells,type,detail\n");
    let ghost base = out@;
    let mut k: usize = 0;
    while k < rows.len()
        invariant
            k <= rows@.len(),
            base == csv_header(),
            out@ == base + spec_csv_lines(rows@.take(k as int)),
        decreases rows@.len() - k,
    {
        assert(rows@.take(k + 1).drop_last() =~= rows@.take(k as int));
        push_csv_line(&mut out, &rows[k]);
        k = k + 1;
        assert(out@ =~= base + spec_csv_lines(rows@.take(k as int)));
    }
    assert(rows@.take(k as int) =~= rows@);
    string_from_chars(out.as_slice())
}

/// The six columns of a row in the table: frame, time, delta time, delta
/// cells, type and detail.
pub open spec fn table_cells(r: Row) -> Seq<Seq<char>> {
    seq![
        spec_decimal(r.frame as nat),
        spec_fixed6(r.time),
        spec_fixed6(r.delta_time),
        spec_decimal(r.delta_cells as nat),
        r.type_@,
        r.detail@,
    ]
}

pub open spec fn table_headers() -> Seq<Seq<char>> {
    seq!["FRAME"@, "TIME"@, "DELTA-T"@, "DELTA-CELLS"@, "TYPE"@, "DETAIL"@]
}

/// The width of column `i`: its widest cell, the header included.
pub open spec fn column_width(rows: Seq<Row>, i: int) -> nat
    decreases rows.len(),
{
    if rows.len() == 0 {
        table_headers()[i].len()
    } else {
        let w = column_width(rows.drop_last(), i);
        let c = table_cells(rows.last())[i].len();
        if c > w {
            c
        } else {
            w
        }
    }
}

pub open spec fn spaces(n: int) -> Seq<char> {
    Seq::new(if n > 0 {
        n as nat
    } else {
        0
    }, |i: int| ' ')
}

/// `s` right-aligned in `w` columns.
pub open spec fn pad_left(s: Seq<char>, w: nat) -> Seq<char> {
    spaces(w - s.len()) + s
}

/// `s` left-aligned in `w` columns.
pub open spec fn pad_right(s: Seq<char>, w: nat) -> Seq<char> {
    s + spaces(w - s.len())
}

/// A table line: the numeric columns right-aligned, the type left-aligned,
/// two spaces between columns, the detail last and trailing whitespace
/// trimmed.
#[verifier::opaque]
pub open spec fn table_line(c: Seq<Seq<char>>, rows: Seq<Row>) -> Seq<char> {
    let sep = seq![' ', ' '];
    crate::text::trim_end(
        pad_left(c[0], column_width(rows, 0)) + sep + pad_left(c[1], column_width(rows, 1)) + sep
            + pad_left(c[2], column_width(rows, 2)) + sep + pad_left(c[3], column_width(rows, 3))
            + sep + pad_right(c[4], column_width(rows, 4)) + sep + c[5],
    )
}

/// The lines of the rows.
pub open spec fn table_lines(all: Seq<Row>, rows: Seq<Row>) -> Seq<char>
    decreases rows.len(),
{
    if rows.len() == 0 {
        seq![]
    } else {
        table_lines(all, rows.drop_last()) + table_line(table_cells(rows.last()), all) + seq!['\n']
    }
}

/// The listing as a table for people.
pub open spec fn spec_write_table(rows: Seq<Row>) -> Seq<char> {
    table_line(table_headers(), rows) + seq!['\n'] + table_lines(rows, rows)
}

/// The six cells of a row.
fn row_cells(r: &Row) -> (c: Vec<Vec<char>>)
    ensures
        c@.len() == 6,
        forall|i: int| 0 <= i < 6 ==> (#[trigger] c@[i])@ == table_cells(*r)[i],
{
    let mut frame: Vec<char> = Vec::new();
    push_decimal(&mut frame, r.frame as u64);
    let mut time: Vec<char> = Vec::new();
    push_fixed6(&mut time, r.time);
    let mut delta: Vec<char> = Vec::new();
    push_fixed6(&mut delta, r.delta_time);
    let mut cells: Vec<char> = Vec::new();
    push_decimal(&mut cells, r.delta_cells as u64);
    let type_ = chars_of(r.type_.as_str());
    let detail = chars_of(r.detail.as_str());
    assert(frame@ =~= spec_decimal(r.frame as nat));
    assert(time@ =~= spec_fixed6(r.time));
    assert(delta@ =~= spec_fixed6(r.delta_time));
    assert(cells@ =~= spec_decimal(r.delta_cells as nat));
    vec![frame, time, delta, cells, type_, detail]
}

/// The header cells.
fn header_cells() -> (c: Vec<Vec<char>>)
    ensures
        c@.len() == 6,
        forall|i: int| 0 <= i < 6 ==> (#[trigger] c@[i])@ == table_headers()[i],
{
    vec![
        chars_of("FRAME"),
        chars_of("TIME"),
        chars_of("DELTA-T"),
        chars_of("DELTA-CELLS"),
        chars_of("TYPE"),
        chars_of("DETAIL"),
    ]
}

/// Appends `n` spaces.
fn push_spaces(out: &mut Vec<char>, n: usize)
    ensures
        final(out)@ == old(out)@ + spaces(n as int),
{
    let mut k: usize = 0;
    while k < n
        invariant
            k <= n,
            out@ == old(out)@ + spaces(k as int),
        decreases n - k,
    {
        out.push(' ');
        k = k + 1;
        assert(out@ =~= old(out)@ + spaces(k as int));
    }
}

/// Appends `s` right-aligned in `w` columns.
fn push_pad_left(out: &mut Vec<char>, s: &Vec<char>, w: usize)
    ensures
        final(out)@ == old(out)@ + pad_left(s@, w as nat),
{
    if s.len() < w {
        push_spaces(out, w - s.len());
    } else {
        assert(spaces(w - s@.len()) =~= Seq::<char>::empty());
    }
    append_chars(out, s.as_slice());
    assert(out@ =~= old(out)@ + pad_left(s@, w as nat));
}

/// Appends `s` left-aligned in `w` columns.
fn push_pad_right(out: &mut Vec<char>, s: &Vec<char>, w: usize)
    ensures
        final(out)@ == old(out)@ + pad_right(s@, w as nat),
{
    append_chars(out, s.as_slice());
    if s.len() < w {
        push_spaces(out, w - s.len());
    } else {
        assert(spaces(w - s@.len()) =~= Seq::<char>::empty());
    }
    assert(out@ =~= old(out)@ + pad_right(s@, w as nat));
}

/// Appends a table line and a line break.
fn push_table_line(
    out: &mut Vec<char>,
    c: &Vec<Vec<char>>,
    widths: &Vec<usize>,
    cv: Ghost<Seq<Seq<char>>>,
    rows: Ghost<Seq<Row>>,
)
    requires
        c@.len() == 6,
        cv@.len() == 6,
        forall|i: int| 0 <= i < 6 ==> (#[trigger] c@[i])@ == cv@[i],
        widths@.len() == 5,
        forall|i: int| 0 <= i < 5 ==> widths@[i] == column_width(rows@, i),
    ensures
        final(out)@ == old(out)@ + table_line(cv@, rows@) + seq!['\n'],
{
    let mut line: Vec<char> = Vec::new();
    push_pad_left(&mut line, &c[0], widths[0]);
    line.push(' ');
    line.push(' ');
    push_pad_left(&mut line, &c[1], widths[1]);
    line.push(' ');
    line.push(' ');
    push_pad_left(&mut line, &c[2], widths[2]);
    line.push(' ');
    line.push(' ');
    push_pad_left(&mut line, &c[3], widths[3]);
    line.push(' ');
    line.push(' ');
    push_pad_right(&mut line, &c[4], widths[4]);
    line.push(' ');
    line.push(' ');
    append_chars(&mut line, c[5].as_slice());
    let ghost cv = cv@;
    assert(c@[0]@ == cv[0] && c@[1]@ == cv[1] && c@[2]@ == cv[2] && c@[3]@ == cv[3] && c@[4]@ == cv[4]
        && c@[5]@ == cv[5]);
    assert(line@ =~= pad_left(cv[0], column_width(rows@, 0)) + seq![' ', ' '] + pad_left(
        cv[1],
        column_width(rows@, 1),
    ) + seq![' ', ' '] + pad_left(cv[2], column_width(rows@, 2)) + seq![' ', ' '] + pad_left(
        cv[3],
        column_width(rows@, 3),
    ) + seq![' ', ' '] + pad_right(cv[4], column_width(rows@, 4)) + seq![' ', ' '] + cv[5]);
    reveal(table_line);
    let trimmed = crate::text::trim_end_chars(line.as_slice());
    append_chars(out, trimmed.as_slice());
    out.push('\n');
    assert(out@ =~= old(out)@ + table_line(cv, rows@) + seq!['\n']);
}

/// Widens a column to fit a cell.
fn widen(widths: &mut Vec<usize>, i: usize, len: usize)
    requires
        i < old(widths)@.len(),
    ensures
        final(widths)@ == old(widths)@.update(
            i as int,
            if len > old(widths)@[i as int] {
                len
            } else {
                old(widths)@[i as int]
            },
        ),
{
    if len > widths[i] {
        widths.set(i, len);
    } else {
        assert(widths@ =~= old(widths)@.update(i as int, old(widths)@[i as int]));
    }
}

/// The listing as a table for people: a header line, then one line per
/// frame, each column as wide as its widest cell.
pub fn write_table(rows: &Vec<Row>) -> (r: String)
    ensures
        r@ == spec_write_table(rows@),
{
    let mut cells: Vec<Vec<Vec<char>>> = Vec::new();
    let headers = header_cells();
    let mut widths: Vec<usize> = vec![
        headers[0].len(),
        headers[1].len(),
        headers[2].len(),
        headers[3].len(),
        headers[4].len(),
    ];
    let mut k: usize = 0;
    assert(rows@.take(0) =~= Seq::<Row>::empty());
    while k < rows.len()
        invariant
            k <= rows@.len(),
            cells@.len() == k,
            forall|j: int|
                0 <= j < k ==> (#[trigger] cells@[j])@.len() == 6 && forall|i: int|
                    0 <= i < 6 ==> (#[trigger] cells@[j]@[i])@ == table_cells(rows@[j])[i],
            widths@.len() == 5,
            forall|i: int| 0 <= i < 5 ==> widths@[i] == column_width(rows@.take(k as int), i),
        decreases rows@.len() - k,
    {
        assert(rows@.take(k + 1).drop_last() =~= rows@.take(k as int));
        let c = row_cells(&rows[k]);
        assert(rows@.take(k + 1).last() == rows@[k as int]);
        widen(&mut widths, 0, c[0].len());
        widen(&mut widths, 1, c[1].len());
        widen(&mut widths, 2, c[2].len());
        widen(&mut widths, 3, c[3].len());
        widen(&mut widths, 4, c[4].len());
        assert forall|i: int| 0 <= i < 5 implies widths@[i] == column_width(rows@.take(k + 1), i) by {
            assert(c@[i]@ == table_cells(rows@[k as int])[i]);
        }
        cells.push(c);
        k = k + 1;
    }
    assert(rows@.take(k as int) =~= rows@);
    let mut out: Vec<char> = Vec::new();
    push_table_line(&mut out, &headers, &widths, Ghost(table_headers()), Ghost(rows@));
    let ghost base = out@;
    let mut j: usize = 0;
    while j < cells.len()
        invariant
            j <= cells@.len(),
            cells@.len() == rows@.len(),
            forall|m: int|
                0 <= m < cells@.len() ==> (#[trigger] cells@[m])@.len() == 6 && forall|i: int|
                    0 <= i < 6 ==> (#[trigger] cells@[m]@[i])@ == table_cells(rows@[m])[i],
            widths@.len() == 5,
            forall|i: int| 0 <= i < 5 ==> widths@[i] == column_width(rows@, i),
            out@ == base + table_lines(rows@, rows@.take(j as int)),
        decreases cells@.len() - j,
    {
        assert(rows@.take(j + 1).drop_last() =~= rows@.take(j as int));
        push_table_line(&mut out, &cells[j], &widths, Ghost(table_cells(rows@[j as int])), Ghost(rows@));
        j = j + 1;
        assert(out@ =~= base + table_lines(rows@, rows@.take(j as int)));
    }
    assert(rows@.take(j as int) =~= rows@);
    string_from_chars(out.as_slice())
}

/// The detail of a resize frame is the size as a recording writes it,
/// columns first: read back as the data of a v2 resize event, it gives the
/// frame's columns and rows.
pub proof fn lemma_resize_detail_reads_back(c: u16, r: u16)
    ensures
        spec_detail(FrameKind::Resize(c, r)) == crate::asciicast::v2::event_text(
            crate::asciicast::EventData::Resize(c, r),
        ),
        forall|res: Result<crate::asciicast::EventData, String>|
            #[trigger] crate::asciicast::v2::event_data_ok(
                crate::asciicast::v2::V2EventCode::Resize,
                spec_detail(FrameKind::Resize(c, r)),
                res,
            ) ==> crate::asciicast::v2::same_event_data(
                res,
                crate::asciicast::EventData::Resize(c, r),
            ),
{
    let d = crate::asciicast::EventData::Resize(c, r);
    crate::asciicast::v2::lemma_event_data_roundtrip(d);
    assert(crate::asciicast::v2::event_code_data(d).0 == 'r');
    assert(seq!['r'][0] != seq!['o'][0] && seq!['r'][0] != seq!['i'][0]);
    assert(seq!['r'] != seq!['o'] && seq!['r'] != seq!['i']);
    assert(crate::asciicast::v2::spec_event_code(seq!['r']) == Ok::<
        crate::asciicast::v2::V2EventCode,
        Seq<char>,
    >(crate::asciicast::v2::V2EventCode::Resize));
    assert forall|res: Result<crate::asciicast::EventData, String>|
        #[trigger] crate::asciicast::v2::event_data_ok(
            crate::asciicast::v2::V2EventCode::Resize,
            spec_detail(FrameKind::Resize(c, r)),
            res,
        ) implies crate::asciicast::v2::same_event_data(
        res,
        crate::asciicast::EventData::Resize(c, r),
    ) by {
        assert(crate::asciicast::v2::event_data_ok(
            crate::asciicast::v2::V2EventCode::Resize,
            crate::asciicast::v2::event_text(d),
            res,
        ));
    }
}

/// A time in the listing reads back as the time it shows: its text, read
/// as seconds the way event times are read, gives the microseconds again.
pub proof fn lemma_fixed6_reads_back(t: u64)
    ensures
        crate::asciicast::util::spec_time_text(spec_fixed6(t)) == Ok::<int, Seq<char>>(t as int),
{
    let secs = (t / 1_000_000) as nat;
    let f = (t % 1_000_000) as nat;
    let d = spec_decimal(secs);
    let six = crate::asciicast::v2::six_digits(f);
    crate::asciicast::v2::lemma_decimal_digits(secs);
    crate::asciicast::v2::lemma_six_digits(f);
    assert forall|i: int| 0 <= i < d.len() implies d[i] != '.' by {
        assert('0' <= d[i] <= '9');
    }
    assert forall|i: int| 0 <= i < six.len() implies six[i] != '.' by {
        assert('0' <= six[i] <= '9');
    }
    crate::asciicast::v2::lemma_split_dot(d, six);
    crate::asciicast::v2::lemma_trim_digits(six);
    assert(crate::asciicast::util::micros_text(six) =~= six);
    crate::asciicast::v2::lemma_digits_parse(d, u64::MAX as nat);
    crate::asciicast::v2::lemma_digits_parse(six, u64::MAX as nat);
}

/// A CSV field is safe to open in a spreadsheet and to split on commas:
/// it never starts like a formula, and a field holding a comma, a quote or
/// a line break is enclosed in quotes; a plain value is kept as it is.
pub proof fn lemma_csv_field_safe(v: Seq<char>)
    ensures
        !formula_like(spec_csv_escape(v)),
        (exists|i: int|
            0 <= i < spec_csv_escape(v).len() && (spec_csv_escape(v)[i] == ','
                || spec_csv_escape(v)[i] == '\n' || spec_csv_escape(v)[i] == '\r'
                || spec_csv_escape(v)[i] == '"')) ==> spec_csv_escape(v).len() >= 2
            && spec_csv_escape(v)[0] == '"' && spec_csv_escape(v).last() == '"',
        !formula_like(v) && !needs_quotes(v) ==> spec_csv_escape(v) == v,
{
    let w = if formula_like(v) {
        seq!['\''] + v
    } else {
        v
    };
    if needs_quotes(w) {
        let e = spec_csv_escape(v);
        assert(e[0] == '"');
    } else {
        if formula_like(v) {
            assert(w[0] == '\'');
        }
    }
}

} // verus!

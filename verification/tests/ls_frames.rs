use asciinema::cmd::ls_frames::{csv_escape, write_csv, write_table, Row};

fn row(frame: usize, time: u64, delta: u64, cells: usize, type_: &str, detail: &str) -> Row {
    Row {
        frame,
        time,
        delta_time: delta,
        delta_cells: cells,
        type_: type_.to_owned(),
        cols: 10,
        rows: 4,
        label: None,
        detail: detail.to_owned(),
    }
}

fn fixture_rows() -> Vec<Row> {
    vec![
        row(1, 500_000, 500_000, 3, "output", ""),
        row(2, 1_000_000, 500_000, 4, "output", ""),
        row(3, 2_000_000, 1_000_000, 0, "marker", "step 1"),
        row(4, 3_000_000, 1_000_000, 0, "resize", "8x3"),
        row(5, 4_000_000, 1_000_000, 2, "output", ""),
    ]
}

#[test]
fn csv_escaping() {
    assert_eq!(csv_escape("plain"), "plain");
    assert_eq!(csv_escape("a,b"), "\"a,b\"");
    assert_eq!(csv_escape("say \"hi\""), "\"say \"\"hi\"\"\"");
    // spreadsheet formula injection is neutralized with a leading quote
    assert_eq!(csv_escape("=cmd|calc"), "'=cmd|calc");
    assert_eq!(csv_escape("+1"), "'+1");
    assert_eq!(csv_escape("@SUM(A1)"), "'@SUM(A1)");
}

#[test]
fn table() {
    let output = write_table(&fixture_rows());
    let lines: Vec<&str> = output.lines().collect();

    assert_eq!(
        lines[0],
        "FRAME      TIME   DELTA-T  DELTA-CELLS  TYPE    DETAIL"
    );

    assert_eq!(lines[1], "    1  0.500000  0.500000            3  output");
    assert_eq!(
        lines[3],
        "    3  2.000000  1.000000            0  marker  step 1"
    );
    assert_eq!(
        lines[4],
        "    4  3.000000  1.000000            0  resize  8x3"
    );
    assert_eq!(lines.len(), 6);
}

#[test]
fn csv() {
    let output = write_csv(&fixture_rows());
    let lines: Vec<&str> = output.lines().collect();

    assert_eq!(lines[0], "frame,time,delta_time,delta_cells,type,detail");
    assert_eq!(lines[1], "1,0.500000,0.500000,3,output,");
    assert_eq!(lines[3], "3,2.000000,1.000000,0,marker,step 1");
    assert_eq!(lines[4], "4,3.000000,1.000000,0,resize,8x3");
}

#[test]
fn csv_quotes_multiline_details() {
    assert_eq!(csv_escape("-a\nb"), "\"'-a\nb\"");
    assert_eq!(csv_escape(""), "");
}

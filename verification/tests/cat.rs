use asciinema::asciicast::{Event, EventData, Header, Version};
use asciinema::cli::{Convert, Format};
use asciinema::cmd::cat::{cat_error, cat_events};
use asciinema::cmd::convert::is_txt_path;

fn header(cols: u16, rows: u16) -> Header {
    Header {
        term_cols: cols,
        term_rows: rows,
        ..Default::default()
    }
}

fn summary(events: &[Event]) -> Vec<(u64, String)> {
    events
        .iter()
        .map(|e| {
            let what = match &e.data {
                EventData::Output(s) => format!("o:{s}"),
                EventData::Input(s) => format!("i:{s}"),
                EventData::Resize(c, r) => format!("r:{c}x{r}"),
                EventData::Marker(s) => format!("m:{s}"),
                EventData::Exit(s) => format!("x:{s}"),
                EventData::Other(c, s) => format!("{c}:{s}"),
            };
            (e.time, what)
        })
        .collect()
}

#[test]
fn cat_shifts_recordings_and_resizes_between_sizes() {
    let casts = vec![
        (
            header(80, 24),
            vec![Event::output(1, "a".to_owned()), Event::output(5, "b".to_owned())],
        ),
        (
            header(100, 30),
            vec![Event::output(2, "c".to_owned()), Event::resize(3, (80, 24))],
        ),
        (header(80, 24), vec![Event::output(1, "d".to_owned())]),
    ];
    let out = cat_events(casts);
    assert_eq!(
        summary(&out),
        vec![
            (1, "o:a".to_owned()),
            (5, "o:b".to_owned()),
            (5, "r:100x30".to_owned()),
            (7, "o:c".to_owned()),
            (8, "r:80x24".to_owned()),
            (9, "o:d".to_owned()),
        ]
    );
}

#[test]
fn cat_of_empty_recordings_keeps_the_offset() {
    let casts = vec![
        (header(80, 24), vec![Event::output(10, "a".to_owned())]),
        (header(80, 24), vec![]),
        (header(80, 24), vec![Event::marker(1, "m".to_owned())]),
    ];
    assert_eq!(
        summary(&cat_events(casts)),
        vec![(10, "o:a".to_owned()), (11, "m:m".to_owned())]
    );
}

#[test]
fn cat_refuses_v1_only() {
    assert_eq!(
        cat_error(Version::One),
        Some("asciicast v1 files can't be concatenated".to_owned())
    );
    assert_eq!(cat_error(Version::Two), None);
    assert_eq!(cat_error(Version::Three), None);
}

fn convert(output: &str, format: Option<Format>, overwrite: bool) -> Convert {
    Convert {
        input: "in.cast".to_owned(),
        output: output.to_owned(),
        output_format: format,
        overwrite,
    }
}

#[test]
fn convert_picks_the_output_format() {
    assert_eq!(convert("out.txt", None, false).output_format(), Format::Txt);
    assert_eq!(convert("OUT.TxT", None, false).output_format(), Format::Txt);
    assert_eq!(convert("out.cast", None, false).output_format(), Format::AsciicastV3);
    assert_eq!(convert("txt", None, false).output_format(), Format::AsciicastV3);
    assert_eq!(
        convert("out.txt", Some(Format::Raw), false).output_format(),
        Format::Raw
    );
    assert!(is_txt_path(".txt"));
    assert!(!is_txt_path("a.txt "));
}

#[test]
fn convert_writes_dash_to_stdout() {
    assert_eq!(convert("-", None, false).get_output_path(), "/dev/stdout");
    assert_eq!(convert("x.cast", None, false).get_output_path(), "x.cast");
}

#[test]
fn convert_replaces_only_empty_files_without_overwrite() {
    let c = convert("x.cast", None, false);
    assert_eq!(c.get_mode(false, 0), Ok(false));
    assert_eq!(c.get_mode(true, 0), Ok(true));
    assert_eq!(
        c.get_mode(true, 10),
        Err("file exists, use --overwrite option to overwrite the file".to_owned())
    );
    let c = convert("x.cast", None, true);
    assert_eq!(c.get_mode(false, 0), Ok(true));
    assert_eq!(c.get_mode(true, 10), Ok(true));
}

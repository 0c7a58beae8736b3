use asciinema::asciicast::EventData;
use asciinema::encoder::asciicast::AsciicastV2Encoder;
use asciinema::encoder::raw::RawEncoder;
use asciinema::encoder::txt::TextEncoder;
use asciinema::file_writer::{make_header, FileEncoder, FileWriter};
use asciinema::session::{Event, Metadata, TermInfo};
use asciinema::tty::TtySize;

fn metadata() -> Metadata {
    Metadata {
        timestamp: Some(1_700_000_000),
        term: TermInfo {
            type_: Some("xterm".to_owned()),
            version: None,
            size: TtySize(80, 24),
            theme: None,
        },
        idle_time_limit: Some(2_500_000),
        command: None,
        title: Some("demo".to_owned()),
        env: vec![("SHELL".to_owned(), "/bin/sh".to_owned())],
    }
}

#[test]
fn session_header_from_metadata() {
    let h = make_header(metadata());
    assert_eq!((h.term_cols, h.term_rows), (80, 24));
    assert_eq!(h.term_type.as_deref(), Some("xterm"));
    assert_eq!(h.timestamp, Some(1_700_000_000));
    assert_eq!(h.idle_time_limit, Some(2_500_000));
    assert_eq!(h.title.as_deref(), Some("demo"));
    assert_eq!(h.env.unwrap().len(), 1);
}

#[test]
fn session_events_become_recording_events() {
    let e: asciinema::asciicast::Event = Event::Resize(5, TtySize(100, 30)).into();
    assert_eq!(e.time, 5);
    assert!(matches!(e.data, EventData::Resize(100, 30)));
    let e: asciinema::asciicast::Event = Event::Exit(9, -1).into();
    assert!(matches!(e.data, EventData::Exit(-1)));
    let e: asciinema::asciicast::Event = Event::Marker(1, "m".to_owned()).into();
    assert!(matches!(e.data, EventData::Marker(ref s) if s == "m"));
}

#[test]
fn raw_file_writer() {
    let writer = FileWriter::new(FileEncoder::Raw(RawEncoder::new()), metadata());
    let (header, mut live) = writer.start();
    assert_eq!(header, b"\x1b[8;24;80t");
    assert_eq!(live.event(Event::Output(1, "hi".to_owned())), b"hi");
    assert!(live.event(Event::Input(2, "k".to_owned())).is_empty());
    assert!(live.flush().is_empty());
}

#[test]
fn v2_file_writer() {
    let writer = FileWriter::new(
        FileEncoder::AsciicastV2(AsciicastV2Encoder::new(false, 0)),
        metadata(),
    );
    let (header, mut live) = writer.start();
    let header = String::from_utf8(header).unwrap();
    assert!(header.starts_with("{\"version\":2,\"width\":80,\"height\":24,\"timestamp\":1700000000"));
    assert!(header.ends_with("}\n"));
    assert_eq!(
        live.event(Event::Output(1_500_000, "hi".to_owned())),
        b"[1.5, \"o\", \"hi\"]\n"
    );
}

#[test]
fn txt_file_writer() {
    let writer = FileWriter::new(FileEncoder::Txt(TextEncoder::new()), metadata());
    let (header, mut live) = writer.start();
    assert!(header.is_empty());
    assert!(live.event(Event::Output(1, "hello\r\n".to_owned())).is_empty());
    assert_eq!(live.flush(), b"hello\n");
}

#[test]
fn appending_v2_file_writer_continues_the_timeline() {
    let writer = FileWriter::new(
        FileEncoder::AsciicastV2(AsciicastV2Encoder::new(true, 2_000_000)),
        metadata(),
    );
    let (header, mut live) = writer.start();
    assert_eq!(header, b"[2.0, \"r\", \"80x24\"]\n");
    assert_eq!(
        live.event(Event::Output(1_500_000, "hi".to_owned())),
        b"[3.5, \"o\", \"hi\"]\n"
    );
}

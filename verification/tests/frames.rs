use asciinema::asciicast::{Event, Header};
use asciinema::frames::{self, clamp_size, escape_controls, is_frame_event, Frame, FrameKind};
use asciinema::asciicast::EventData;

fn header(cols: u16, rows: u16) -> Header {
    Header {
        term_cols: cols,
        term_rows: rows,
        ..Default::default()
    }
}

fn micros(time: u64) -> u64 {
    time
}

fn frames(header: &Header, events: Vec<Event>) -> Vec<Frame> {
    frames::frames(header, events)
}

#[test]
fn output_frames() {
    let events = vec![
        Event::output(micros(500_000), "\x1b[31mred\x1b[0m".to_owned()),
        Event::output(micros(1_000_000), " text".to_owned()),
        Event::input(micros(1_200_000), "y".to_owned()),
        Event::output(micros(2_000_000), "\r\nbye".to_owned()),
    ];

    let frames = frames(&header(10, 4), events);

    assert_eq!(frames.len(), 3);

    assert_eq!(frames[0].number, 1);
    assert_eq!(frames[0].time, micros(500_000));
    assert_eq!(frames[0].delta_time, micros(500_000));
    assert_eq!(frames[0].changed_cells, 3);
    assert!(matches!(frames[0].kind, FrameKind::Output));

    // the space between "red" and "text" is written with a default pen
    // over a blank cell, so it doesn't count as changed
    assert_eq!(frames[1].number, 2);
    assert_eq!(frames[1].delta_time, micros(500_000));
    assert_eq!(frames[1].changed_cells, 4);

    // the input event is not a frame
    assert_eq!(frames[2].number, 3);
    assert_eq!(frames[2].time, micros(2_000_000));
    assert_eq!(frames[2].delta_time, micros(1_000_000));
    assert_eq!(frames[2].changed_cells, 3);

    assert_eq!(
        frames[2].screen.text_lines(),
        vec!["red text", "bye", "", ""]
    );
}

#[test]
fn marker_frames() {
    let events = vec![
        Event::output(micros(1), "hello".to_owned()),
        Event::marker(micros(2), "step 1".to_owned()),
    ];

    let frames = frames(&header(10, 4), events);

    assert_eq!(frames.len(), 2);
    assert_eq!(frames[1].changed_cells, 0);
    assert!(matches!(frames[1].kind, FrameKind::Marker(ref l) if l == "step 1"));
}

#[test]
fn resize_frames() {
    let events = vec![
        Event::output(micros(1), "red text".to_owned()),
        Event::resize(micros(2), (8, 3)),
        Event::resize(micros(3), (5, 3)),
    ];

    let frames = frames(&header(10, 4), events);

    assert_eq!(frames.len(), 3);

    // the content still fits after the resize - no cells changed
    assert_eq!(frames[1].changed_cells, 0);
    assert!(matches!(frames[1].kind, FrameKind::Resize(8, 3)));
    assert_eq!((frames[1].screen.cols(), frames[1].screen.rows()), (8, 3));

    // "red text" reflows into "red t" + "ext", and the first of these
    // lines scrolls out of the 3-row view - 7 cells of the first row
    // change ("red text" -> "ext")
    assert_eq!(frames[2].changed_cells, 7);
    assert_eq!(frames[2].screen.text_lines(), vec!["ext", "", ""]);
}

#[test]
fn seq_lines() {
    let events = vec![Event::output(
        micros(1),
        "\x1b[1;31mred\x1b[0m plain".to_owned(),
    )];

    let frames = frames(&header(20, 2), events);
    let seq = frames[0].screen.seq_lines();

    assert_eq!(seq, vec!["\x1b[0;1;31mred\x1b[0m plain", ""]);
}

#[test]
fn seq_lines_default_pen_has_no_leading_reset() {
    // a line that starts with default-pen cells must not be prefixed with a
    // redundant reset sequence
    let events = vec![Event::output(micros(1), "hello \x1b[31mred".to_owned())];

    let frames = frames(&header(20, 2), events);
    let seq = frames[0].screen.seq_lines();

    assert_eq!(seq, vec!["hello \x1b[0;31mred\x1b[0m", ""]);
}

#[test]
fn tolerates_degenerate_dimensions() {
    // a recording declaring zero (or huge) terminal dimensions must not
    // panic or exhaust memory - the size is clamped to a sane range
    let events = vec![
        Event::output(micros(1), "hi".to_owned()),
        Event::resize(micros(2), (0, 0)),
        Event::output(micros(3), "there".to_owned()),
    ];

    let frames = frames(&header(0, 0), events);

    assert_eq!(frames.len(), 3);
    assert!(frames[1].screen.cols() >= 1 && frames[1].screen.rows() >= 1);
}

#[test]
fn escapes_control_characters() {
    assert_eq!(escape_controls("plain żółć"), "plain żółć");
    assert_eq!(escape_controls("a\x1b]0;x\x07b"), "a\\u{1b}]0;x\\u{7}b");
    assert_eq!(escape_controls("line1\nline2"), "line1\\nline2");
}

#[test]
fn escapes_c1_controls_and_keeps_tabs_readable() {
    assert_eq!(escape_controls("\t\r\u{7f}\u{9f}\u{a0}"), "\\t\\r\\u{7f}\\u{9f}\u{a0}");
    assert_eq!(escape_controls("\u{0}"), "\\u{0}");
}

#[test]
fn frame_times_never_go_back() {
    let events = vec![
        Event::output(5, "a".to_owned()),
        Event::output(3, "b".to_owned()),
        Event::exit(1, 0),
        Event::output(9, "c".to_owned()),
    ];

    let frames = frames(&header(10, 2), events);

    assert_eq!(frames.len(), 3);
    assert_eq!((frames[1].time, frames[1].delta_time), (5, 0));
    assert_eq!((frames[2].time, frames[2].delta_time), (9, 4));
}

#[test]
fn frame_events_and_clamping() {
    assert!(is_frame_event(&EventData::Output("x".to_owned())));
    assert!(is_frame_event(&EventData::Resize(1, 1)));
    assert!(is_frame_event(&EventData::Marker(String::new())));
    assert!(!is_frame_event(&EventData::Input("x".to_owned())));
    assert!(!is_frame_event(&EventData::Exit(0)));
    assert!(!is_frame_event(&EventData::Other('q', String::new())));

    assert_eq!(clamp_size(0, 5000), (1, 2048));
    assert_eq!(clamp_size(80, 24), (80, 24));
    assert_eq!(FrameKind::Resize(1, 2).type_str(), "resize");
    assert_eq!(FrameKind::Output.type_str(), "output");
    assert_eq!(FrameKind::Marker("m".to_owned()).type_str(), "marker");
}

#[test]
fn escaped_text_has_no_control_characters() {
    let mut all = String::new();
    for c in (0u32..0xa0).filter_map(char::from_u32) {
        all.push(c);
    }
    let escaped = escape_controls(&all);
    assert!(escaped.chars().all(|c| !c.is_control()));
    assert!(escaped.contains("\\u{1b}"));
}

#[test]
fn read_errors_pass_through_in_place() {
    let items: Vec<Result<Event, String>> = vec![
        Ok(Event::output(micros(500_000), "a".to_owned())),
        Err("bad line 2".to_owned()),
        Ok(Event::input(micros(600_000), "x".to_owned())),
        Ok(Event::marker(micros(700_000), "m".to_owned())),
        Err("bad line 5".to_owned()),
    ];
    let results = frames::frame_results(&header(10, 2), items);

    assert_eq!(results.len(), 4);
    assert!(matches!(&results[0], Ok(f) if f.number == 1 && matches!(f.kind, FrameKind::Output)));
    assert!(matches!(&results[1], Err(e) if e == "bad line 2"));
    assert!(matches!(&results[2], Ok(f) if f.number == 2 && f.time == 700_000));
    assert!(matches!(&results[3], Err(e) if e == "bad line 5"));
}

use asciinema::asciicast::{Event, Header};
use asciinema::encoder::txt::TextEncoder;
use asciinema::output::txt::{text_bytes, Txt};
use asciinema::tty::TtySize;

fn encode_output(events: &[&str]) -> Vec<u8> {
    let mut enc = TextEncoder::new();
    let mut output = Vec::new();
    let header = Header {
        term_cols: 80,
        term_rows: 24,
        ..Default::default()
    };

    assert!(enc.header(&header).is_empty());

    for (i, event) in events.iter().enumerate() {
        output.extend(enc.event(Event::output(i as u64, (*event).to_owned())));
    }

    output.extend(enc.flush());

    output
}

#[test]
fn txt_encoder() {
    let mut enc = TextEncoder::new();

    let header = Header {
        term_cols: 3,
        term_rows: 1,
        ..Default::default()
    };

    assert!(enc.header(&header).is_empty());

    assert!(enc
        .event(Event::output(0, "he\x1b[1mllo\r\n".to_owned()))
        .is_empty());

    assert!(enc.event(Event::output(1, "world\r\n".to_owned())).is_empty());

    assert_eq!(enc.flush(), "hello\nworld\n".as_bytes());
}

#[test]
fn encoder_preserves_history_across_clear_screen() {
    let output = encode_output(&[
        "before clear\r\n",
        "\x1b[H\x1b[2J\x1b[3J",
        "after clear\r\n",
    ]);

    assert_eq!(output, "before clear\nafter clear\n".as_bytes());
}

#[test]
fn encoder_preserves_history_across_ctrl_l_redraw() {
    let output = encode_output(&[
        "$ echo before clear\r\nbefore clear\r\n",
        "\x1b[H\x1b[2J$ echo after clear\r\nafter clear\r\n",
    ]);

    assert_eq!(
        output,
        "$ echo before clear\nbefore clear\n$ echo after clear\nafter clear\n".as_bytes()
    );
}

#[test]
fn encoder_preserves_history_when_clear_sequence_spans_events() {
    let output = encode_output(&["before clear\r\n", "\x1b[H", "\x1b[2Jafter clear\r\n"]);

    assert_eq!(output, "before clear\nafter clear\n".as_bytes());
}

#[test]
fn encoder_preserves_history_when_clear_sequence_splits_at_csi_prefix() {
    let output = encode_output(&["before clear\r\n", "\x1b[", "2Jafter clear\r\n"]);

    assert_eq!(output, "before clear\nafter clear\n".as_bytes());
}

#[test]
fn encoder_preserves_history_when_clear_sequence_splits_inside_csi_argument() {
    let output = encode_output(&["before clear\r\n", "\x1b[2", "Jafter clear\r\n"]);

    assert_eq!(output, "before clear\nafter clear\n".as_bytes());
}

#[test]
fn encoder_writes_lines_scrolled_past_the_history_limit() {
    let mut enc = TextEncoder::new();
    let header = Header {
        term_cols: 10,
        term_rows: 1,
        ..Default::default()
    };
    enc.header(&header);
    let mut text = String::new();
    for i in 0..150 {
        text.push_str(&format!("l{i}\r\n"));
    }
    let mut output = enc.event(Event::output(0, text));
    assert!(output.starts_with(b"l0\nl1\n"));
    output.extend(enc.flush());
    let lines: Vec<&str> = std::str::from_utf8(&output).unwrap().lines().collect();
    assert_eq!(lines.len(), 150);
    assert_eq!(lines[149], "l149");
}

#[test]
fn encoder_ignores_input_and_markers() {
    let mut enc = TextEncoder::new();
    let header = Header {
        term_cols: 10,
        term_rows: 2,
        ..Default::default()
    };
    enc.header(&header);
    assert!(enc.event(Event::input(0, "typed".to_owned())).is_empty());
    assert!(enc.event(Event::marker(1, "m".to_owned())).is_empty());
    assert!(enc.event(Event::output(2, "shown\r\n".to_owned())).is_empty());
    assert_eq!(enc.flush(), b"shown\n");
}

#[test]
fn text_lines_to_bytes_appends_newlines() {
    let lines = vec!["a".to_owned(), "".to_owned(), "é".to_owned()];
    assert_eq!(
        lines_as_bytes(&lines),
        "a\n\né\n".as_bytes()
    );
}

fn lines_as_bytes(lines: &Vec<String>) -> Vec<u8> {
    asciinema::encoder::txt::text_lines_to_bytes(lines)
}

#[test]
fn encoder_output_does_not_depend_on_event_boundaries() {
    let text = "one\r\n\x1b[H\x1b[2Jtwo\r\nthree\x1b[2Jfour\r\n";
    let whole = encode_output(&[text]);
    assert_eq!(whole, "one\ntwo\nthree\nfour\n".as_bytes());
    for split in 0..=text.len() {
        let out = encode_output(&[&text[..split], &text[split..]]);
        assert_eq!(out, whole, "split at {split}");
    }
}

#[test]
fn x() {
    let mut txt = Txt::new();

    txt.start(TtySize(3, 1));
    txt.output(b"he\x1b[1mllo\r\n");
    txt.output(b"world\r\n");
    let output = txt.finish();

    assert_eq!(output, b"hello\nworld\n");
}

#[test]
fn txt_output_ignores_input_and_resizes_the_terminal() {
    let mut txt = Txt::new();
    txt.start(TtySize(5, 2));
    txt.input(b"secret");
    txt.resize((10, 2));
    txt.output(b"0123456789");
    txt.marker();
    assert_eq!(txt.finish(), b"0123456789\n");
}

#[test]
fn text_bytes_drops_trailing_empty_lines() {
    let lines = vec!["a".to_owned(), "".to_owned(), "b".to_owned(), "".to_owned(), "".to_owned()];
    assert_eq!(text_bytes(lines), b"a\n\nb\n");
    assert_eq!(text_bytes(vec!["".to_owned()]), b"");
}

use asciinema::asciicast::v2;
use asciinema::asciicast::v2::V2Encoder;
use asciinema::asciicast::{env_var, get_duration, set_env_vars, Event, EventData, Header, Version};
use asciinema::encoder::asciicast::AsciicastV2Encoder;
use asciinema::encoder::raw::RawEncoder;
use asciinema::tty::{TtyTheme, RGB8};

fn parse(json: Vec<u8>) -> Vec<serde_json::Value> {
    String::from_utf8(json)
        .unwrap()
        .split('\n')
        .filter(|s| !s.is_empty())
        .map(serde_json::from_str::<serde_json::Value>)
        .collect::<serde_json::Result<Vec<_>>>()
        .unwrap()
}

#[test]
fn asciicast_encoder() {
    let mut data = Vec::new();
    let header = Header::default();
    let mut enc = V2Encoder::new(0);
    data.extend(enc.header(&header));
    data.extend(enc.event(&Event::output(1000000, "hello\r\n".to_owned())));

    let mut enc = V2Encoder::new(1000001);
    data.extend(enc.event(&Event::output(1000001, "world".to_owned())));
    data.extend(enc.event(&Event::input(2000002, " ".to_owned())));
    data.extend(enc.event(&Event::resize(3000003, (100, 40))));
    data.extend(enc.event(&Event::output(4000004, "żółć".to_owned())));

    let lines = parse(data);

    assert_eq!(lines[0]["version"], 2);
    assert_eq!(lines[0]["width"], 80);
    assert_eq!(lines[0]["height"], 24);
    assert!(lines[0]["timestamp"].is_null());
    assert_eq!(lines[1][0], 1.000000);
    assert_eq!(lines[1][1], "o");
    assert_eq!(lines[1][2], "hello\r\n");
    assert_eq!(lines[2][0], 2.000002);
    assert_eq!(lines[2][1], "o");
    assert_eq!(lines[2][2], "world");
    assert_eq!(lines[3][0], 3.000003);
    assert_eq!(lines[3][1], "i");
    assert_eq!(lines[3][2], " ");
    assert_eq!(lines[4][0], 4.000004);
    assert_eq!(lines[4][1], "r");
    assert_eq!(lines[4][2], "100x40");
    assert_eq!(lines[5][0], 5.000005);
    assert_eq!(lines[5][1], "o");
    assert_eq!(lines[5][2], "żółć");
}

#[test]
fn header_encoding() {
    let mut enc = V2Encoder::new(0);
    let env = vec![
        ("SHELL".to_owned(), "/usr/bin/fish".to_owned()),
        ("TERM".to_owned(), "xterm256-color".to_owned()),
    ];

    let tty_theme = TtyTheme {
        fg: RGB8::new(0, 1, 2),
        bg: RGB8::new(0, 100, 200),
        palette: vec![
            RGB8::new(0, 0, 0),
            RGB8::new(10, 11, 12),
            RGB8::new(20, 21, 22),
            RGB8::new(30, 31, 32),
            RGB8::new(40, 41, 42),
            RGB8::new(50, 51, 52),
            RGB8::new(60, 61, 62),
            RGB8::new(70, 71, 72),
            RGB8::new(80, 81, 82),
            RGB8::new(90, 91, 92),
            RGB8::new(100, 101, 102),
            RGB8::new(110, 111, 112),
            RGB8::new(120, 121, 122),
            RGB8::new(130, 131, 132),
            RGB8::new(140, 141, 142),
            RGB8::new(150, 151, 152),
        ],
    };

    let header = Header {
        timestamp: Some(1704719152),
        idle_time_limit: Some(1_500_000),
        command: Some("/bin/bash".to_owned()),
        title: Some("Demo".to_owned()),
        env: Some(env),
        term_theme: Some(tty_theme),
        ..Default::default()
    };

    let data = enc.header(&header);
    let lines = parse(data);

    assert_eq!(lines[0]["version"], 2);
    assert_eq!(lines[0]["width"], 80);
    assert_eq!(lines[0]["height"], 24);
    assert_eq!(lines[0]["timestamp"], 1704719152);
    assert_eq!(lines[0]["idle_time_limit"], 1.5);
    assert_eq!(lines[0]["command"], "/bin/bash");
    assert_eq!(lines[0]["title"], "Demo");
    assert_eq!(lines[0]["env"].as_object().unwrap().len(), 2);
    assert_eq!(lines[0]["env"]["SHELL"], "/usr/bin/fish");
    assert_eq!(lines[0]["env"]["TERM"], "xterm256-color");
    assert_eq!(lines[0]["theme"]["fg"], "#000102");
    assert_eq!(lines[0]["theme"]["bg"], "#0064c8");
    assert_eq!(lines[0]["theme"]["palette"], "#000000:#0a0b0c:#141516:#1e1f20:#28292a:#323334:#3c3d3e:#464748:#505152:#5a5b5c:#646566:#6e6f70:#78797a:#828384:#8c8d8e:#969798");
}

#[test]
fn header_line_is_compact_json() {
    let mut enc = V2Encoder::new(0);
    let header = Header {
        term_cols: 100,
        term_rows: 50,
        title: Some("a \"quoted\"\ttitle".to_owned()),
        env: Some(Vec::new()),
        ..Default::default()
    };

    assert_eq!(
        String::from_utf8(enc.header(&header)).unwrap(),
        "{\"version\":2,\"width\":100,\"height\":50,\"title\":\"a \\\"quoted\\\"\\ttitle\"}\n"
    );
}

#[test]
fn event_lines_escape_and_format_codes() {
    let mut enc = V2Encoder::new(0);

    assert_eq!(
        String::from_utf8(enc.event(&Event::output(12300000, "a\u{1}b".to_owned()))).unwrap(),
        "[12.3, \"o\", \"a\\u0001b\"]\n"
    );
    assert_eq!(
        String::from_utf8(enc.event(&Event::marker(1, "chapter".to_owned()))).unwrap(),
        "[0.000001, \"m\", \"chapter\"]\n"
    );
    assert_eq!(
        String::from_utf8(enc.event(&Event::exit(2000000, -1))).unwrap(),
        "[2.0, \"x\", \"-1\"]\n"
    );
    assert_eq!(
        String::from_utf8(enc.event(&Event {
            time: 0,
            data: EventData::Other('z', "q".to_owned())
        }))
        .unwrap(),
        "[0.0, \"z\", \"q\"]\n"
    );
}

#[test]
fn format_time() {
    assert_eq!(v2::format_time(0), "0.0");
    assert_eq!(v2::format_time(1000001), "1.000001");
    assert_eq!(v2::format_time(12300000), "12.3");
    assert_eq!(v2::format_time(12000003), "12.000003");
}

#[test]
fn raw_encoder() {
    let mut enc = RawEncoder::new();

    let header = Header {
        term_cols: 100,
        term_rows: 50,
        ..Default::default()
    };

    assert_eq!(enc.header(&header), "\x1b[8;50;100t".as_bytes());

    assert_eq!(
        enc.event(Event::output(0, "he\x1b[1mllo\r\n".to_owned())),
        "he\x1b[1mllo\r\n".as_bytes()
    );

    assert_eq!(
        enc.event(Event::output(1, "world\r\n".to_owned())),
        "world\r\n".as_bytes()
    );

    assert!(enc.event(Event::input(2, ".".to_owned())).is_empty());
    assert!(enc.event(Event::resize(3, (80, 24))).is_empty());
    assert!(enc.event(Event::marker(4, ".".to_owned())).is_empty());
    assert!(enc.flush().is_empty());
}

#[test]
fn append_mode_writes_resize_instead_of_header() {
    let header = Header {
        term_cols: 120,
        term_rows: 40,
        ..Default::default()
    };

    let mut enc = AsciicastV2Encoder::new(true, 5_000_000);
    assert_eq!(
        String::from_utf8(enc.header(&header)).unwrap(),
        "[5.0, \"r\", \"120x40\"]\n"
    );
    assert_eq!(
        String::from_utf8(enc.event(Event::output(250_000, "x".to_owned()))).unwrap(),
        "[5.25, \"o\", \"x\"]\n"
    );
    assert!(enc.flush().is_empty());

    let mut enc = AsciicastV2Encoder::new(false, 0);
    assert_eq!(
        String::from_utf8(enc.header(&header)).unwrap(),
        "{\"version\":2,\"width\":120,\"height\":40}\n"
    );
}

fn outputs(events: &[Event]) -> Vec<(u64, String)> {
    events
        .iter()
        .filter_map(|e| match &e.data {
            EventData::Output(data) => Some((e.time, data.clone())),
            _ => None,
        })
        .collect()
}

#[test]
fn limit_idle_time() {
    let events = [
        (0, "foo"),
        (1_000_000, "bar"),
        (3_500_000, "baz"),
        (4_000_000, "qux"),
        (7_500_000, "quux"),
    ]
    .map(|(time, output)| Event::output(time, output.to_owned()));

    let events = outputs(&asciinema::asciicast::limit_idle_time(events.into_iter().collect(), 2_000_000));

    assert_eq!(events[0], (0, "foo".to_owned()));
    assert_eq!(events[1], (1_000_000, "bar".to_owned()));
    assert_eq!(events[2], (3_000_000, "baz".to_owned()));
    assert_eq!(events[3], (3_500_000, "qux".to_owned()));
    assert_eq!(events[4], (5_500_000, "quux".to_owned()));
}

#[test]
fn duration_is_time_of_last_event() {
    assert_eq!(get_duration(&Vec::new()), 0);
    assert_eq!(
        get_duration(&vec![Event::output(5, "a".to_owned()), Event::exit(42, 0)]),
        42
    );
}

#[test]
fn version_numbers() {
    assert!(Version::Two.eq_u8(2));
    assert!(!Version::Two.eq_u8(3));
    assert_eq!(Version::Three.to_string(), "3");
}

#[test]
fn env_variables_by_name() {
    let env = vec![
        ("SHELL".to_owned(), "/bin/zsh".to_owned()),
        ("TERM".to_owned(), "xterm-256color".to_owned()),
    ];
    assert_eq!(env_var(&env, "TERM"), Some("xterm-256color".to_owned()));
    assert_eq!(env_var(&env, "SHELL"), Some("/bin/zsh".to_owned()));
    assert_eq!(env_var(&env, "term"), None);
    assert_eq!(env_var(&Vec::new(), "TERM"), None);
}

#[test]
fn unset_v1_env_variables_are_dropped() {
    let vars = vec![
        ("SHELL".to_owned(), Some("/bin/sh".to_owned())),
        ("TERM".to_owned(), None),
        ("LANG".to_owned(), Some("C".to_owned())),
    ];
    let env = set_env_vars(&vars);
    assert_eq!(
        env,
        vec![
            ("SHELL".to_owned(), "/bin/sh".to_owned()),
            ("LANG".to_owned(), "C".to_owned())
        ]
    );
    assert_eq!(env_var(&env, "TERM"), None);
}

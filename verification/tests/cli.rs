use asciinema::cli::{parse_frame_spec, parse_window_size};

#[test]
fn frame_spec() {
    assert_eq!(parse_frame_spec("1").unwrap().0, vec![(1, 1)]);
    assert_eq!(parse_frame_spec("4-7").unwrap().0, vec![(4, 7)]);

    assert_eq!(
        parse_frame_spec("1,4-7,9").unwrap().0,
        vec![(1, 1), (4, 7), (9, 9)]
    );

    assert!(parse_frame_spec("").is_err());
    assert!(parse_frame_spec("0").is_err());
    assert!(parse_frame_spec("7-4").is_err());
    assert!(parse_frame_spec("1,x").is_err());
    assert!(parse_frame_spec("1-2-3").is_err());
}

#[test]
fn frame_spec_errors_and_whitespace() {
    assert_eq!(parse_frame_spec(" 2 - 3 , +4").unwrap().0, vec![(2, 3), (4, 4)]);
    assert_eq!(parse_frame_spec("0").unwrap_err(), "frame numbers start at 1");
    assert_eq!(parse_frame_spec("7-4").unwrap_err(), "invalid frame range: 7-4");
    assert_eq!(parse_frame_spec("1, x ").unwrap_err(), "invalid frame number: x");
    assert_eq!(parse_frame_spec("").unwrap_err(), "invalid frame number: ");
}

#[test]
fn window_size() {
    assert_eq!(parse_window_size("80x24"), Ok((Some(80), Some(24))));
    assert_eq!(parse_window_size("80x"), Ok((Some(80), None)));
    assert_eq!(parse_window_size("x24"), Ok((None, Some(24))));
    assert_eq!(parse_window_size("80"), Err("80".to_owned()));
    assert_eq!(
        parse_window_size("x"),
        Err("cannot parse integer from empty string".to_owned())
    );
    assert_eq!(
        parse_window_size("8ax1"),
        Err("invalid digit found in string".to_owned())
    );
    assert_eq!(
        parse_window_size("70000x1"),
        Err("number too large to fit in target type".to_owned())
    );
    assert_eq!(
        parse_window_size("+x1"),
        Err("invalid digit found in string".to_owned())
    );
}

#[test]
fn window_size_matches_std_parse_errors() {
    for s in ["", "+", "-1", "1a", "65536", "99999999999", "+7", "a9999999"] {
        let ours = parse_window_size(&format!("{s}x1"));
        let std = s.parse::<u16>().map_err(|e| e.to_string());
        match std {
            Ok(v) => assert_eq!(ours, Ok((Some(v), Some(1)))),
            Err(e) => {
                if s.is_empty() {
                    // "x1" has no columns: only the rows are parsed
                    assert_eq!(ours, Ok((None, Some(1))));
                } else {
                    assert_eq!(ours, Err(e));
                }
            }
        }
    }
}

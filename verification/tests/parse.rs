use asciinema::asciicast::util::parse_time_text;
use asciinema::asciicast::v1::output_events;
use asciinema::asciicast::v2::{
    deserialize_code, deserialize_palette, event_data, parse_hex_color, V2EventCode,
};
use asciinema::asciicast::EventData;
use asciinema::tty::RGB8;

#[test]
fn event_codes() {
    assert_eq!(deserialize_code("o"), Ok(V2EventCode::Output));
    assert_eq!(deserialize_code("i"), Ok(V2EventCode::Input));
    assert_eq!(deserialize_code("r"), Ok(V2EventCode::Resize));
    assert_eq!(deserialize_code("m"), Ok(V2EventCode::Marker));
    assert_eq!(deserialize_code("x"), Ok(V2EventCode::Other('x')));
    assert_eq!(deserialize_code("ox"), Ok(V2EventCode::Other('o')));
    assert_eq!(deserialize_code(""), Err("missing event code".to_owned()));
}

fn describe(r: Result<EventData, String>) -> String {
    match r {
        Ok(EventData::Output(s)) => format!("o:{s}"),
        Ok(EventData::Input(s)) => format!("i:{s}"),
        Ok(EventData::Resize(c, r)) => format!("r:{c}x{r}"),
        Ok(EventData::Marker(s)) => format!("m:{s}"),
        Ok(EventData::Exit(s)) => format!("x:{s}"),
        Ok(EventData::Other(c, s)) => format!("{c}:{s}"),
        Err(e) => format!("error: {e}"),
    }
}

#[test]
fn event_data_of_each_code() {
    assert_eq!(describe(event_data(V2EventCode::Output, "hi".to_owned())), "o:hi");
    assert_eq!(describe(event_data(V2EventCode::Input, "k".to_owned())), "i:k");
    assert_eq!(describe(event_data(V2EventCode::Marker, "".to_owned())), "m:");
    assert_eq!(describe(event_data(V2EventCode::Other('q'), "z".to_owned())), "q:z");
    assert_eq!(describe(event_data(V2EventCode::Resize, "80x24".to_owned())), "r:80x24");
    assert_eq!(describe(event_data(V2EventCode::Resize, "+80x24".to_owned())), "r:80x24");
}

#[test]
fn resize_errors() {
    assert_eq!(
        describe(event_data(V2EventCode::Resize, "80".to_owned())),
        "error: invalid size value in resize event"
    );
    assert_eq!(
        describe(event_data(V2EventCode::Resize, "ax24".to_owned())),
        "error: invalid cols value in resize event: invalid digit found in string"
    );
    assert_eq!(
        describe(event_data(V2EventCode::Resize, "80x".to_owned())),
        "error: invalid rows value in resize event: cannot parse integer from empty string"
    );
    assert_eq!(
        describe(event_data(V2EventCode::Resize, "80x70000".to_owned())),
        "error: invalid rows value in resize event: number too large to fit in target type"
    );
    assert_eq!(
        describe(event_data(V2EventCode::Resize, "80x24x1".to_owned())),
        "error: invalid rows value in resize event: invalid digit found in string"
    );
}

#[test]
fn hex_colors() {
    assert_eq!(parse_hex_color("#ff0080"), Some(RGB8::new(255, 0, 128)));
    assert_eq!(parse_hex_color("#FFa0B0"), Some(RGB8::new(255, 160, 176)));
    assert_eq!(parse_hex_color("x010203"), Some(RGB8::new(1, 2, 3)));
    assert_eq!(parse_hex_color("#+f+f+f"), Some(RGB8::new(15, 15, 15)));
    assert_eq!(parse_hex_color("#ff008"), None);
    assert_eq!(parse_hex_color("#ff00800"), None);
    assert_eq!(parse_hex_color("#gg0000"), None);
    assert_eq!(parse_hex_color("#-f0000"), None);
}

#[test]
fn palettes() {
    let eight = "#000000:#111111:#222222:#333333:#444444:#555555:#666666:#777777";
    let p = deserialize_palette(eight).unwrap();
    assert_eq!(p.len(), 16);
    assert_eq!(p[0], RGB8::new(0, 0, 0));
    assert_eq!(p[7], RGB8::new(0x77, 0x77, 0x77));
    assert_eq!(p[8], RGB8::new(0, 0, 0));
    assert_eq!(p[15], RGB8::new(0x77, 0x77, 0x77));

    let sixteen = format!("{eight}:{eight}");
    assert_eq!(deserialize_palette(&sixteen).unwrap().len(), 16);

    let with_junk = format!("{eight}:junk");
    assert_eq!(deserialize_palette(&with_junk).unwrap().len(), 16);

    assert_eq!(
        deserialize_palette("#000000:#111111"),
        Err("expected 8 or 16 hex triplets".to_owned())
    );
}

#[test]
fn time_texts() {
    assert_eq!(parse_time_text("1.5"), Ok(1_500_000));
    assert_eq!(parse_time_text("0.000001"), Ok(1));
    assert_eq!(parse_time_text("12.3456789"), Ok(12_345_678));
    assert_eq!(parse_time_text("0.0000001"), Ok(0));
    assert_eq!(parse_time_text("1"), Err("invalid time format".to_owned()));
    assert_eq!(parse_time_text("1.2.3"), Err("invalid time format".to_owned()));
    assert_eq!(
        parse_time_text("a.1"),
        Err("invalid digit found in string".to_owned())
    );
    assert_eq!(
        parse_time_text(".5"),
        Err("cannot parse integer from empty string".to_owned())
    );
}

#[test]
fn v1_times_accumulate() {
    let events = output_events(vec![
        (500_000, "a".to_owned()),
        (250_000, "b".to_owned()),
        (0, "c".to_owned()),
    ]);
    let times: Vec<u64> = events.iter().map(|e| e.time).collect();
    assert_eq!(times, vec![500_000, 750_000, 750_000]);
    assert!(matches!(&events[2].data, EventData::Output(s) if s == "c"));
}

#[test]
fn written_times_read_back() {
    for t in [0u64, 1, 999_999, 1_000_000, 12_300_000, 12_000_003, 4_000_000_000_123] {
        let text = asciinema::asciicast::v2::format_time(t);
        assert_eq!(parse_time_text(&text), Ok(t));
    }
}

use asciinema::asciicast::util::parse_time_text;
use asciinema::asciicast::v2::{deserialize_code, event_data, V2Encoder};
use asciinema::asciicast::{Event, EventData};

fn read_back(line: &[u8]) -> (u64, EventData) {
    let value: serde_json::Value = serde_json::from_slice(line).unwrap();
    let time = parse_time_text(&value[0].to_string()).unwrap();
    let code = deserialize_code(value[1].as_str().unwrap()).unwrap();
    let data = event_data(code, value[2].as_str().unwrap().to_owned()).unwrap();

    (time, data)
}

#[test]
fn written_events_read_back() {
    let mut enc = V2Encoder::new(0);

    let events = vec![
        Event::output(1_000_000, "hello\r\n\u{1b}[1m\"quoted\"\\".to_owned()),
        Event::input(2_500_000, "żółć".to_owned()),
        Event::resize(3_000_001, (100, 40)),
        Event::marker(4_000_000, "chapter 1".to_owned()),
    ];

    for e in events {
        let line = enc.event(&e);
        let (time, data) = read_back(&line);
        assert_eq!(time, e.time);

        match (data, e.data) {
            (EventData::Output(a), EventData::Output(b)) => assert_eq!(a, b),
            (EventData::Input(a), EventData::Input(b)) => assert_eq!(a, b),
            (EventData::Resize(c1, r1), EventData::Resize(c2, r2)) => assert_eq!((c1, r1), (c2, r2)),
            (EventData::Marker(a), EventData::Marker(b)) => assert_eq!(a, b),
            _ => panic!("a different kind of event was read back"),
        }
    }
}

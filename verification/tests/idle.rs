use asciinema::asciicast::{limit_idle_time, Event};

#[test]
fn limit_idle_time_caps_every_pause() {
    let events = vec![
        Event::output(3_000_000, "a".to_owned()),
        Event::output(3_500_000, "b".to_owned()),
        Event::output(10_000_000, "c".to_owned()),
        Event::output(10_000_001, "d".to_owned()),
    ];
    let times: Vec<u64> = limit_idle_time(events, 2_000_000)
        .iter()
        .map(|e| e.time)
        .collect();
    assert_eq!(times, vec![2_000_000, 2_500_000, 4_500_000, 4_500_001]);
}

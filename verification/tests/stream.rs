use asciinema::session;
use asciinema::stream::{Event, StreamState};
use asciinema::tty::TtySize;

#[test]
fn stream_numbers_events_and_follows_the_terminal() {
    let mut s = StreamState::new(TtySize(10, 3));

    match s.init_event(500, None) {
        Event::Init(id, time, size, theme, text) => {
            assert_eq!((id, time, size), (0, 0, TtySize(10, 3)));
            assert!(theme.is_none());
            assert_eq!(text, "");
        }
        _ => panic!("not an init event"),
    }

    match s.on_session_event(session::Event::Output(1_000, "hello".to_owned())) {
        Event::Output(id, time, text) => assert_eq!((id, time, text.as_str()), (1, 1_000, "hello")),
        _ => panic!("not an output event"),
    }

    match s.on_session_event(session::Event::Resize(2_000, TtySize(20, 0))) {
        Event::Resize(id, time, size) => assert_eq!((id, time, size), (2, 2_000, TtySize(20, 0))),
        _ => panic!("not a resize event"),
    }

    match s.init_event(500, None) {
        Event::Init(id, time, size, _, text) => {
            assert_eq!((id, time, size), (2, 2_500, TtySize(20, 1)));
            assert!(text.contains("hello"));
        }
        _ => panic!("not an init event"),
    }
}

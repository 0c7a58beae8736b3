use asciinema::asciicast::Event;
use asciinema::player::vt::{PlayerVt, Shown};
use asciinema::player::SeekPlan;

fn recording() -> Vec<Event> {
    vec![
        Event::output(0, "hello\r\n".to_owned()),
        Event::input(10, "x".to_owned()),
        Event::resize(20, (20, 5)),
        Event::output(30, "world".to_owned()),
        Event::marker(40, "m".to_owned()),
    ]
}

#[test]
fn vt_apply_reports_what_to_show() {
    let events = recording();
    let mut vt = PlayerVt::new(10, 4, true);

    assert_eq!(vt.apply(&events[0]), Shown::Output);
    assert_eq!(vt.apply(&events[1]), Shown::Nothing);
    assert_eq!(vt.size(), (10, 4));
    assert_eq!(vt.apply(&events[2]), Shown::Resize(20, 5));
    assert_eq!(vt.size(), (20, 5));
    assert_eq!(vt.apply(&events[4]), Shown::Nothing);
}

#[test]
fn vt_ignores_resizes_unless_following_them() {
    let events = recording();
    let mut vt = PlayerVt::new(10, 4, false);

    assert_eq!(vt.apply(&events[2]), Shown::Nothing);
    assert_eq!(vt.size(), (10, 4));

    let redraw = vt.seek(&events, SeekPlan::Forward(3, 4)).unwrap();
    assert_eq!(redraw.size, None);
}

#[test]
fn vt_resize_to_zero_keeps_one() {
    let events = vec![Event::resize(0, (0, 0))];
    let mut vt = PlayerVt::new(10, 4, true);

    assert_eq!(vt.apply(&events[0]), Shown::Resize(0, 0));
    assert_eq!(vt.size(), (1, 1));
}

#[test]
fn vt_seek_unchanged_does_nothing() {
    let events = recording();
    let mut vt = PlayerVt::new(10, 4, true);

    assert!(vt.seek(&events, SeekPlan::Unchanged).is_none());
    assert_eq!(vt.size(), (10, 4));
}

#[test]
fn vt_seek_redraws_after_reset() {
    let events = recording();
    let mut vt = PlayerVt::new(10, 4, true);

    let redraw = vt.seek(&events, SeekPlan::Forward(0, 4)).unwrap();

    assert!(redraw.text.starts_with("\x1bc"));
    assert!(redraw.text.contains("hello"));
    assert!(redraw.text.contains("world"));
    assert_eq!(redraw.size, Some((20, 5)));
}

#[test]
fn vt_rebuild_shows_what_playing_shows() {
    let events = recording();

    let mut played = PlayerVt::new(10, 4, true);
    played.apply(&events[0]);
    played.apply(&events[1]);
    let expected = played.seek(&events, SeekPlan::Forward(2, 2)).unwrap();

    let mut sought = PlayerVt::new(10, 4, true);
    sought.seek(&events, SeekPlan::Forward(0, 4)).unwrap();
    let redraw = sought.seek(&events, SeekPlan::Rebuild(2)).unwrap();

    assert_eq!(redraw.text, expected.text);
    assert_eq!(redraw.size, Some((10, 4)));
    assert!(!redraw.text.contains("world"));
}

use asciinema::asciicast::{Event, EventData};
use asciinema::player::{
    event_due, event_index_at, is_known_escape_key, is_known_escape_key_prefix, key_action,
    offset_position, paused_key, playing_key, position_after_event, seek_plan, Action, Effect,
    KeyBindings, SeekPlan, SEEK_EXACT, SEEK_LONG, SEEK_MEDIUM, SEEK_SHORT,
};

const SEC: u64 = 1_000_000;

#[test]
fn key_action_matches_mpv_seek_keys() {
    let keys = KeyBindings::default();

    assert_eq!(
        key_action(b"\x1b[D", &keys),
        Some(Action::SeekRelative(-SEEK_SHORT))
    );
    assert_eq!(
        key_action(b"\x1b[C", &keys),
        Some(Action::SeekRelative(SEEK_SHORT))
    );
    assert_eq!(
        key_action(b"\x1b[A", &keys),
        Some(Action::SeekRelative(SEEK_MEDIUM))
    );
    assert_eq!(
        key_action(b"\x1b[B", &keys),
        Some(Action::SeekRelative(-SEEK_MEDIUM))
    );
    assert_eq!(
        key_action(b"\x1b[1;2D", &keys),
        Some(Action::SeekRelative(-SEEK_EXACT))
    );
    assert_eq!(
        key_action(b"\x1b[1;2C", &keys),
        Some(Action::SeekRelative(SEEK_EXACT))
    );
    assert_eq!(
        key_action(b"\x1b[1;2A", &keys),
        Some(Action::SeekRelative(SEEK_SHORT))
    );
    assert_eq!(
        key_action(b"\x1b[1;2B", &keys),
        Some(Action::SeekRelative(-SEEK_SHORT))
    );
    assert_eq!(
        key_action(b"\x1b[5;2~", &keys),
        Some(Action::SeekRelative(-SEEK_LONG))
    );
    assert_eq!(
        key_action(b"\x1b[6;2~", &keys),
        Some(Action::SeekRelative(SEEK_LONG))
    );
    assert_eq!(key_action(b"\x1b[H", &keys), Some(Action::SeekStart));
}

#[test]
fn key_action_matches_step_back_key() {
    let keys = KeyBindings::default();

    assert_eq!(key_action(b".", &keys), Some(Action::StepForward));
    assert_eq!(key_action(b",", &keys), Some(Action::StepBackward));
}

#[test]
fn configured_keys_come_first() {
    let mut keys = KeyBindings::default();
    assert_eq!(key_action(b"\x03", &keys), Some(Action::Quit));
    assert_eq!(key_action(b" ", &keys), Some(Action::TogglePause));
    assert_eq!(key_action(b"]", &keys), Some(Action::NextMarker));
    assert_eq!(key_action(b"x", &keys), None);

    keys.pause = Some(b"\x1b[H".to_vec());
    keys.quit = None;
    assert_eq!(key_action(b"\x1b[H", &keys), Some(Action::TogglePause));
    assert_eq!(key_action(b"\x03", &keys), None);
}

#[test]
fn complete_known_escape_keys_do_not_need_more_input() {
    assert!(is_known_escape_key(b"\x1b[D"));
    assert!(is_known_escape_key(b"\x1b[1;2D"));
    assert!(is_known_escape_key_prefix(b"\x1b["));
    assert!(!is_known_escape_key_prefix(b"\x1b[D"));
    assert!(!is_known_escape_key_prefix(b"\x1b[999~"));
}

#[test]
fn offset_position_saturates_to_recording_bounds() {
    let duration = 20 * SEC;

    assert_eq!(offset_position(10 * SEC, 5_000_000, duration), 15 * SEC);
    assert_eq!(offset_position(18 * SEC, 5_000_000, duration), duration);
    assert_eq!(offset_position(3 * SEC, -5_000_000, duration), 0);
    assert_eq!(offset_position(u64::MAX, i64::MAX, u64::MAX), u64::MAX);
    assert_eq!(offset_position(5, i64::MIN, 10), 0);
}

fn events_at(times: &[u64]) -> Vec<Event> {
    times
        .iter()
        .map(|time| Event {
            time: *time * SEC,
            data: EventData::Marker(String::new()),
        })
        .collect()
}

#[test]
fn event_indexes_include_events_at_requested_position() {
    let events = events_at(&[1, 2, 2, 4]);

    assert_eq!(event_index_at(&events, 0), 0);
    assert_eq!(event_index_at(&events, SEC), 1);
    assert_eq!(event_index_at(&events, 2 * SEC), 3);
    assert_eq!(event_index_at(&events, 3 * SEC), 3);
}

#[test]
fn position_after_event_returns_last_rendered_event_time() {
    let events = events_at(&[1, 2, 4]);

    assert_eq!(position_after_event(&events, 0), 0);
    assert_eq!(position_after_event(&events, 1), SEC);
    assert_eq!(position_after_event(&events, 3), 4 * SEC);
}

fn recording() -> Vec<Event> {
    vec![
        Event::output(SEC, "a".to_owned()),
        Event::output(2 * SEC, "b".to_owned()),
        Event::marker(3 * SEC, "m".to_owned()),
        Event::output(4 * SEC, "c".to_owned()),
    ]
}

#[test]
fn paused_steps_and_markers() {
    let events = recording();

    let step = paused_key(&events, 4 * SEC, 0, 0, Some(Action::StepForward));
    assert_eq!(step.state.next_event_idx, 1);
    assert_eq!(step.state.paused_at, Some(SEC));
    assert_eq!(step.effects, vec![Effect::Apply(0)]);

    let step = paused_key(&events, 4 * SEC, 1, SEC, Some(Action::StepBackward));
    assert_eq!(step.state.next_event_idx, 0);
    assert_eq!(step.state.paused_at, Some(0));
    assert_eq!(step.effects, vec![Effect::Seek(SeekPlan::Rebuild(0))]);

    let step = paused_key(&events, 4 * SEC, 0, 0, Some(Action::NextMarker));
    assert_eq!(step.state.next_event_idx, 3);
    assert_eq!(step.state.paused_at, Some(3 * SEC));
    assert_eq!(step.effects, vec![Effect::Apply(0), Effect::Apply(1)]);

    let step = paused_key(&events, 4 * SEC, 3, 3 * SEC, Some(Action::NextMarker));
    assert_eq!(step.state.next_event_idx, 4);
    assert_eq!(step.state.paused_at, Some(4 * SEC));
    assert_eq!(step.effects, vec![Effect::Apply(3)]);

    let step = paused_key(&events, 4 * SEC, 2, 2 * SEC, Some(Action::TogglePause));
    assert_eq!(step.state.paused_at, None);
    assert_eq!(step.effects, vec![Effect::SetElapsed(2 * SEC)]);

    let step = paused_key(&events, 4 * SEC, 1, SEC, Some(Action::SeekRelative(SEEK_SHORT)));
    assert_eq!(step.state.next_event_idx, 4);
    assert_eq!(step.state.paused_at, Some(4 * SEC));
    assert_eq!(step.effects, vec![Effect::Seek(SeekPlan::Forward(1, 4))]);

    let step = paused_key(&events, 4 * SEC, 4, 4 * SEC, Some(Action::Quit));
    assert_eq!(step.effects, vec![Effect::Quit]);
}

#[test]
fn keys_during_playback() {
    let events = recording();

    let step = playing_key(&events, 4 * SEC, 2, 2_500_000, Some(Action::StepForward));
    assert_eq!(step.state.paused_at, Some(2_500_000));
    assert!(step.effects.is_empty());

    let step = playing_key(&events, 4 * SEC, 2, 9 * SEC, Some(Action::TogglePause));
    assert_eq!(step.state.paused_at, Some(4 * SEC));

    let step = playing_key(&events, 4 * SEC, 3, 3 * SEC, Some(Action::SeekStart));
    assert_eq!(step.state.next_event_idx, 0);
    assert_eq!(
        step.effects,
        vec![Effect::Seek(SeekPlan::Rebuild(0)), Effect::SetElapsed(0)]
    );

    let step = playing_key(&events, 4 * SEC, 3, 3 * SEC, Some(Action::NextMarker));
    assert_eq!(step.state.next_event_idx, 3);
    assert_eq!(step.state.paused_at, None);
    assert!(step.effects.is_empty());
}

#[test]
fn due_events_and_markers() {
    let events = recording();

    let step = event_due(&events, 2, true);
    assert_eq!(step.state.next_event_idx, 3);
    assert_eq!(step.state.paused_at, Some(3 * SEC));
    assert_eq!(step.effects, vec![Effect::Apply(2)]);

    let step = event_due(&events, 2, false);
    assert_eq!(step.state.paused_at, None);
}

#[test]
fn seek_plans() {
    assert_eq!(seek_plan(3, 3), SeekPlan::Unchanged);
    assert_eq!(seek_plan(3, 1), SeekPlan::Rebuild(1));
    assert_eq!(seek_plan(1, 3), SeekPlan::Forward(1, 3));
}

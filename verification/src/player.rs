//! Playback of a recording in the terminal: the key bindings, what each key
//! does, and the decisions of the playback loop. The loop itself (reading
//! keys, waiting, writing to the terminal) runs around these decisions.
use vstd::prelude::*;
use crate::asciicast::{Event, EventData};
use crate::config::Key;

pub mod vt;

verus! {

/// A short seek: 5 seconds, in microseconds.
pub const SEEK_SHORT: i64 = 5000000;
/// An exact seek: 1 second.
pub const SEEK_EXACT: i64 = 1000000;
/// A medium seek: 1 minute.
pub const SEEK_MEDIUM: i64 = 60000000;
/// A long seek: 10 minutes.
pub const SEEK_LONG: i64 = 600000000;

/// The keys that control playback; `None` for a key that is not bound.
pub struct KeyBindings {
    pub quit: Key,
    pub pause: Key,
    pub step: Key,
    pub step_back: Key,
    pub next_marker: Key,
}

impl KeyBindings {
    /// Ctrl-C quits, space pauses, `.` steps, `,` steps back and `]` goes to
    /// the next marker.
    pub fn default() -> (k: Self)
        ensures
            k.quit matches Some(v) && v@ == seq![0x03u8],
            k.pause matches Some(v) && v@ == seq![0x20u8],
            k.step matches Some(v) && v@ == seq![0x2eu8],
            k.step_back matches Some(v) && v@ == seq![0x2cu8],
            k.next_marker matches Some(v) && v@ == seq![0x5du8],
    {
        KeyBindings {
            quit: Some(vec![0x03]),
            pause: Some(vec![0x20]),
            step: Some(vec![0x2e]),
            step_back: Some(vec![0x2c]),
            next_marker: Some(vec![0x5d]),
        }
    }
}

/// What a key does.
#[derive(Debug, Clone, Copy, PartialEq, Eq, Structural)]
pub enum Action {
    Quit,
    TogglePause,
    StepForward,
    StepBackward,
    NextMarker,
    SeekStart,
    /// Seek by this many microseconds, back when negative.
    SeekRelative(i64),
}

/// The groups of escape sequences that navigation keys send.
#[derive(Debug, Clone, Copy, PartialEq, Eq, Structural)]
pub enum KeyGroup {
    Left,
    Right,
    Up,
    Down,
    ShiftLeft,
    ShiftRight,
    ShiftUp,
    ShiftDown,
    Home,
    ShiftPageUp,
    ShiftPageDown,
}

/// The sequences a navigation key sends, in the terminal's normal and
/// application modes and their variants.
pub open spec fn key_table(g: KeyGroup) -> Seq<Seq<u8>> {
    match g {
        KeyGroup::Left => seq![seq![0x1bu8, 0x5b, 0x44], seq![0x1bu8, 0x4f, 0x44]],
        KeyGroup::Right => seq![seq![0x1bu8, 0x5b, 0x43], seq![0x1bu8, 0x4f, 0x43]],
        KeyGroup::Up => seq![seq![0x1bu8, 0x5b, 0x41], seq![0x1bu8, 0x4f, 0x41]],
        KeyGroup::Down => seq![seq![0x1bu8, 0x5b, 0x42], seq![0x1bu8, 0x4f, 0x42]],
        KeyGroup::ShiftLeft => seq![
            seq![0x1bu8, 0x5b, 0x31, 0x3b, 0x32, 0x44],
            seq![0x1bu8, 0x5b, 0x32, 0x44],
        ],
        KeyGroup::ShiftRight => seq![
            seq![0x1bu8, 0x5b, 0x31, 0x3b, 0x32, 0x43],
            seq![0x1bu8, 0x5b, 0x32, 0x43],
        ],
        KeyGroup::ShiftUp => seq![
            seq![0x1bu8, 0x5b, 0x31, 0x3b, 0x32, 0x41],
            seq![0x1bu8, 0x5b, 0x32, 0x41],
        ],
        KeyGroup::ShiftDown => seq![
            seq![0x1bu8, 0x5b, 0x31, 0x3b, 0x32, 0x42],
            seq![0x1bu8, 0x5b, 0x32, 0x42],
        ],
        KeyGroup::Home => seq![
            seq![0x1bu8, 0x5b, 0x48],
            seq![0x1bu8, 0x4f, 0x48],
            seq![0x1bu8, 0x5b, 0x31, 0x7e],
            seq![0x1bu8, 0x5b, 0x37, 0x7e],
        ],
        KeyGroup::ShiftPageUp => seq![
            seq![0x1bu8, 0x5b, 0x35, 0x3b, 0x32, 0x7e],
            seq![0x1bu8, 0x5b, 0x35, 0x24],
        ],
        KeyGroup::ShiftPageDown => seq![
            seq![0x1bu8, 0x5b, 0x36, 0x3b, 0x32, 0x7e],
            seq![0x1bu8, 0x5b, 0x36, 0x24],
        ],
    }
}

/// The sequences of a group of navigation keys.
pub fn keys_of(g: KeyGroup) -> (v: Vec<Vec<u8>>)
    ensures
        v@.len() == key_table(g).len(),
        forall|i: int| 0 <= i < v@.len() ==> (#[trigger] v@[i])@ == key_table(g)[i],
{
    let v: Vec<Vec<u8>> = match g {
        KeyGroup::Left => vec![vec![0x1bu8, 0x5b, 0x44], vec![0x1bu8, 0x4f, 0x44]],
        KeyGroup::Right => vec![vec![0x1bu8, 0x5b, 0x43], vec![0x1bu8, 0x4f, 0x43]],
        KeyGroup::Up => vec![vec![0x1bu8, 0x5b, 0x41], vec![0x1bu8, 0x4f, 0x41]],
        KeyGroup::Down => vec![vec![0x1bu8, 0x5b, 0x42], vec![0x1bu8, 0x4f, 0x42]],
        KeyGroup::ShiftLeft => vec![
            vec![0x1bu8, 0x5b, 0x31, 0x3b, 0x32, 0x44],
            vec![0x1bu8, 0x5b, 0x32, 0x44],
        ],
        KeyGroup::ShiftRight => vec![
            vec![0x1bu8, 0x5b, 0x31, 0x3b, 0x32, 0x43],
            vec![0x1bu8, 0x5b, 0x32, 0x43],
        ],
        KeyGroup::ShiftUp => vec![
            vec![0x1bu8, 0x5b, 0x31, 0x3b, 0x32, 0x41],
            vec![0x1bu8, 0x5b, 0x32, 0x41],
        ],
        KeyGroup::ShiftDown => vec![
            vec![0x1bu8, 0x5b, 0x31, 0x3b, 0x32, 0x42],
            vec![0x1bu8, 0x5b, 0x32, 0x42],
        ],
        KeyGroup::Home => vec![
            vec![0x1bu8, 0x5b, 0x48],
            vec![0x1bu8, 0x4f, 0x48],
            vec![0x1bu8, 0x5b, 0x31, 0x7e],
            vec![0x1bu8, 0x5b, 0x37, 0x7e],
        ],
        KeyGroup::ShiftPageUp => vec![
            vec![0x1bu8, 0x5b, 0x35, 0x3b, 0x32, 0x7e],
            vec![0x1bu8, 0x5b, 0x35, 0x24],
        ],
        KeyGroup::ShiftPageDown => vec![
            vec![0x1bu8, 0x5b, 0x36, 0x3b, 0x32, 0x7e],
            vec![0x1bu8, 0x5b, 0x36, 0x24],
        ],
    };
    assert forall|i: int| 0 <= i < v@.len() implies (#[trigger] v@[i])@ == key_table(g)[i] by {
        assert(v@[i]@ =~= key_table(g)[i]);
    }
    v
}

/// Whether `key` is one of `keys`.
pub open spec fn spec_matches_any(key: Seq<u8>, keys: Seq<Seq<u8>>) -> bool {
    exists|i: int| 0 <= i < keys.len() && #[trigger] keys[i] == key
}

/// Whether `key` is a proper beginning of one of `keys`.
pub open spec fn spec_has_prefix(key: Seq<u8>, keys: Seq<Seq<u8>>) -> bool {
    exists|i: int|
        0 <= i < keys.len() && (#[trigger] keys[i]).len() > key.len() && keys[i].take(
            key.len() as int,
        ) == key
}

/// Whether two byte strings are equal.
pub fn bytes_eq(a: &[u8], b: &[u8]) -> (r: bool)
    ensures
        r == (a@ == b@),
{
    if a.len() != b.len() {
        return false;
    }
    let mut i: usize = 0;
    while i < a.len()
        invariant
            a@.len() == b@.len(),
            i <= a@.len(),
            forall|k: int| 0 <= k < i ==> a@[k] == b@[k],
        decreases a@.len() - i,
    {
        if a[i] != b[i] {
            return false;
        }
        i = i + 1;
    }
    assert(a@ =~= b@);
    true
}

/// Whether `key` is one of `keys`.
pub fn matches_any(key: &[u8], keys: &Vec<Vec<u8>>) -> (r: bool)
    ensures
        r == spec_matches_any(key@, keys@.map_values(|k: Vec<u8>| k@)),
{
    let ghost ks = keys@.map_values(|k: Vec<u8>| k@);
    let mut i: usize = 0;
    while i < keys.len()
        invariant
            ks == keys@.map_values(|k: Vec<u8>| k@),
            i <= keys@.len(),
            forall|j: int| 0 <= j < i ==> #[trigger] ks[j] != key@,
        decreases keys@.len() - i,
    {
        if bytes_eq(keys[i].as_slice(), key) {
            assert(ks[i as int] == key@);
            return true;
        }
        i = i + 1;
    }
    false
}

/// Whether `key` is a proper beginning of one of `keys`, so that more
/// bytes may complete it.
pub fn has_prefix(key: &[u8], keys: &Vec<Vec<u8>>) -> (r: bool)
    ensures
        r == spec_has_prefix(key@, keys@.map_values(|k: Vec<u8>| k@)),
{
    let ghost ks = keys@.map_values(|k: Vec<u8>| k@);
    let mut i: usize = 0;
    while i < keys.len()
        invariant
            ks == keys@.map_values(|k: Vec<u8>| k@),
            i <= keys@.len(),
            forall|j: int|
                0 <= j < i ==> !((#[trigger] ks[j]).len() > key@.len() && ks[j].take(
                    key@.len() as int,
                ) == key@),
        decreases keys@.len() - i,
    {
        let candidate = &keys[i];
        if candidate.len() > key.len() {
            let head = vstd::slice::slice_subrange(candidate.as_slice(), 0, key.len());
            assert(head@ =~= ks[i as int].take(key@.len() as int));
            if bytes_eq(head, key) {
                return true;
            }
        }
        i = i + 1;
    }
    false
}

/// The groups in the order `key_action` tries them, with their actions.
pub open spec fn group_action(g: KeyGroup) -> Action {
    match g {
        KeyGroup::Home => Action::SeekStart,
        KeyGroup::Left => Action::SeekRelative((-SEEK_SHORT) as i64),
        KeyGroup::Right => Action::SeekRelative(SEEK_SHORT),
        KeyGroup::Up => Action::SeekRelative(SEEK_MEDIUM),
        KeyGroup::Down => Action::SeekRelative((-SEEK_MEDIUM) as i64),
        KeyGroup::ShiftLeft => Action::SeekRelative((-SEEK_EXACT) as i64),
        KeyGroup::ShiftRight => Action::SeekRelative(SEEK_EXACT),
        KeyGroup::ShiftUp => Action::SeekRelative(SEEK_SHORT),
        KeyGroup::ShiftDown => Action::SeekRelative((-SEEK_SHORT) as i64),
        KeyGroup::ShiftPageUp => Action::SeekRelative((-SEEK_LONG) as i64),
        KeyGroup::ShiftPageDown => Action::SeekRelative(SEEK_LONG),
    }
}

/// Whether `key` is one of the sequences of a group.
pub open spec fn in_group(key: Seq<u8>, g: KeyGroup) -> bool {
    spec_matches_any(key, key_table(g))
}

/// Whether a binding is set to exactly `key`.
pub open spec fn bound_to(k: Key, key: Seq<u8>) -> bool {
    k matches Some(v) && v@ == key
}

/// What a key does: the configured keys come first (quit, pause, step,
/// step back, next marker), then the navigation keys: Home seeks to the
/// start; Left and Right seek 5 s; Up and Down 1 min; Shift-Left and
/// Shift-Right 1 s; Shift-Up and Shift-Down 5 s; Shift-PgUp and Shift-PgDn
/// 10 min.
pub open spec fn spec_key_action(key: Seq<u8>, keys: KeyBindings) -> Option<Action> {
    if bound_to(keys.quit, key) {
        Some(Action::Quit)
    } else if bound_to(keys.pause, key) {
        Some(Action::TogglePause)
    } else if bound_to(keys.step, key) {
        Some(Action::StepForward)
    } else if bound_to(keys.step_back, key) {
        Some(Action::StepBackward)
    } else if bound_to(keys.next_marker, key) {
        Some(Action::NextMarker)
    } else if in_group(key, KeyGroup::Home) {
        Some(group_action(KeyGroup::Home))
    } else if in_group(key, KeyGroup::Left) {
        Some(group_action(KeyGroup::Left))
    } else if in_group(key, KeyGroup::Right) {
        Some(group_action(KeyGroup::Right))
    } else if in_group(key, KeyGroup::Up) {
        Some(group_action(KeyGroup::Up))
    } else if in_group(key, KeyGroup::Down) {
        Some(group_action(KeyGroup::Down))
    } else if in_group(key, KeyGroup::ShiftLeft) {
        Some(group_action(KeyGroup::ShiftLeft))
    } else if in_group(key, KeyGroup::ShiftRight) {
        Some(group_action(KeyGroup::ShiftRight))
    } else if in_group(key, KeyGroup::ShiftUp) {
        Some(group_action(KeyGroup::ShiftUp))
    } else if in_group(key, KeyGroup::ShiftDown) {
        Some(group_action(KeyGroup::ShiftDown))
    } else if in_group(key, KeyGroup::ShiftPageUp) {
        Some(group_action(KeyGroup::ShiftPageUp))
    } else if in_group(key, KeyGroup::ShiftPageDown) {
        Some(group_action(KeyGroup::ShiftPageDown))
    } else {
        None
    }
}

/// Whether a binding is set to exactly `key`.
fn is_bound(k: &Key, key: &[u8]) -> (r: bool)
    ensures
        r == bound_to(*k, key@),
{
    match k {
        Some(v) => bytes_eq(v.as_slice(), key),
        None => false,
    }
}

/// Whether `key` is one of the sequences of a group.
pub fn key_in_group(key: &[u8], g: KeyGroup) -> (r: bool)
    ensures
        r == in_group(key@, g),
{
    let table = keys_of(g);
    assert(table@.map_values(|k: Vec<u8>| k@) =~= key_table(g));
    matches_any(key, &table)
}

/// The action of a navigation key, when `key` is one.
fn navigation_action(key: &[u8]) -> (r: Option<Action>)
    ensures
        r == (if in_group(key@, KeyGroup::Home) {
            Some(group_action(KeyGroup::Home))
        } else if in_group(key@, KeyGroup::Left) {
            Some(group_action(KeyGroup::Left))
        } else if in_group(key@, KeyGroup::Right) {
            Some(group_action(KeyGroup::Right))
        } else if in_group(key@, KeyGroup::Up) {
            Some(group_action(KeyGroup::Up))
        } else if in_group(key@, KeyGroup::Down) {
            Some(group_action(KeyGroup::Down))
        } else if in_group(key@, KeyGroup::ShiftLeft) {
            Some(group_action(KeyGroup::ShiftLeft))
        } else if in_group(key@, KeyGroup::ShiftRight) {
            Some(group_action(KeyGroup::ShiftRight))
        } else if in_group(key@, KeyGroup::ShiftUp) {
            Some(group_action(KeyGroup::ShiftUp))
        } else if in_group(key@, KeyGroup::ShiftDown) {
            Some(group_action(KeyGroup::ShiftDown))
        } else if in_group(key@, KeyGroup::ShiftPageUp) {
            Some(group_action(KeyGroup::ShiftPageUp))
        } else if in_group(key@, KeyGroup::ShiftPageDown) {
            Some(group_action(KeyGroup::ShiftPageDown))
        } else {
            None
        }),
{
    if key_in_group(key, KeyGroup::Home) {
        Some(Action::SeekStart)
    } else if key_in_group(key, KeyGroup::Left) {
        Some(Action::SeekRelative(-SEEK_SHORT))
    } else if key_in_group(key, KeyGroup::Right) {
        Some(Action::SeekRelative(SEEK_SHORT))
    } else if key_in_group(key, KeyGroup::Up) {
        Some(Action::SeekRelative(SEEK_MEDIUM))
    } else if key_in_group(key, KeyGroup::Down) {
        Some(Action::SeekRelative(-SEEK_MEDIUM))
    } else if key_in_group(key, KeyGroup::ShiftLeft) {
        Some(Action::SeekRelative(-SEEK_EXACT))
    } else if key_in_group(key, KeyGroup::ShiftRight) {
        Some(Action::SeekRelative(SEEK_EXACT))
    } else if key_in_group(key, KeyGroup::ShiftUp) {
        Some(Action::SeekRelative(SEEK_SHORT))
    } else if key_in_group(key, KeyGroup::ShiftDown) {
        Some(Action::SeekRelative(-SEEK_SHORT))
    } else if key_in_group(key, KeyGroup::ShiftPageUp) {
        Some(Action::SeekRelative(-SEEK_LONG))
    } else if key_in_group(key, KeyGroup::ShiftPageDown) {
        Some(Action::SeekRelative(SEEK_LONG))
    } else {
        None
    }
}

/// What a key does.
pub fn key_action(key: &[u8], keys: &KeyBindings) -> (r: Option<Action>)
    ensures
        r == spec_key_action(key@, *keys),
{
    if is_bound(&keys.quit, key) {
        return Some(Action::Quit);
    }
    if is_bound(&keys.pause, key) {
        return Some(Action::TogglePause);
    }
    if is_bound(&keys.step, key) {
        return Some(Action::StepForward);
    }
    if is_bound(&keys.step_back, key) {
        return Some(Action::StepBackward);
    }
    if is_bound(&keys.next_marker, key) {
        return Some(Action::NextMarker);
    }
    navigation_action(key)
}

/// All the groups of navigation keys.
pub open spec fn all_groups() -> Seq<KeyGroup> {
    seq![
        KeyGroup::Left,
        KeyGroup::Right,
        KeyGroup::Up,
        KeyGroup::Down,
        KeyGroup::ShiftLeft,
        KeyGroup::ShiftRight,
        KeyGroup::ShiftUp,
        KeyGroup::ShiftDown,
        KeyGroup::Home,
        KeyGroup::ShiftPageUp,
        KeyGroup::ShiftPageDown,
    ]
}

/// Whether `key` is a complete navigation key sequence.
pub open spec fn spec_is_known_escape_key(key: Seq<u8>) -> bool {
    exists|i: int| 0 <= i < all_groups().len() && in_group(key, #[trigger] all_groups()[i])
}

/// Whether `key` is a proper beginning of a navigation key sequence.
pub open spec fn spec_is_known_escape_key_prefix(key: Seq<u8>) -> bool {
    exists|i: int|
        0 <= i < all_groups().len() && spec_has_prefix(key, key_table(#[trigger] all_groups()[i]))
}

/// The groups as a vector.
fn groups() -> (v: Vec<KeyGroup>)
    ensures
        v@ == all_groups(),
{
    let v = vec![
        KeyGroup::Left,
        KeyGroup::Right,
        KeyGroup::Up,
        KeyGroup::Down,
        KeyGroup::ShiftLeft,
        KeyGroup::ShiftRight,
        KeyGroup::ShiftUp,
        KeyGroup::ShiftDown,
        KeyGroup::Home,
        KeyGroup::ShiftPageUp,
        KeyGroup::ShiftPageDown,
    ];
    assert(v@ =~= all_groups());
    v
}

/// Whether `key` is a complete navigation key sequence.
pub fn is_known_escape_key(key: &[u8]) -> (r: bool)
    ensures
        r == spec_is_known_escape_key(key@),
{
    let gs = groups();
    let mut i: usize = 0;
    while i < gs.len()
        invariant
            gs@ == all_groups(),
            i <= gs@.len(),
            forall|j: int| 0 <= j < i ==> !in_group(key@, #[trigger] all_groups()[j]),
        decreases gs@.len() - i,
    {
        if key_in_group(key, gs[i]) {
            return true;
        }
        i = i + 1;
    }
    false
}

/// Whether `key` is a proper beginning of a navigation key sequence, so
/// that more bytes may complete it.
pub fn is_known_escape_key_prefix(key: &[u8]) -> (r: bool)
    ensures
        r == spec_is_known_escape_key_prefix(key@),
{
    let gs = groups();
    let mut i: usize = 0;
    while i < gs.len()
        invariant
            gs@ == all_groups(),
            i <= gs@.len(),
            forall|j: int|
                0 <= j < i ==> !spec_has_prefix(key@, key_table(#[trigger] all_groups()[j])),
        decreases gs@.len() - i,
    {
        let table = keys_of(gs[i]);
        assert(table@.map_values(|k: Vec<u8>| k@) =~= key_table(gs@[i as int]));
        if has_prefix(key, &table) {
            return true;
        }
        i = i + 1;
    }
    false
}

/// The playback position after seeking by `offset` microseconds from
/// `position`: back to no earlier than the start, forward to no later than
/// `duration`.
pub open spec fn spec_offset_position(position: u64, offset: i64, duration: u64) -> u64 {
    if offset < 0 {
        if position >= -offset {
            (position + offset) as u64
        } else {
            0
        }
    } else {
        let p = if position + offset > u64::MAX {
            u64::MAX as int
        } else {
            position + offset
        };
        if p <= duration {
            p as u64
        } else {
            duration
        }
    }
}

/// The playback position after a relative seek.
pub fn offset_position(position: u64, offset: i64, duration: u64) -> (r: u64)
    ensures
        r == spec_offset_position(position, offset, duration),
{
    if offset < 0 {
        let back: u64 = if offset == i64::MIN {
            9223372036854775808u64
        } else {
            (-offset) as u64
        };
        position.saturating_sub(back)
    } else {
        let p = position.saturating_add(offset as u64);
        if p <= duration {
            p
        } else {
            duration
        }
    }
}

/// The index of the first event later than `position`: the number of
/// events shown by that position when times do not decrease.
pub open spec fn first_after(events: Seq<Event>, position: u64, from: int) -> int
    decreases events.len() - from,
{
    if from < 0 || from >= events.len() {
        events.len() as int
    } else if events[from].time > position {
        from
    } else {
        first_after(events, position, from + 1)
    }
}

pub proof fn lemma_first_after_bounds(events: Seq<Event>, position: u64, from: int)
    requires
        0 <= from <= events.len(),
    ensures
        from <= first_after(events, position, from) <= events.len(),
        forall|j: int| from <= j < first_after(events, position, from) ==> events[j].time <= position,
        first_after(events, position, from) < events.len() ==> events[first_after(events, position, from)].time > position,
    decreases events.len() - from,
{
    if from < events.len() && events[from].time <= position {
        lemma_first_after_bounds(events, position, from + 1);
    }
}

/// The index of the first event after `position`; the events at the
/// position itself count as shown.
pub fn event_index_at(events: &Vec<Event>, position: u64) -> (r: usize)
    ensures
        r == first_after(events@, position, 0),
{
    let mut i: usize = 0;
    while i < events.len() && events[i].time <= position
        invariant
            i <= events@.len(),
            first_after(events@, position, 0) == first_after(events@, position, i as int),
        decreases events@.len() - i,
    {
        i = i + 1;
    }
    i
}

/// The playback position once the events before `event_idx` are shown:
/// the time of the last of them, or 0 when there is none.
pub open spec fn spec_position_after_event(events: Seq<Event>, event_idx: usize) -> u64 {
    if 1 <= event_idx && event_idx - 1 < events.len() {
        events[event_idx - 1].time
    } else {
        0
    }
}

/// The playback position once the events before `event_idx` are shown.
pub fn position_after_event(events: &Vec<Event>, event_idx: usize) -> (r: u64)
    ensures
        r == spec_position_after_event(events@, event_idx),
{
    if event_idx >= 1 && event_idx - 1 < events.len() {
        events[event_idx - 1].time
    } else {
        0
    }
}

/// How the virtual terminal gets from showing the events before one index
/// to showing those before another.
#[derive(Debug, Clone, Copy, PartialEq, Eq, Structural)]
pub enum SeekPlan {
    /// Nothing to do: no redraw either.
    Unchanged,
    /// Start from a fresh terminal and replay the events before the index.
    Rebuild(usize),
    /// Apply the events from the first index up to (not including) the
    /// second.
    Forward(usize, usize),
}

/// The plan to go from `next_event_idx` to `target_idx`.
pub open spec fn spec_seek_plan(next_event_idx: usize, target_idx: usize) -> SeekPlan {
    if target_idx < next_event_idx {
        SeekPlan::Rebuild(target_idx)
    } else if target_idx == next_event_idx {
        SeekPlan::Unchanged
    } else {
        SeekPlan::Forward(next_event_idx, target_idx)
    }
}

/// The plan to go from `next_event_idx` to `target_idx`.
pub fn seek_plan(next_event_idx: usize, target_idx: usize) -> (p: SeekPlan)
    ensures
        p == spec_seek_plan(next_event_idx, target_idx),
{
    if target_idx < next_event_idx {
        SeekPlan::Rebuild(target_idx)
    } else if target_idx == next_event_idx {
        SeekPlan::Unchanged
    } else {
        SeekPlan::Forward(next_event_idx, target_idx)
    }
}

/// The events a terminal has been given, by index, after a plan is carried
/// out on a terminal that was given `shown`.
pub open spec fn after_plan(shown: Seq<int>, plan: SeekPlan) -> Seq<int> {
    match plan {
        SeekPlan::Unchanged => shown,
        SeekPlan::Rebuild(t) => Seq::new(t as nat, |i: int| i),
        SeekPlan::Forward(a, b) => shown + Seq::new((b - a) as nat, |i: int| a + i),
    }
}

/// Seeking keeps the terminal faithful: when it shows exactly the events
/// before `next_event_idx`, after carrying out the plan to `target_idx` it
/// shows exactly the events before `target_idx`.
pub proof fn lemma_seek_reaches_target(next_event_idx: usize, target_idx: usize)
    ensures
        after_plan(
            Seq::new(next_event_idx as nat, |i: int| i),
            spec_seek_plan(next_event_idx, target_idx),
        ) =~= Seq::new(target_idx as nat, |i: int| i),
{
}

/// Something the playback loop must do.
#[derive(Debug, Clone, Copy, PartialEq, Eq, Structural)]
pub enum Effect {
    /// Stop playback: the viewer quit.
    Quit,
    /// Show the event at this index.
    Apply(usize),
    /// Bring the terminal to another event index (see `SeekPlan`) and,
    /// unless nothing changes, redraw it.
    Seek(SeekPlan),
    /// Set the playback clock to this many microseconds.
    SetElapsed(u64),
}

/// Where playback is: the next event to show, and the position at which it
/// is paused, if it is.
#[derive(Debug, Clone, Copy, PartialEq, Eq, Structural)]
pub struct Playback {
    pub next_event_idx: usize,
    pub paused_at: Option<u64>,
}

/// The index of the first marker at or after `i`, if any.
pub open spec fn marker_from(events: Seq<Event>, i: int) -> Option<int>
    decreases events.len() - i,
{
    if i < 0 || i >= events.len() {
        None
    } else if events[i].data is Marker {
        Some(i)
    } else {
        marker_from(events, i + 1)
    }
}

pub proof fn lemma_marker_from_bounds(events: Seq<Event>, i: int)
    ensures
        marker_from(events, i) matches Some(m) ==> i <= m < events.len() && events[m].data is Marker,
    decreases events.len() - i,
{
    if 0 <= i < events.len() && !(events[i].data is Marker) {
        lemma_marker_from_bounds(events, i + 1);
    }
}

/// The indices from `a` up to (not including) `b`.
pub open spec fn applies(a: int, b: int) -> Seq<Effect> {
    Seq::new(if b > a {
        (b - a) as nat
    } else {
        0
    }, |i: int| Effect::Apply((a + i) as usize))
}

/// The time of the last event, or 0.
pub open spec fn last_time(events: Seq<Event>) -> u64 {
    if events.len() == 0 {
        0
    } else {
        events.last().time
    }
}

/// Where a seek to `position` lands and what it does.
pub open spec fn seek_to(events: Seq<Event>, next: usize, position: u64) -> (usize, Seq<Effect>) {
    let target = first_after(events, position, 0) as usize;
    (target, seq![Effect::Seek(spec_seek_plan(next, target))])
}

/// What a key does while playback is paused at `pet`.
pub open spec fn spec_paused_key(events: Seq<Event>, duration: u64, next: usize, pet: u64, action: Option<Action>) -> (Playback, Seq<Effect>) {
    match action {
        Some(Action::Quit) => (Playback { next_event_idx: next, paused_at: Some(pet) }, seq![Effect::Quit]),
        Some(Action::TogglePause) => (
            Playback { next_event_idx: next, paused_at: None },
            seq![Effect::SetElapsed(pet)],
        ),
        Some(Action::StepForward) => if next < events.len() {
            (
                Playback { next_event_idx: (next + 1) as usize, paused_at: Some(events[next as int].time) },
                seq![Effect::Apply(next)],
            )
        } else {
            (Playback { next_event_idx: next, paused_at: Some(last_time(events)) }, seq![])
        },
        Some(Action::StepBackward) => {
            let target = if next >= 1 {
                (next - 1) as usize
            } else {
                0usize
            };
            (
                Playback {
                    next_event_idx: target,
                    paused_at: Some(spec_position_after_event(events, target)),
                },
                seq![Effect::Seek(spec_seek_plan(next, target))],
            )
        },
        Some(Action::NextMarker) => match marker_from(events, next as int) {
            Some(m) => (
                Playback { next_event_idx: (m + 1) as usize, paused_at: Some(events[m].time) },
                applies(next as int, m),
            ),
            None => (
                Playback {
                    next_event_idx: if next as int >= events.len() {
                        next
                    } else {
                        events.len() as usize
                    },
                    paused_at: Some(duration),
                },
                applies(next as int, events.len() as int),
            ),
        },
        Some(Action::SeekStart) => {
            let (t, e) = seek_to(events, next, 0);
            (Playback { next_event_idx: t, paused_at: Some(0) }, e)
        },
        Some(Action::SeekRelative(offset)) => {
            let target = spec_offset_position(pet, offset, duration);
            let (t, e) = seek_to(events, next, target);
            (Playback { next_event_idx: t, paused_at: Some(target) }, e)
        },
        None => (Playback { next_event_idx: next, paused_at: Some(pet) }, seq![]),
    }
}

/// What playback does.
pub struct Step {
    pub state: Playback,
    pub effects: Vec<Effect>,
}

/// The index of the first marker at or after `i`, if any.
fn find_marker(events: &Vec<Event>, i: usize) -> (r: Option<usize>)
    ensures
        match marker_from(events@, i as int) {
            Some(m) => r == Some(m as usize),
            None => r is None,
        },
        r matches Some(m) ==> i <= m < events@.len(),
{
    proof {
        lemma_marker_from_bounds(events@, i as int);
    }
    let mut j: usize = i;
    while j < events.len()
        invariant
            i <= j,
            marker_from(events@, i as int) == marker_from(events@, j as int),
        decreases events@.len() - j,
    {
        if let EventData::Marker(_) = &events[j].data {
            assert(events@.len() <= usize::MAX);
            return Some(j);
        }
        j = j + 1;
    }
    None
}

/// The effects of showing the events from `a` up to (not including) `b`.
fn apply_range(effects: &mut Vec<Effect>, a: usize, b: usize)
    requires
        a <= b,
    ensures
        final(effects)@ == old(effects)@ + applies(a as int, b as int),
{
    let mut k: usize = a;
    while k < b
        invariant
            a <= k <= b,
            effects@ == old(effects)@ + applies(a as int, k as int),
        decreases b - k,
    {
        effects.push(Effect::Apply(k));
        k = k + 1;
        assert(effects@ =~= old(effects)@ + applies(a as int, k as int));
    }
}

/// What a key does while playback is paused at `paused_at`: quit; resume
/// from there; step one event forward or back; play to the next marker;
/// seek to the start or by an offset. A paused step or seek stays paused at
/// the new position.
pub fn paused_key(events: &Vec<Event>, duration: u64, next_event_idx: usize, paused_at: u64, action: Option<Action>) -> (s: Step)
    ensures
        (s.state, s.effects@) == spec_paused_key(events@, duration, next_event_idx, paused_at, action),
{
    let next = next_event_idx;
    let n = events.len();
    let mut effects: Vec<Effect> = Vec::new();
    let state = match action {
        Some(Action::Quit) => {
            effects.push(Effect::Quit);
            assert(effects@ =~= spec_paused_key(events@, duration, next_event_idx, paused_at, action).1);
            Playback { next_event_idx: next, paused_at: Some(paused_at) }
        },
        Some(Action::TogglePause) => {
            effects.push(Effect::SetElapsed(paused_at));
            assert(effects@ =~= spec_paused_key(events@, duration, next_event_idx, paused_at, action).1);
            Playback { next_event_idx: next, paused_at: None }
        },
        Some(Action::StepForward) => {
            if next < events.len() {
                effects.push(Effect::Apply(next));
                assert(effects@ =~= spec_paused_key(events@, duration, next_event_idx, paused_at, action).1);
                    Playback { next_event_idx: next + 1, paused_at: Some(events[next].time) }
            } else {
                let t = if events.len() == 0 {
                    0
                } else {
                    events[events.len() - 1].time
                };
                assert(effects@ =~= spec_paused_key(events@, duration, next_event_idx, paused_at, action).1);
                Playback { next_event_idx: next, paused_at: Some(t) }
            }
        },
        Some(Action::StepBackward) => {
            let target = if next >= 1 {
                next - 1
            } else {
                0
            };
            effects.push(Effect::Seek(seek_plan(next, target)));
            assert(effects@ =~= spec_paused_key(events@, duration, next_event_idx, paused_at, action).1);
            Playback { next_event_idx: target, paused_at: Some(position_after_event(events, target)) }
        },
        Some(Action::NextMarker) => {
            match find_marker(events, next) {
                Some(m) => {
                    proof {
                        lemma_marker_from_bounds(events@, next as int);
                        assert(marker_from(events@, next as int) == Some(m as int));
                    }
                    apply_range(&mut effects, next, m);
                    assert(effects@ =~= spec_paused_key(events@, duration, next_event_idx, paused_at, action).1);
                            Playback { next_event_idx: m + 1, paused_at: Some(events[m].time) }
                },
                None => {
                    if next < events.len() {
                        apply_range(&mut effects, next, events.len());
                        assert(effects@ =~= spec_paused_key(events@, duration, next_event_idx, paused_at, action).1);
                        Playback { next_event_idx: events.len(), paused_at: Some(duration) }
                    } else {
                        assert(effects@ =~= applies(next as int, events@.len() as int));
                        Playback { next_event_idx: next, paused_at: Some(duration) }
                    }
                },
            }
        },
        Some(Action::SeekStart) => {
            let target = event_index_at(events, 0);
            effects.push(Effect::Seek(seek_plan(next, target)));
            assert(effects@ =~= spec_paused_key(events@, duration, next_event_idx, paused_at, action).1);
            Playback { next_event_idx: target, paused_at: Some(0) }
        },
        Some(Action::SeekRelative(offset)) => {
            let position = offset_position(paused_at, offset, duration);
            let target = event_index_at(events, position);
            effects.push(Effect::Seek(seek_plan(next, target)));
            assert(effects@ =~= spec_paused_key(events@, duration, next_event_idx, paused_at, action).1);
            Playback { next_event_idx: target, paused_at: Some(position) }
        },
        None => {
            assert(effects@ =~= spec_paused_key(events@, duration, next_event_idx, paused_at, action).1);
            Playback { next_event_idx: next, paused_at: Some(paused_at) }
        },
    };
    Step { state, effects }
}

/// What a key pressed while waiting for the next event does, `elapsed`
/// microseconds into playback: quit; pause at the current position (also
/// for the step keys); seek to the start or by an offset and keep playing
/// from there; the marker key and unbound keys do nothing.
pub open spec fn spec_playing_key(events: Seq<Event>, duration: u64, next: usize, elapsed: u64, action: Option<Action>) -> (Playback, Seq<Effect>) {
    match action {
        Some(Action::Quit) => (Playback { next_event_idx: next, paused_at: None }, seq![Effect::Quit]),
        Some(Action::TogglePause) | Some(Action::StepForward) | Some(Action::StepBackward) => (
            Playback {
                next_event_idx: next,
                paused_at: Some(if elapsed <= duration {
                    elapsed
                } else {
                    duration
                }),
            },
            seq![],
        ),
        Some(Action::SeekStart) => {
            let (t, e) = seek_to(events, next, 0);
            (Playback { next_event_idx: t, paused_at: None }, e + seq![Effect::SetElapsed(0)])
        },
        Some(Action::SeekRelative(offset)) => {
            let target = spec_offset_position(elapsed, offset, duration);
            let (t, e) = seek_to(events, next, target);
            (Playback { next_event_idx: t, paused_at: None }, e + seq![Effect::SetElapsed(target)])
        },
        _ => (Playback { next_event_idx: next, paused_at: None }, seq![]),
    }
}

/// What a key pressed during playback does.
pub fn playing_key(events: &Vec<Event>, duration: u64, next_event_idx: usize, elapsed: u64, action: Option<Action>) -> (s: Step)
    ensures
        (s.state, s.effects@) == spec_playing_key(events@, duration, next_event_idx, elapsed, action),
{
    let next = next_event_idx;
    let mut effects: Vec<Effect> = Vec::new();
    let state = match action {
        Some(Action::Quit) => {
            effects.push(Effect::Quit);
            Playback { next_event_idx: next, paused_at: None }
        },
        Some(Action::TogglePause) | Some(Action::StepForward) | Some(Action::StepBackward) => {
            let at = if elapsed <= duration {
                elapsed
            } else {
                duration
            };
            Playback { next_event_idx: next, paused_at: Some(at) }
        },
        Some(Action::SeekStart) => {
            let target = event_index_at(events, 0);
            effects.push(Effect::Seek(seek_plan(next, target)));
            effects.push(Effect::SetElapsed(0));
            Playback { next_event_idx: target, paused_at: None }
        },
        Some(Action::SeekRelative(offset)) => {
            let position = offset_position(elapsed, offset, duration);
            let target = event_index_at(events, position);
            effects.push(Effect::Seek(seek_plan(next, target)));
            effects.push(Effect::SetElapsed(position));
            Playback { next_event_idx: target, paused_at: None }
        },
        _ => Playback { next_event_idx: next, paused_at: None },
    };
    proof {
        let ghost spec = spec_playing_key(events@, duration, next_event_idx, elapsed, action);
        assert(effects@ =~= spec.1);
    }
    Step { state, effects }
}

/// What happens when the next event is due: it is shown, and playback
/// pauses at a marker when asked to.
pub open spec fn spec_event_due(events: Seq<Event>, next: usize, pause_on_markers: bool) -> (Playback, Seq<Effect>) {
    (
        Playback {
            next_event_idx: (next + 1) as usize,
            paused_at: if pause_on_markers && events[next as int].data is Marker {
                Some(events[next as int].time)
            } else {
                None
            },
        },
        seq![Effect::Apply(next)],
    )
}

/// The next event is due: show it.
pub fn event_due(events: &Vec<Event>, next_event_idx: usize, pause_on_markers: bool) -> (s: Step)
    requires
        next_event_idx < events@.len(),
    ensures
        (s.state, s.effects@) == spec_event_due(events@, next_event_idx, pause_on_markers),
{
    let n = events.len();
    let mut effects: Vec<Effect> = Vec::new();
    effects.push(Effect::Apply(next_event_idx));
    let is_marker = match &events[next_event_idx].data {
        EventData::Marker(_) => true,
        _ => false,
    };
    let paused_at = if pause_on_markers && is_marker {
        Some(events[next_event_idx].time)
    } else {
        None
    };
    assert(effects@ =~= seq![Effect::Apply(next_event_idx)]);
    Step { state: Playback { next_event_idx: next_event_idx + 1, paused_at }, effects }
}

/// Whether the next event is due `elapsed` microseconds into playback: its
/// time has come.
pub fn is_due(events: &Vec<Event>, next_event_idx: usize, elapsed: u64) -> (r: bool)
    requires
        next_event_idx < events@.len(),
    ensures
        r == (events@[next_event_idx as int].time <= elapsed),
{
    events[next_event_idx].time <= elapsed
}

/// Stepping back undoes stepping forward: from a pause before an event,
/// a step forward and then a step back return to the same event index.
pub proof fn lemma_step_back_undoes_step(events: Seq<Event>, duration: u64, next: usize, pet: u64)
    requires
        events.len() <= usize::MAX,
        next < events.len(),
    ensures
        ({
            let (s1, _) = spec_paused_key(events, duration, next, pet, Some(Action::StepForward));
            let (s2, _) = spec_paused_key(
                events,
                duration,
                s1.next_event_idx,
                s1.paused_at->0,
                Some(Action::StepBackward),
            );
            s2.next_event_idx == next
        }),
{
}

/// A relative seek never goes past the end of the recording when it goes
/// forward, and never before the start when it goes back.
pub proof fn lemma_offset_position_bounds(position: u64, offset: i64, duration: u64)
    ensures
        offset >= 0 ==> spec_offset_position(position, offset, duration) <= duration,
        offset < 0 ==> spec_offset_position(position, offset, duration) <= position,
{
}

/// The shape of a navigation key sequence: three bytes ending in a letter
/// from `A` to `H`; four bytes whose third is a digit and whose fourth is
/// not `;`; or six bytes whose fourth is `;`.
pub open spec fn key_shape(k: Seq<u8>) -> bool {
    ||| k.len() == 3 && 0x41 <= k[2] <= 0x48
    ||| k.len() == 4 && 0x31 <= k[2] <= 0x39 && k[3] != 0x3b
    ||| k.len() == 6 && 0x31 <= k[2] <= 0x39 && k[3] == 0x3b
}

proof fn lemma_key_table_shapes(g: KeyGroup, i: int)
    requires
        0 <= i < key_table(g).len(),
    ensures
        key_shape(key_table(g)[i]),
{
}

/// No navigation key sequence is a proper beginning of another, so a
/// complete sequence can be acted on at once.
pub proof fn lemma_no_key_is_a_prefix(key: Seq<u8>)
    requires
        spec_is_known_escape_key(key),
    ensures
        !spec_is_known_escape_key_prefix(key),
{
    let gi = choose|gi: int| 0 <= gi < all_groups().len() && in_group(key, #[trigger] all_groups()[gi]);
    let g1 = all_groups()[gi];
    let i1 = choose|i1: int| 0 <= i1 < key_table(g1).len() && #[trigger] key_table(g1)[i1] == key;
    lemma_key_table_shapes(g1, i1);
    if spec_is_known_escape_key_prefix(key) {
        let gj = choose|gj: int|
            0 <= gj < all_groups().len() && spec_has_prefix(key, key_table(#[trigger] all_groups()[gj]));
        let g2 = all_groups()[gj];
        let i2 = choose|i2: int|
            0 <= i2 < key_table(g2).len() && (#[trigger] key_table(g2)[i2]).len() > key.len()
                && key_table(g2)[i2].take(key.len() as int) == key;
        let k2 = key_table(g2)[i2];
        lemma_key_table_shapes(g2, i2);
        assert(k2.take(key.len() as int)[2] == k2[2]);
        if key.len() == 4 {
            assert(k2.take(key.len() as int)[3] == k2[3]);
        }
    }
}

/// A relative seek moves the position by the offset: back by `|offset|`
/// but not before the start, forward by `offset` but not past the end.
pub proof fn lemma_offset_position_moves(position: u64, offset: i64, duration: u64)
    ensures
        offset < 0 && position + offset >= 0 ==> spec_offset_position(position, offset, duration)
            == position + offset,
        offset < 0 && position + offset < 0 ==> spec_offset_position(position, offset, duration)
            == 0,
        offset >= 0 && position + offset <= duration ==> spec_offset_position(
            position,
            offset,
            duration,
        ) == position + offset,
        offset >= 0 && position + offset > duration ==> spec_offset_position(
            position,
            offset,
            duration,
        ) == duration,
{
}

/// The simple keys while paused: quitting stops and changes nothing else;
/// resuming unpauses and restarts the clock where playback was paused;
/// stepping forward shows exactly the next event and pauses at its time
/// (at the end it shows nothing); stepping back goes one event back (not
/// before the first), pausing where the events before it end, and carrying
/// out its seek shows exactly those events.
pub proof fn lemma_paused_simple_keys(events: Seq<Event>, duration: u64, next: usize, pet: u64)
    requires
        next <= events.len(),
        events.len() <= usize::MAX,
    ensures
        ({
            let (st, eff) = spec_paused_key(events, duration, next, pet, Some(Action::Quit));
            eff == seq![Effect::Quit] && st.next_event_idx == next && st.paused_at == Some(pet)
        }),
        ({
            let (st, eff) = spec_paused_key(events, duration, next, pet, Some(Action::TogglePause));
            eff == seq![Effect::SetElapsed(pet)] && st.next_event_idx == next && st.paused_at is None
        }),
        ({
            let (st, eff) = spec_paused_key(events, duration, next, pet, Some(Action::StepForward));
            &&& next < events.len() ==> {
                &&& eff == seq![Effect::Apply(next)]
                &&& st.next_event_idx == next + 1
                &&& st.paused_at == Some(events[next as int].time)
            }
            &&& next == events.len() ==> eff.len() == 0 && st.next_event_idx == next
        }),
        ({
            let (st, eff) = spec_paused_key(events, duration, next, pet, Some(Action::StepBackward));
            let back: int = if next > 0 {
                next - 1
            } else {
                0
            };
            &&& st.next_event_idx == back
            &&& st.paused_at == Some(
                if back > 0 {
                    events[back - 1].time
                } else {
                    0u64
                },
            )
            &&& eff.len() == 1
            &&& eff[0] matches Effect::Seek(plan) && after_plan(
                Seq::new(next as nat, |i: int| i),
                plan,
            ) =~= Seq::new(back as nat, |i: int| i)
        }),
        ({
            let (st, eff) = spec_paused_key(events, duration, next, pet, None);
            eff.len() == 0 && st.next_event_idx == next && st.paused_at == Some(pet)
        }),
{
    let back: usize = if next > 0 {
        (next - 1) as usize
    } else {
        0
    };
    lemma_seek_reaches_target(next, back);
}

/// Going to the next marker while paused shows, in order, every event from
/// the next one up to the first marker at or after it, and pauses at that
/// marker's time just past it; no event it shows is a marker. Without a
/// marker ahead it shows the rest of the recording and pauses at its end.
pub proof fn lemma_paused_next_marker(events: Seq<Event>, duration: u64, next: usize, pet: u64)
    requires
        next <= events.len(),
        events.len() <= usize::MAX,
    ensures
        ({
            let (st, eff) = spec_paused_key(events, duration, next, pet, Some(Action::NextMarker));
            &&& forall|i: int| 0 <= i < eff.len() ==> eff[i] == Effect::Apply((next + i) as usize)
            &&& forall|i: int|
                0 <= i < eff.len() ==> !(#[trigger] events[next + i].data is Marker)
            &&& st.next_event_idx < events.len() + 1
            &&& st.next_event_idx <= events.len() && st.next_event_idx > next && events[st.next_event_idx
                - 1].data is Marker ==> {
                &&& eff.len() == st.next_event_idx - 1 - next
                &&& st.paused_at == Some(events[st.next_event_idx - 1].time)
            }
            &&& (forall|j: int| next <= j < events.len() ==> !(#[trigger] events[j].data is Marker))
                ==> {
                &&& eff.len() == events.len() - next
                &&& st.next_event_idx == events.len()
                &&& st.paused_at == Some(duration)
            }
        }),
{
    lemma_marker_from_bounds(events, next as int);
    lemma_marker_from_none(events, next as int);
    match marker_from(events, next as int) {
        Some(m) => {
            lemma_marker_from_first(events, next as int);
        },
        None => {},
    }
}

proof fn lemma_marker_from_first(events: Seq<Event>, i: int)
    requires
        0 <= i,
    ensures
        marker_from(events, i) matches Some(m) ==> forall|j: int|
            i <= j < m ==> !(#[trigger] events[j].data is Marker),
    decreases events.len() - i,
{
    if 0 <= i < events.len() && !(events[i].data is Marker) {
        lemma_marker_from_first(events, i + 1);
    }
}

proof fn lemma_marker_from_none(events: Seq<Event>, i: int)
    requires
        0 <= i,
    ensures
        marker_from(events, i) is None <==> forall|j: int|
            i <= j < events.len() ==> !(#[trigger] events[j].data is Marker),
    decreases events.len() - i,
{
    if 0 <= i < events.len() && !(events[i].data is Marker) {
        lemma_marker_from_none(events, i + 1);
    }
}

/// Seeking lands on the position asked for: after a seek to the start or by
/// an offset (paused or playing), the events shown are exactly those at or
/// before the new position, the terminal is brought there, and the clock
/// (or the pause) is set to that position.
pub proof fn lemma_seeks_land_on_position(
    events: Seq<Event>,
    duration: u64,
    next: usize,
    at: u64,
    offset: i64,
)
    requires
        next <= events.len(),
        events.len() <= usize::MAX,
    ensures
        ({
            let pos = spec_offset_position(at, offset, duration);
            let (st, eff) = spec_paused_key(events, duration, next, at, Some(Action::SeekRelative(offset)));
            let (pst, peff) = spec_playing_key(events, duration, next, at, Some(Action::SeekRelative(offset)));
            &&& st.paused_at == Some(pos)
            &&& st.next_event_idx == pst.next_event_idx
            &&& pst.paused_at is None
            &&& peff.last() == Effect::SetElapsed(pos)
            &&& forall|j: int| 0 <= j < st.next_event_idx ==> events[j].time <= pos
            &&& st.next_event_idx < events.len() ==> events[st.next_event_idx as int].time > pos
            &&& eff.len() == 1
            &&& eff[0] matches Effect::Seek(plan) && after_plan(
                Seq::new(next as nat, |i: int| i),
                plan,
            ) =~= Seq::new(st.next_event_idx as nat, |i: int| i)
        }),
        ({
            let (st, eff) = spec_paused_key(events, duration, next, at, Some(Action::SeekStart));
            let (pst, peff) = spec_playing_key(events, duration, next, at, Some(Action::SeekStart));
            &&& st.paused_at == Some(0u64)
            &&& pst.paused_at is None
            &&& peff.last() == Effect::SetElapsed(0)
            &&& st.next_event_idx == pst.next_event_idx
            &&& forall|j: int| 0 <= j < st.next_event_idx ==> events[j].time == 0
            &&& st.next_event_idx < events.len() ==> events[st.next_event_idx as int].time > 0
        }),
{
    let pos = spec_offset_position(at, offset, duration);
    lemma_first_after_bounds(events, pos, 0);
    lemma_first_after_bounds(events, 0, 0);
    lemma_seek_reaches_target(next, first_after(events, pos, 0) as usize);
}

/// Keys during playback: quitting stops; the pause and step keys pause at
/// the current position, never past the end; other keys that do not seek
/// change nothing.
pub proof fn lemma_playing_pause_keys(events: Seq<Event>, duration: u64, next: usize, elapsed: u64)
    ensures
        ({
            let (st, eff) = spec_playing_key(events, duration, next, elapsed, Some(Action::Quit));
            eff == seq![Effect::Quit] && st.next_event_idx == next
        }),
        forall|a: Action|
            (a == Action::TogglePause || a == Action::StepForward || a == Action::StepBackward)
                ==> ({
                let (st, eff) = #[trigger] spec_playing_key(events, duration, next, elapsed, Some(a));
                &&& eff.len() == 0
                &&& st.next_event_idx == next
                &&& st.paused_at matches Some(p) && p <= duration && p <= elapsed && (elapsed
                    <= duration ==> p == elapsed)
            }),
        ({
            let (st, eff) = spec_playing_key(events, duration, next, elapsed, Some(Action::NextMarker));
            eff.len() == 0 && st.next_event_idx == next && st.paused_at is None
        }),
{
}

/// A due event is shown, exactly it, and playback moves past it; it pauses
/// there, at the event's time, exactly when it is a marker and pausing on
/// markers is asked for.
pub proof fn lemma_event_due_shows_it(events: Seq<Event>, next: usize, pause_on_markers: bool)
    requires
        next < events.len(),
        events.len() <= usize::MAX,
    ensures
        ({
            let (st, eff) = spec_event_due(events, next, pause_on_markers);
            &&& eff == seq![Effect::Apply(next)]
            &&& st.next_event_idx == next + 1
            &&& (st.paused_at is Some <==> pause_on_markers && events[next as int].data is Marker)
            &&& st.paused_at is Some ==> st.paused_at == Some(events[next as int].time)
        }),
{
}

/// The navigation keys, whatever the configured single-byte keys: Home
/// seeks to the start; Left and Right seek 5 seconds back and forward; Up
/// and Down a minute forward and back; Shift-Left and Shift-Right one
/// second; Shift-Up and Shift-Down 5 seconds; Shift-PgUp and Shift-PgDn ten
/// minutes back and forward.
pub proof fn lemma_navigation_keys(keys: KeyBindings)
    requires
        keys.quit matches Some(v) ==> v@.len() == 1,
        keys.pause matches Some(v) ==> v@.len() == 1,
        keys.step matches Some(v) ==> v@.len() == 1,
        keys.step_back matches Some(v) ==> v@.len() == 1,
        keys.next_marker matches Some(v) ==> v@.len() == 1,
    ensures
        spec_key_action(seq![0x1bu8, 0x5b, 0x48], keys) == Some(Action::SeekStart),
        spec_key_action(seq![0x1bu8, 0x5b, 0x44], keys) == Some(Action::SeekRelative(-5_000_000i64)),
        spec_key_action(seq![0x1bu8, 0x5b, 0x43], keys) == Some(Action::SeekRelative(5_000_000i64)),
        spec_key_action(seq![0x1bu8, 0x5b, 0x41], keys) == Some(Action::SeekRelative(60_000_000i64)),
        spec_key_action(seq![0x1bu8, 0x5b, 0x42], keys) == Some(Action::SeekRelative(-60_000_000i64)),
        spec_key_action(seq![0x1bu8, 0x5b, 0x31, 0x3b, 0x32, 0x44], keys) == Some(Action::SeekRelative(-1_000_000i64)),
        spec_key_action(seq![0x1bu8, 0x5b, 0x31, 0x3b, 0x32, 0x43], keys) == Some(Action::SeekRelative(1_000_000i64)),
        spec_key_action(seq![0x1bu8, 0x5b, 0x31, 0x3b, 0x32, 0x41], keys) == Some(Action::SeekRelative(5_000_000i64)),
        spec_key_action(seq![0x1bu8, 0x5b, 0x31, 0x3b, 0x32, 0x42], keys) == Some(Action::SeekRelative(-5_000_000i64)),
        spec_key_action(seq![0x1bu8, 0x5b, 0x35, 0x3b, 0x32, 0x7e], keys) == Some(Action::SeekRelative(-600_000_000i64)),
        spec_key_action(seq![0x1bu8, 0x5b, 0x36, 0x3b, 0x32, 0x7e], keys) == Some(Action::SeekRelative(600_000_000i64)),
{
    {
        let k = seq![0x1bu8, 0x5b, 0x48];
        lemma_unbound(keys, k);
        assert(key_table(KeyGroup::Home)[0] == k);
    }
    {
        let k = seq![0x1bu8, 0x5b, 0x44];
        lemma_unbound(keys, k);
        lemma_not_in_table(k, KeyGroup::Home);
        assert(key_table(KeyGroup::Left)[0] == k);
    }
    {
        let k = seq![0x1bu8, 0x5b, 0x43];
        lemma_unbound(keys, k);
        lemma_not_in_table(k, KeyGroup::Home);
        lemma_not_in_table(k, KeyGroup::Left);
        assert(key_table(KeyGroup::Right)[0] == k);
    }
    {
        let k = seq![0x1bu8, 0x5b, 0x41];
        lemma_unbound(keys, k);
        lemma_not_in_table(k, KeyGroup::Home);
        lemma_not_in_table(k, KeyGroup::Left);
        lemma_not_in_table(k, KeyGroup::Right);
        assert(key_table(KeyGroup::Up)[0] == k);
    }
    {
        let k = seq![0x1bu8, 0x5b, 0x42];
        lemma_unbound(keys, k);
        lemma_not_in_table(k, KeyGroup::Home);
        lemma_not_in_table(k, KeyGroup::Left);
        lemma_not_in_table(k, KeyGroup::Right);
        lemma_not_in_table(k, KeyGroup::Up);
        assert(key_table(KeyGroup::Down)[0] == k);
    }
    {
        let k = seq![0x1bu8, 0x5b, 0x31, 0x3b, 0x32, 0x44];
        lemma_unbound(keys, k);
        lemma_not_in_table(k, KeyGroup::Home);
        lemma_not_in_table(k, KeyGroup::Left);
        lemma_not_in_table(k, KeyGroup::Right);
        lemma_not_in_table(k, KeyGroup::Up);
        lemma_not_in_table(k, KeyGroup::Down);
        assert(key_table(KeyGroup::ShiftLeft)[0] == k);
    }
    {
        let k = seq![0x1bu8, 0x5b, 0x31, 0x3b, 0x32, 0x43];
        lemma_unbound(keys, k);
        lemma_not_in_table(k, KeyGroup::Home);
        lemma_not_in_table(k, KeyGroup::Left);
        lemma_not_in_table(k, KeyGroup::Right);
        lemma_not_in_table(k, KeyGroup::Up);
        lemma_not_in_table(k, KeyGroup::Down);
        lemma_not_in_table(k, KeyGroup::ShiftLeft);
        assert(key_table(KeyGroup::ShiftRight)[0] == k);
    }
    {
        let k = seq![0x1bu8, 0x5b, 0x31, 0x3b, 0x32, 0x41];
        lemma_unbound(keys, k);
        lemma_not_in_table(k, KeyGroup::Home);
        lemma_not_in_table(k, KeyGroup::Left);
        lemma_not_in_table(k, KeyGroup::Right);
        lemma_not_in_table(k, KeyGroup::Up);
        lemma_not_in_table(k, KeyGroup::Down);
        lemma_not_in_table(k, KeyGroup::ShiftLeft);
        lemma_not_in_table(k, KeyGroup::ShiftRight);
        assert(key_table(KeyGroup::ShiftUp)[0] == k);
    }
    {
        let k = seq![0x1bu8, 0x5b, 0x31, 0x3b, 0x32, 0x42];
        lemma_unbound(keys, k);
        lemma_not_in_table(k, KeyGroup::Home);
        lemma_not_in_table(k, KeyGroup::Left);
        lemma_not_in_table(k, KeyGroup::Right);
        lemma_not_in_table(k, KeyGroup::Up);
        lemma_not_in_table(k, KeyGroup::Down);
        lemma_not_in_table(k, KeyGroup::ShiftLeft);
        lemma_not_in_table(k, KeyGroup::ShiftRight);
        lemma_not_in_table(k, KeyGroup::ShiftUp);
        assert(key_table(KeyGroup::ShiftDown)[0] == k);
    }
    {
        let k = seq![0x1bu8, 0x5b, 0x35, 0x3b, 0x32, 0x7e];
        lemma_unbound(keys, k);
        lemma_not_in_table(k, KeyGroup::Home);
        lemma_not_in_table(k, KeyGroup::Left);
        lemma_not_in_table(k, KeyGroup::Right);
        lemma_not_in_table(k, KeyGroup::Up);
        lemma_not_in_table(k, KeyGroup::Down);
        lemma_not_in_table(k, KeyGroup::ShiftLeft);
        lemma_not_in_table(k, KeyGroup::ShiftRight);
        lemma_not_in_table(k, KeyGroup::ShiftUp);
        lemma_not_in_table(k, KeyGroup::ShiftDown);
        assert(key_table(KeyGroup::ShiftPageUp)[0] == k);
    }
    {
        let k = seq![0x1bu8, 0x5b, 0x36, 0x3b, 0x32, 0x7e];
        lemma_unbound(keys, k);
        lemma_not_in_table(k, KeyGroup::Home);
        lemma_not_in_table(k, KeyGroup::Left);
        lemma_not_in_table(k, KeyGroup::Right);
        lemma_not_in_table(k, KeyGroup::Up);
        lemma_not_in_table(k, KeyGroup::Down);
        lemma_not_in_table(k, KeyGroup::ShiftLeft);
        lemma_not_in_table(k, KeyGroup::ShiftRight);
        lemma_not_in_table(k, KeyGroup::ShiftUp);
        lemma_not_in_table(k, KeyGroup::ShiftDown);
        lemma_not_in_table(k, KeyGroup::ShiftPageUp);
        assert(key_table(KeyGroup::ShiftPageDown)[0] == k);
    }
}

/// A key sequence that is not in a group's table.
proof fn lemma_not_in_table(k: Seq<u8>, g: KeyGroup)
    requires
        k.len() >= 3,
        k[0] == 0x1b,
        forall|i: int|
            0 <= i < key_table(g).len() ==> #[trigger] key_table(g)[i] != k,
    ensures
        !in_group(k, g),
{
}

/// A multi-byte key is bound to none of the single-byte keys.
proof fn lemma_unbound(keys: KeyBindings, k: Seq<u8>)
    requires
        k.len() >= 3,
        keys.quit matches Some(v) ==> v@.len() == 1,
        keys.pause matches Some(v) ==> v@.len() == 1,
        keys.step matches Some(v) ==> v@.len() == 1,
        keys.step_back matches Some(v) ==> v@.len() == 1,
        keys.next_marker matches Some(v) ==> v@.len() == 1,
    ensures
        !bound_to(keys.quit, k),
        !bound_to(keys.pause, k),
        !bound_to(keys.step, k),
        !bound_to(keys.step_back, k),
        !bound_to(keys.next_marker, k),
{
}

} // verus!

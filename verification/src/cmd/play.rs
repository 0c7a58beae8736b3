//! The play command's keys: the defaults, with those the configuration
//! defines instead.
use vstd::prelude::*;
use crate::config::{configured_key, key_setting, key_view, three_keys};
use crate::player::KeyBindings;

verus! {

/// The player's keys: the defaults, with the pause, step and next-marker
/// keys that the configuration defines instead.
pub fn get_key_bindings(
    pause_key: Option<String>,
    step_key: Option<String>,
    next_marker_key: Option<String>,
) -> (r: Result<KeyBindings, String>)
    ensures
        match three_keys(
            key_setting(pause_key, Some(seq![0x20u8])),
            key_setting(step_key, Some(seq![0x2eu8])),
            key_setting(next_marker_key, Some(seq![0x5du8])),
        ) {
            Ok((p, s, m)) => r matches Ok(k) && key_view(k.pause) == p && key_view(k.step) == s
                && key_view(k.next_marker) == m && key_view(k.quit) == Some(seq![0x03u8])
                && key_view(k.step_back) == Some(seq![0x2cu8]),
            Err(e) => r matches Err(x) && x@ == e,
        },
{
    let keys = KeyBindings::default();
    let pause = configured_key(pause_key, keys.pause)?;
    let step = configured_key(step_key, keys.step)?;
    let next_marker = configured_key(next_marker_key, keys.next_marker)?;
    Ok(KeyBindings { quit: keys.quit, pause, step, step_back: keys.step_back, next_marker })
}

} // verus!

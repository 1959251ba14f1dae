use vstd::prelude::*;
use crate::keymap::KeyEvent;

verus! {

/// Window message of a key-down seen by a Windows low-level keyboard hook.
pub const WM_KEYDOWN: u32 = 0x0100;

/// Window message of a key-down made while Alt is held.
pub const WM_SYSKEYDOWN: u32 = 0x0104;

/// Window message of a key-up.
pub const WM_KEYUP: u32 = 0x0101;

/// Window message of a key-up made while Alt is held.
pub const WM_SYSKEYUP: u32 = 0x0105;

/// Event type of a key-down at a macOS event tap.
pub const MAC_KEY_DOWN: u32 = 10;

/// Event type of a key-up at a macOS event tap.
pub const MAC_KEY_UP: u32 = 11;

/// Value this library attaches to every event it injects (the extra
/// information of a Windows input, the user data of a macOS event source),
/// by which the event is known again when it comes back to the hook.
pub const SIMULATED_TAG: usize = 1;

/// What the hook tells the operating system to do with a physical key event.
#[derive(Debug, Clone, Copy, PartialEq, Eq, Structural)]
pub enum HookDecision {
    /// Deliver the event to the other applications.
    Pass,
    /// Swallow the event.
    Block,
}

pub open spec fn is_key_down_message(message: u32) -> bool {
    message == WM_KEYDOWN || message == WM_SYSKEYDOWN
}

/// The record a Windows hook builds from the values the hook was handed.
pub open spec fn windows_event(
    vk_code: u32,
    scan_code: u32,
    message: u32,
    extra_info: usize,
    character: Option<char>,
) -> KeyEvent {
    KeyEvent {
        char: character,
        key_code: vk_code,
        scan_code,
        is_pressed: is_key_down_message(message),
        is_simulated: extra_info == SIMULATED_TAG,
    }
}

/// The record a macOS tap builds for a key event, `character` being what
/// the event's keyboard layout gives for it.
pub open spec fn mac_event(key_code: u32, is_down: bool, user_data: i64, character: Option<char>) -> KeyEvent {
    KeyEvent {
        char: character,
        key_code,
        scan_code: key_code,
        is_pressed: is_down,
        is_simulated: user_data == SIMULATED_TAG as i64,
    }
}

/// `x` is the number of a Unicode scalar value.
pub open spec fn is_scalar_value(x: u32) -> bool {
    x < 0xD800 || (0xE000 <= x && x <= 0x10FFFF)
}

/// Relies on `char::from_u32`: a character exactly for the numbers of
/// Unicode scalar values, with that number.
#[verifier::external_body]
fn char_from_u32(x: u32) -> (r: Option<char>)
    ensures
        r.is_some() == is_scalar_value(x),
        r.is_some() ==> r.unwrap() as u32 == x,
{
    char::from_u32(x)
}

/// The character of a layout translation that wrote `count` UTF-16 units,
/// the first being `first_unit`: none when nothing was written (a dead key,
/// no mapping) or when the unit alone is no character.
pub fn translated_char(count: i32, first_unit: u16) -> (r: Option<char>)
    ensures
        r.is_some() == (count > 0 && is_scalar_value(first_unit as u32)),
        r.is_some() ==> r.unwrap() as u32 == first_unit as u32,
{
    if count > 0 {
        char_from_u32(first_unit as u32)
    } else {
        None
    }
}

/// Builds the record of one event seen by the Windows low-level keyboard
/// hook: pressed for the two key-down messages, simulated when the event
/// carries this library's tag.
pub fn windows_key_event(
    vk_code: u32,
    scan_code: u32,
    message: u32,
    extra_info: usize,
    character: Option<char>,
) -> (r: KeyEvent)
    ensures
        r == windows_event(vk_code, scan_code, message, extra_info, character),
{
    KeyEvent {
        char: character,
        key_code: vk_code,
        scan_code,
        is_pressed: message == WM_KEYDOWN || message == WM_SYSKEYDOWN,
        is_simulated: extra_info == SIMULATED_TAG,
    }
}

/// Builds the record of an event seen by the macOS event tap; events other
/// than key-down and key-up give none. The key code field is read as the
/// tap gives it and kept to its low 32 bits; `character` is the event's
/// translation under the active layout, none when there is none.
pub fn mac_key_event(event_type: u32, key_code_field: i64, user_data: i64, character: Option<char>) -> (r:
    Option<KeyEvent>)
    ensures
        r.is_some() == (event_type == MAC_KEY_DOWN || event_type == MAC_KEY_UP),
        r.is_some() ==> r.unwrap() == mac_event(
            key_code_field as u32,
            event_type == MAC_KEY_DOWN,
            user_data,
            character,
        ),
{
    if event_type == MAC_KEY_DOWN || event_type == MAC_KEY_UP {
        let key_code = #[verifier::truncate] (key_code_field as u32);
        Some(
            KeyEvent {
                char: character,
                key_code,
                scan_code: key_code,
                is_pressed: event_type == MAC_KEY_DOWN,
                is_simulated: user_data == SIMULATED_TAG as i64,
            },
        )
    } else {
        None
    }
}

/// Whether the operating system may deliver an event, given whether the
/// handlers it was dispatched to all accepted it. Only a key-down can be
/// swallowed: blocking key-ups would leave keys stuck down.
pub fn hook_decision(is_pressed: bool, accepted: bool) -> (r: HookDecision)
    ensures
        r == (if is_pressed && !accepted {
            HookDecision::Block
        } else {
            HookDecision::Pass
        }),
{
    if is_pressed && !accepted {
        HookDecision::Block
    } else {
        HookDecision::Pass
    }
}

} // verus!

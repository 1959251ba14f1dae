use vstd::prelude::*;

verus! {

/// One normalized key transition, as seen by every subscriber.
#[derive(Debug, Clone, Copy, PartialEq, Eq, Structural)]
pub struct KeyEvent {
    /// Character the key produces under the active layout, if any.
    pub char: Option<char>,
    /// Platform virtual-key code.
    pub key_code: u32,
    /// Platform hardware scan code.
    pub scan_code: u32,
    /// `true` for a key-down transition, `false` for a key-up transition.
    pub is_pressed: bool,
    /// `true` when the transition was injected by this library.
    pub is_simulated: bool,
}

impl KeyEvent {
    pub fn new(
        character: Option<char>,
        key_code: u32,
        scan_code: u32,
        is_pressed: bool,
        is_simulated: bool,
    ) -> (r: Self)
        ensures
            r.char == character,
            r.key_code == key_code,
            r.scan_code == scan_code,
            r.is_pressed == is_pressed,
            r.is_simulated == is_simulated,
    {
        KeyEvent { char: character, key_code, scan_code, is_pressed, is_simulated }
    }
}

} // verus!

use vstd::prelude::*;
use crate::hook::{is_key_down_message, mac_event, windows_event, SIMULATED_TAG};
use crate::keymap::KeyEvent;
use crate::snapshot::{apply_events, key_codes};

verus! {

/// One synthetic transition to be posted to the operating system, carrying
/// the tag by which it is recognised when it comes back.
#[derive(Debug, Clone, Copy, PartialEq, Eq, Structural)]
pub struct Injection {
    pub key_code: u32,
    pub is_pressed: bool,
    pub tag: usize,
}

pub open spec fn injection_of(k: u32, pressed: bool) -> Injection {
    Injection { key_code: k, is_pressed: pressed, tag: SIMULATED_TAG }
}

/// The transitions that synthesize `pressed` (down or up) for each code of
/// `keys`, in order.
pub open spec fn plan_spec(keys: Seq<u32>, pressed: bool) -> Seq<Injection> {
    keys.map_values(|k: u32| injection_of(k, pressed))
}

/// Builds the tagged transitions that press or release each code of `keys`.
pub fn plan(keys: &Vec<u32>, pressed: bool) -> (r: Vec<Injection>)
    ensures
        r@ == plan_spec(keys@, pressed),
{
    let mut r: Vec<Injection> = Vec::new();
    let mut i: usize = 0;
    while i < keys.len()
        invariant
            i <= keys@.len(),
            r@ == plan_spec(keys@.take(i as int), pressed),
        decreases keys@.len() - i,
    {
        r.push(Injection { key_code: keys[i], is_pressed: pressed, tag: SIMULATED_TAG });
        assert(plan_spec(keys@.take(i as int + 1), pressed) =~= plan_spec(keys@.take(i as int), pressed).push(
            injection_of(keys@[i as int], pressed),
        ));
        i = i + 1;
    }
    assert(keys@.take(i as int) == keys@);
    r
}

/// Pressing and then releasing key `keys[i]` by injection gives back, at a
/// Windows hook that sees the tagged events with a key-down and then a
/// key-up message, two records for that key: pressed then released, both
/// marked simulated; and the key is no longer held afterwards.
pub proof fn lemma_injection_round_trip_windows(
    keys: Seq<u32>,
    i: int,
    scan_code: u32,
    down_message: u32,
    up_message: u32,
    down_char: Option<char>,
    up_char: Option<char>,
)
    requires
        0 <= i < keys.len(),
        is_key_down_message(down_message),
        !is_key_down_message(up_message),
    ensures
        ({
            let p = plan_spec(keys, true)[i];
            let q = plan_spec(keys, false)[i];
            let down = windows_event(p.key_code, scan_code, down_message, p.tag, down_char);
            let up = windows_event(q.key_code, scan_code, up_message, q.tag, up_char);
            &&& down.key_code == keys[i] && down.is_pressed && down.is_simulated
            &&& up.key_code == keys[i] && !up.is_pressed && up.is_simulated
            &&& !key_codes(apply_events(Seq::empty(), seq![down, up])).contains(keys[i])
        }),
{
    let p = plan_spec(keys, true)[i];
    let q = plan_spec(keys, false)[i];
    let down = windows_event(p.key_code, scan_code, down_message, p.tag, down_char);
    let up = windows_event(q.key_code, scan_code, up_message, q.tag, up_char);
    let evs = seq![down, up];
    crate::snapshot::lemma_pressed_set(evs);
    assert(evs[1].key_code == keys[i]);
    if crate::snapshot::held_after(evs, keys[i]) {
        let j = choose|j: int|
            0 <= j < evs.len() && #[trigger] evs[j].key_code == keys[i] && evs[j].is_pressed && (forall|m: int|
                j < m < evs.len() ==> #[trigger] evs[m].key_code != keys[i]);
        assert(j == 0 || j == 1);
    }
}

/// The same round trip at a macOS tap, where the tag comes back as the
/// event source's user data.
pub proof fn lemma_injection_round_trip_mac(
    keys: Seq<u32>,
    i: int,
    down_char: Option<char>,
    up_char: Option<char>,
)
    requires
        0 <= i < keys.len(),
    ensures
        ({
            let p = plan_spec(keys, true)[i];
            let q = plan_spec(keys, false)[i];
            let down = mac_event(p.key_code, p.is_pressed, p.tag as i64, down_char);
            let up = mac_event(q.key_code, q.is_pressed, q.tag as i64, up_char);
            &&& down.key_code == keys[i] && down.is_pressed && down.is_simulated
            &&& up.key_code == keys[i] && !up.is_pressed && up.is_simulated
        }),
{
}

} // verus!

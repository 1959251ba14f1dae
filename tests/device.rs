use key_director::callback::{run_key_down, run_key_up, run_keys};
use key_director::device_state::dispatch;
use key_director::hook::{
    hook_decision, mac_key_event, translated_char, windows_key_event, MAC_KEY_DOWN, MAC_KEY_UP,
    SIMULATED_TAG, WM_KEYDOWN, WM_KEYUP, WM_SYSKEYDOWN, WM_SYSKEYUP,
};
use key_director::{
    CallbackKind, DeviceEvents, DeviceQuery, DeviceState, EventLoop, HookDecision, Injection,
    KeyEvent, KeyboardCallbacks, KeySnapshot,
};
use std::cell::RefCell;
use std::rc::Rc;
use std::sync::Arc;

type KeyCb = Box<dyn Fn(&KeyEvent) -> bool>;
type KeysCb = Box<dyn Fn(Vec<KeyEvent>) -> bool>;

fn down(k: u32) -> KeyEvent {
    KeyEvent::new(None, k, k, true, false)
}

fn up(k: u32) -> KeyEvent {
    KeyEvent::new(None, k, k, false, false)
}

fn codes(v: &[KeyEvent]) -> Vec<u32> {
    v.iter().map(|e| e.key_code).collect()
}

fn recorder(log: &Rc<RefCell<Vec<String>>>, name: &str, answer: bool) -> KeyCb {
    let log = log.clone();
    let name = name.to_string();
    Box::new(move |e: &KeyEvent| {
        log.borrow_mut().push(format!("{}:{}", name, e.key_code));
        answer
    })
}

fn key_handler(f: impl Fn(&KeyEvent) -> bool + 'static) -> Arc<KeyCb> {
    let b: KeyCb = Box::new(f);
    Arc::new(b)
}

fn state() -> DeviceState<KeyCb, KeysCb> {
    DeviceState::new()
}

#[test]
fn key_event_new_keeps_fields() {
    let e = KeyEvent::new(Some('a'), 65, 30, true, false);
    assert_eq!(e.char, Some('a'));
    assert_eq!(e.key_code, 65);
    assert_eq!(e.scan_code, 30);
    assert!(e.is_pressed);
    assert!(!e.is_simulated);
}

#[test]
fn get_keys_tracks_press_and_release() {
    let mut s = state();
    assert_eq!(s.handle_event(down(65)), HookDecision::Pass);
    assert_eq!(s.handle_event(down(66)), HookDecision::Pass);
    let keys = codes(&s.get_keys());
    assert!(keys.contains(&65) && keys.contains(&66));
    assert_eq!(keys.len(), 2);
    s.handle_event(up(65));
    assert_eq!(codes(&s.get_keys()), vec![66]);
    s.handle_event(up(66));
    assert!(s.get_keys().is_empty());
}

#[test]
fn get_keys_twice_is_the_same() {
    let mut s = state();
    s.handle_event(down(10));
    s.handle_event(down(20));
    let a = s.get_keys();
    let b = s.get_keys();
    assert_eq!(a, b);
    let c = DeviceQuery::get_keys(&s);
    assert_eq!(a, c);
}

#[test]
fn repeated_press_keeps_one_record_latest_last() {
    let mut snap = KeySnapshot::new();
    snap.apply(&down(1));
    snap.apply(&down(2));
    let again = KeyEvent::new(Some('x'), 1, 99, true, true);
    snap.apply(&again);
    assert_eq!(snap.get_keys(), vec![down(2), again]);
    assert!(snap.is_pressed(1));
    assert!(!snap.is_pressed(3));
}

#[test]
fn release_of_unpressed_key_changes_nothing() {
    let mut snap = KeySnapshot::new();
    snap.apply(&down(7));
    snap.apply(&up(8));
    assert_eq!(snap.get_keys(), vec![down(7)]);
}

#[test]
fn key_down_false_stops_later_handlers_and_blocks() {
    let log = Rc::new(RefCell::new(Vec::new()));
    let mut s = state();
    let _a = s.on_key_down(recorder(&log, "a", true));
    let _b = s.on_key_down(recorder(&log, "b", false));
    let _c = s.on_key_down(recorder(&log, "c", true));
    assert_eq!(s.handle_event(down(65)), HookDecision::Block);
    assert_eq!(*log.borrow(), vec!["a:65", "b:65"]);
}

#[test]
fn key_down_refusal_does_not_affect_next_event() {
    let log = Rc::new(RefCell::new(Vec::new()));
    let mut s = state();
    let l2 = log.clone();
    let _g = s.on_key_down(Box::new(move |e: &KeyEvent| {
        l2.borrow_mut().push(format!("first:{}", e.key_code));
        e.key_code != 65
    }));
    let _h = s.on_key_down(recorder(&log, "second", true));
    assert_eq!(s.handle_event(down(65)), HookDecision::Block);
    assert_eq!(s.handle_event(down(66)), HookDecision::Pass);
    assert_eq!(*log.borrow(), vec!["first:65", "first:66", "second:66"]);
}

#[test]
fn key_up_false_neither_blocks_nor_stops() {
    let log = Rc::new(RefCell::new(Vec::new()));
    let mut s = state();
    let _a = s.on_key_up(recorder(&log, "a", false));
    let _b = s.on_key_up(recorder(&log, "b", true));
    s.handle_event(down(65));
    assert_eq!(s.handle_event(up(65)), HookDecision::Pass);
    assert_eq!(*log.borrow(), vec!["a:65", "b:65"]);
}

#[test]
fn unguarded_callback_runs_first_and_can_block() {
    let log = Rc::new(RefCell::new(Vec::new()));
    let mut s = state();
    let _g = s.on_key_down(recorder(&log, "sub", true));
    s.add_callback(recorder(&log, "global", false));
    assert_eq!(s.handle_event(down(3)), HookDecision::Block);
    assert_eq!(*log.borrow(), vec!["global:3"]);
    assert_eq!(s.handle_event(up(3)), HookDecision::Pass);
}

#[test]
fn released_guard_is_not_invoked() {
    let log = Rc::new(RefCell::new(Vec::new()));
    let mut s = state();
    let a = s.on_key_down(recorder(&log, "a", true));
    let _b = s.on_key_down(recorder(&log, "b", true));
    s.handle_event(down(1));
    s.unsubscribe(a);
    s.handle_event(down(2));
    assert_eq!(*log.borrow(), vec!["a:1", "b:1", "b:2"]);
}

#[test]
fn many_guards_registered_and_dropped_between_events() {
    let count = Rc::new(RefCell::new(0u32));
    let mut s = state();
    let mut guards = Vec::new();
    for round in 0..50u32 {
        let c = count.clone();
        guards.push(s.on_key_down(Box::new(move |_: &KeyEvent| {
            *c.borrow_mut() += 1;
            true
        })));
        if round % 2 == 1 {
            let g = guards.remove(0);
            s.unsubscribe(g);
        }
        *count.borrow_mut() = 0;
        s.handle_event(down(round));
        assert_eq!(*count.borrow() as usize, guards.len());
    }
}

#[test]
fn guard_ids_follow_registration_order() {
    let mut l: EventLoop<KeyCb, KeysCb> = EventLoop::new();
    let a = l.on_key_down(Box::new(|_: &KeyEvent| true));
    let b = l.on_key_up(Box::new(|_: &KeyEvent| true));
    let c = l.on_keys(Box::new(|_: Vec<KeyEvent>| true));
    assert_eq!((a.kind(), a.id()), (CallbackKind::KeyDown, 0));
    assert_eq!((b.kind(), b.id()), (CallbackKind::KeyUp, 1));
    assert_eq!((c.kind(), c.id()), (CallbackKind::Keys, 2));
}

#[test]
fn registry_push_release_and_run() {
    let log = Rc::new(RefCell::new(Vec::new()));
    let mut r: KeyboardCallbacks<KeyCb, KeysCb> = KeyboardCallbacks::new();
    assert!(r.can_register());
    let g1 = r.push_key_down(Arc::new(recorder(&log, "one", true)));
    let _g2 = r.push_key_down(Arc::new(recorder(&log, "two", true)));
    let _g3 = r.push_key_up(Arc::new(recorder(&log, "up", false)));
    assert!(r.run_key_down(&down(9)));
    r.release(g1);
    assert!(r.run_key_down(&down(9)));
    assert_eq!(r.run_key_up(&up(9)), vec![false]);
    assert_eq!(*log.borrow(), vec!["one:9", "two:9", "two:9", "up:9"]);
    assert_eq!(r.live_key_down().len(), 1);
}

#[test]
fn batch_subscribers_get_held_keys() {
    let seen = Rc::new(RefCell::new(Vec::new()));
    let mut s = state();
    let s2 = seen.clone();
    let _g = s.subscribe_keys(Box::new(move |v: Vec<KeyEvent>| {
        s2.borrow_mut().push(codes(&v));
        false
    }));
    assert_eq!(s.handle_event(down(4)), HookDecision::Pass);
    s.handle_event(down(5));
    s.handle_event(up(4));
    assert_eq!(*seen.borrow(), vec![vec![4], vec![4, 5], vec![5]]);
}

#[test]
fn run_functions_on_plain_lists() {
    let hs: Vec<Arc<KeyCb>> = vec![
        key_handler(|e: &KeyEvent| e.key_code < 10),
        key_handler(|_: &KeyEvent| true),
    ];
    assert!(run_key_down(&hs, &down(3)));
    assert!(!run_key_down(&hs, &down(30)));
    assert_eq!(run_key_up(&hs, &up(30)), vec![false, true]);
    let empty: Vec<Arc<KeyCb>> = Vec::new();
    assert!(run_key_down(&empty, &down(1)));
    let small: KeysCb = Box::new(|v: Vec<KeyEvent>| v.len() < 2);
    let bs: Vec<Arc<KeysCb>> = vec![Arc::new(small)];
    assert!(run_keys(&bs, &vec![down(1)]));
    assert!(!run_keys(&bs, &vec![down(1), down(2)]));
}

#[test]
fn prepared_dispatch_runs_outside_the_state() {
    let log = Rc::new(RefCell::new(Vec::new()));
    let mut s = state();
    s.add_callback(recorder(&log, "g", true));
    let _d = s.on_key_down(recorder(&log, "d", true));
    let _u = s.on_key_up(recorder(&log, "u", true));
    let d = s.prepare_dispatch(down(8));
    assert_eq!(d.handlers.len(), 2);
    assert_eq!(codes(&d.keys), vec![8]);
    assert_eq!(dispatch(&d), HookDecision::Pass);
    let u = s.prepare_dispatch(up(8));
    assert_eq!(u.handlers.len(), 2);
    assert!(u.keys.is_empty());
    assert_eq!(dispatch(&u), HookDecision::Pass);
    assert_eq!(*log.borrow(), vec!["g:8", "d:8", "g:8", "u:8"]);
}

#[test]
fn checked_new_depends_on_permission() {
    let denied: Option<DeviceState<KeyCb, KeysCb>> = DeviceState::checked_new(false);
    assert!(denied.is_none());
    let granted: Option<DeviceState<KeyCb, KeysCb>> = DeviceState::checked_new(true);
    let granted = granted.unwrap();
    assert!(granted.get_keys().is_empty());
    assert!(granted.can_subscribe());
}

#[test]
fn hook_decision_blocks_only_refused_key_down() {
    assert_eq!(hook_decision(true, false), HookDecision::Block);
    assert_eq!(hook_decision(true, true), HookDecision::Pass);
    assert_eq!(hook_decision(false, false), HookDecision::Pass);
    assert_eq!(hook_decision(false, true), HookDecision::Pass);
}

#[test]
fn windows_messages_and_tag() {
    let e = windows_key_event(65, 30, WM_KEYDOWN, 0, Some('a'));
    assert_eq!(e, KeyEvent::new(Some('a'), 65, 30, true, false));
    assert!(windows_key_event(65, 30, WM_SYSKEYDOWN, 0, None).is_pressed);
    assert!(!windows_key_event(65, 30, WM_KEYUP, 0, None).is_pressed);
    assert!(!windows_key_event(65, 30, WM_SYSKEYUP, 0, None).is_pressed);
    assert!(windows_key_event(65, 30, WM_KEYUP, SIMULATED_TAG, None).is_simulated);
    assert!(!windows_key_event(65, 30, WM_KEYUP, 7, None).is_simulated);
}

#[test]
fn translated_char_cases() {
    assert_eq!(translated_char(1, 97), Some('a'));
    assert_eq!(translated_char(2, 0x00e9), Some('\u{e9}'));
    assert_eq!(translated_char(0, 97), None);
    assert_eq!(translated_char(-1, 97), None);
    assert_eq!(translated_char(1, 0xd800), None);
}

#[test]
fn mac_event_types() {
    assert_eq!(mac_key_event(MAC_KEY_DOWN, 12, 0, None), Some(KeyEvent::new(None, 12, 12, true, false)));
    assert_eq!(mac_key_event(MAC_KEY_UP, 12, 1, None), Some(KeyEvent::new(None, 12, 12, false, true)));
    assert_eq!(mac_key_event(12, 12, 0, Some('q')), None);
    assert_eq!(mac_key_event(MAC_KEY_DOWN, 0x1_0000_0005, 0, None).unwrap().key_code, 5);
}

#[test]
fn injection_round_trip() {
    let s = state();
    let p = s.press(vec![65]);
    let r = s.release(vec![65]);
    assert_eq!(p, vec![Injection { key_code: 65, is_pressed: true, tag: SIMULATED_TAG }]);
    assert_eq!(r, vec![Injection { key_code: 65, is_pressed: false, tag: SIMULATED_TAG }]);
    let seen = Rc::new(RefCell::new(Vec::new()));
    let mut s = state();
    let s2 = seen.clone();
    s.add_callback(Box::new(move |e: &KeyEvent| {
        s2.borrow_mut().push(*e);
        true
    }));
    let back_down = windows_key_event(p[0].key_code, 30, WM_KEYDOWN, p[0].tag, Some('a'));
    let back_up = windows_key_event(r[0].key_code, 30, WM_KEYUP, r[0].tag, Some('a'));
    s.handle_event(back_down);
    assert_eq!(codes(&s.get_keys()), vec![65]);
    s.handle_event(back_up);
    assert!(s.get_keys().is_empty());
    let seen = seen.borrow();
    assert_eq!(seen.len(), 2);
    assert!(seen.iter().all(|e| e.key_code == 65 && e.is_simulated));
    assert!(seen[0].is_pressed && !seen[1].is_pressed);
}

#[test]
fn press_of_several_keys_keeps_order() {
    let s = state();
    let p = s.press(vec![3, 1, 2]);
    assert_eq!(p.iter().map(|i| i.key_code).collect::<Vec<_>>(), vec![3, 1, 2]);
    assert!(p.iter().all(|i| i.is_pressed && i.tag == SIMULATED_TAG));
    assert!(s.release(vec![]).is_empty());
}

#[test]
fn mac_event_keeps_translated_character() {
    assert_eq!(mac_key_event(MAC_KEY_DOWN, 0, 0, Some('a')), Some(KeyEvent::new(Some('a'), 0, 0, true, false)));
    assert_eq!(mac_key_event(MAC_KEY_UP, 0, 0, Some('A')).unwrap().char, Some('A'));
}

#[test]
fn repeats_dispatched_by_default() {
    let log = Rc::new(RefCell::new(Vec::new()));
    let mut s = state();
    let _g = s.on_key_down(recorder(&log, "d", false));
    assert_eq!(s.handle_event(down(5)), HookDecision::Block);
    assert_eq!(s.handle_event(down(5)), HookDecision::Block);
    assert_eq!(*log.borrow(), vec!["d:5", "d:5"]);
}

#[test]
fn repeats_muted_are_recorded_only() {
    let log = Rc::new(RefCell::new(Vec::new()));
    let seen = Rc::new(RefCell::new(0u32));
    let mut s = state();
    s.set_emit_repeats(false);
    let _g = s.on_key_down(recorder(&log, "d", false));
    let s2 = seen.clone();
    let _k = s.subscribe_keys(Box::new(move |_: Vec<KeyEvent>| {
        *s2.borrow_mut() += 1;
        true
    }));
    assert_eq!(s.handle_event(down(5)), HookDecision::Block);
    let again = KeyEvent::new(Some('r'), 5, 5, true, false);
    assert_eq!(s.handle_event(again), HookDecision::Pass);
    assert_eq!(s.get_keys(), vec![again]);
    assert_eq!(s.handle_event(up(5)), HookDecision::Pass);
    assert_eq!(s.handle_event(down(5)), HookDecision::Block);
    assert_eq!(*log.borrow(), vec!["d:5", "d:5"]);
    assert_eq!(*seen.borrow(), 3);
}

#[test]
fn released_key_up_guard_leaves_the_others() {
    let log = Rc::new(RefCell::new(Vec::new()));
    let mut s = state();
    let _a = s.on_key_up(recorder(&log, "a", false));
    let b = s.on_key_up(recorder(&log, "b", false));
    let _c = s.on_key_up(recorder(&log, "c", true));
    s.unsubscribe(b);
    assert_eq!(s.handle_event(up(1)), HookDecision::Pass);
    assert_eq!(*log.borrow(), vec!["a:1", "c:1"]);
}

#[test]
fn batch_stops_at_first_refusal() {
    let log = Rc::new(RefCell::new(Vec::new()));
    let mut s = state();
    let l1 = log.clone();
    let _a = s.subscribe_keys(Box::new(move |v: Vec<KeyEvent>| {
        l1.borrow_mut().push(format!("a{}", v.len()));
        false
    }));
    let l2 = log.clone();
    let _b = s.subscribe_keys(Box::new(move |v: Vec<KeyEvent>| {
        l2.borrow_mut().push(format!("b{}", v.len()));
        true
    }));
    s.handle_event(down(1));
    s.handle_event(down(2));
    assert_eq!(*log.borrow(), vec!["a1", "a2"]);
}

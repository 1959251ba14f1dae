use key_director::differ::{diff_keys, pressed_codes, KeyPoller};
use key_director::KeyEvent;

fn polled(k: u32, pressed: bool) -> KeyEvent {
    KeyEvent::new(None, k, k, pressed, false)
}

#[test]
fn differ_release_and_press() {
    let a = 65;
    let b = 66;
    let c = 67;
    let r = diff_keys(&vec![a, b], &vec![b, c]);
    assert_eq!(r.len(), 2);
    assert_eq!(r.iter().filter(|e| **e == polled(a, false)).count(), 1);
    assert_eq!(r.iter().filter(|e| **e == polled(c, true)).count(), 1);
    assert_eq!(r, vec![polled(a, false), polled(c, true)]);
}

#[test]
fn differ_same_snapshots_give_nothing() {
    assert!(diff_keys(&vec![1, 2], &vec![2, 1]).is_empty());
    assert!(diff_keys(&vec![], &vec![]).is_empty());
}

#[test]
fn differ_from_and_to_empty() {
    assert_eq!(diff_keys(&vec![], &vec![4, 5]), vec![polled(4, true), polled(5, true)]);
    assert_eq!(diff_keys(&vec![4, 5], &vec![]), vec![polled(4, false), polled(5, false)]);
}

#[test]
fn pressed_codes_keeps_pressed_entries() {
    assert_eq!(pressed_codes(&vec![(1, true), (2, false), (3, true)]), vec![1, 3]);
    assert!(pressed_codes(&vec![]).is_empty());
}

#[test]
fn poller_reports_transitions_between_ticks() {
    let mut p = KeyPoller::new();
    assert_eq!(p.tick(&vec![(10, true), (11, false)]), vec![polled(10, true)]);
    assert!(p.tick(&vec![(10, true)]).is_empty());
    assert_eq!(p.tick(&vec![(10, false), (11, true)]), vec![polled(10, false), polled(11, true)]);
    assert_eq!(p.tick(&vec![]), vec![polled(11, false)]);
}

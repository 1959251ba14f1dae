use vstd::prelude::*;
use crate::keymap::KeyEvent;

verus! {

/// The codes of `a` that `b` does not hold, in the order of `a`.
pub open spec fn keys_missing_from(a: Seq<u32>, b: Seq<u32>) -> Seq<u32>
    decreases a.len(),
{
    if a.len() == 0 {
        a
    } else {
        let rest = keys_missing_from(a.drop_last(), b);
        if b.contains(a.last()) {
            rest
        } else {
            rest.push(a.last())
        }
    }
}

/// The codes whose entry in a sampled keymap says "pressed", in order.
pub open spec fn pressed_of(keymap: Seq<(u32, bool)>) -> Seq<u32>
    decreases keymap.len(),
{
    if keymap.len() == 0 {
        Seq::empty()
    } else {
        let rest = pressed_of(keymap.drop_last());
        if keymap.last().1 {
            rest.push(keymap.last().0)
        } else {
            rest
        }
    }
}

/// The record of a transition seen by sampling: no character, and the key
/// code stands in for the scan code, which sampling does not give.
pub open spec fn polled_event(k: u32, pressed: bool) -> KeyEvent {
    KeyEvent { char: None, key_code: k, scan_code: k, is_pressed: pressed, is_simulated: false }
}

/// A transition of direction `pressed` for each code of `ks`, in order.
pub open spec fn polled_events(ks: Seq<u32>, pressed: bool) -> Seq<KeyEvent> {
    ks.map_values(|k: u32| polled_event(k, pressed))
}

/// The transitions between two samples: a release for each key held before
/// and not now, then a press for each key held now and not before.
pub open spec fn diff_spec(prev: Seq<u32>, curr: Seq<u32>) -> Seq<KeyEvent> {
    polled_events(keys_missing_from(prev, curr), false) + polled_events(keys_missing_from(curr, prev), true)
}

pub proof fn lemma_keys_missing_from(a: Seq<u32>, b: Seq<u32>)
    ensures
        forall|k: u32| #[trigger] keys_missing_from(a, b).contains(k) <==> (a.contains(k) && !b.contains(k)),
        a.no_duplicates() ==> keys_missing_from(a, b).no_duplicates(),
    decreases a.len(),
{
    if a.len() > 0 {
        let p = a.drop_last();
        lemma_keys_missing_from(p, b);
        let rest = keys_missing_from(p, b);
        let r = keys_missing_from(a, b);
        assert(a == p.push(a.last()));
        assert forall|k: u32| #[trigger] r.contains(k) <==> (a.contains(k) && !b.contains(k)) by {
            if a.contains(k) && !b.contains(k) {
                let i = choose|i: int| 0 <= i < a.len() && a[i] == k;
                if i < a.len() - 1 {
                    assert(p[i] == a[i]);
                    assert(p.contains(k));
                    assert(rest.contains(k));
                    let j = choose|j: int| 0 <= j < rest.len() && rest[j] == k;
                    assert(r[j] == k);
                } else {
                    assert(r[r.len() - 1] == k);
                }
            }
            if r.contains(k) {
                let j = choose|j: int| 0 <= j < r.len() && r[j] == k;
                if j < rest.len() {
                    assert(rest[j] == k);
                    assert(rest.contains(k));
                    let i = choose|i: int| 0 <= i < p.len() && p[i] == k;
                    assert(a[i] == k);
                } else {
                    assert(a[a.len() - 1] == k);
                }
            }
        }
        if a.no_duplicates() {
            assert(p.no_duplicates()) by {
                assert forall|i: int, j: int| 0 <= i < p.len() && 0 <= j < p.len() && i != j implies p[i]
                    != p[j] by {
                    assert(a[i] == p[i] && a[j] == p[j]);
                }
            }
            if !b.contains(a.last()) {
                assert(!rest.contains(a.last())) by {
                    if rest.contains(a.last()) {
                        let i = choose|i: int| 0 <= i < p.len() && p[i] == a.last();
                        assert(a[i] == a[a.len() - 1]);
                    }
                }
                assert forall|i: int, j: int| 0 <= i < r.len() && 0 <= j < r.len() && i != j implies r[i]
                    != r[j] by {
                    if i < rest.len() && j < rest.len() {
                        assert(r[i] == rest[i] && r[j] == rest[j]);
                    } else if i < rest.len() {
                        assert(rest.contains(rest[i]));
                    } else {
                        assert(rest.contains(rest[j]));
                    }
                }
            }
        }
    }
}

proof fn lemma_polled_map(ks: Seq<u32>, pressed: bool)
    requires
        ks.no_duplicates(),
    ensures
        polled_events(ks, pressed).no_duplicates(),
        polled_events(ks, pressed).len() == ks.len(),
        forall|e: KeyEvent| #[trigger] polled_events(ks, pressed).contains(e) <==> (
        ks.contains(e.key_code) && e == polled_event(e.key_code, pressed)),
{
    let m = polled_events(ks, pressed);
    assert forall|e: KeyEvent| #[trigger] m.contains(e) <==> (ks.contains(e.key_code) && e == polled_event(
        e.key_code,
        pressed,
    )) by {
        if m.contains(e) {
            let i = choose|i: int| 0 <= i < m.len() && m[i] == e;
            assert(ks[i] == e.key_code);
        }
        if ks.contains(e.key_code) && e == polled_event(e.key_code, pressed) {
            let i = choose|i: int| 0 <= i < ks.len() && ks[i] == e.key_code;
            assert(m[i] == e);
        }
    }
    assert forall|i: int, j: int| 0 <= i < m.len() && 0 <= j < m.len() && i != j implies m[i] != m[j] by {
        assert(m[i].key_code == ks[i] && m[j].key_code == ks[j]);
    }
}

proof fn lemma_missing_cardinality(a: Seq<u32>, b: Seq<u32>)
    requires
        a.no_duplicates(),
    ensures
        keys_missing_from(a, b).len() == a.to_set().difference(b.to_set()).len(),
{
    lemma_keys_missing_from(a, b);
    let r = keys_missing_from(a, b);
    r.unique_seq_to_set();
    assert(r.to_set() =~= a.to_set().difference(b.to_set()));
}

/// For two samples that each hold a key at most once, the differ reports
/// each key that changed exactly once, with the right direction, and
/// nothing else: a release for each key held before and not now, a press
/// for each key held now and not before. So it reports as many transitions
/// as the two samples differ in keys.
pub proof fn lemma_diff_sets(prev: Seq<u32>, curr: Seq<u32>)
    requires
        prev.no_duplicates(),
        curr.no_duplicates(),
    ensures
        diff_spec(prev, curr).no_duplicates(),
        forall|e: KeyEvent| #[trigger] diff_spec(prev, curr).contains(e) <==> ((e == polled_event(
            e.key_code,
            false,
        ) && prev.contains(e.key_code) && !curr.contains(e.key_code)) || (e == polled_event(e.key_code, true)
            && curr.contains(e.key_code) && !prev.contains(e.key_code))),
        diff_spec(prev, curr).len() == prev.to_set().difference(curr.to_set()).len() + curr.to_set().difference(
            prev.to_set(),
        ).len(),
{
    let ups = keys_missing_from(prev, curr);
    let downs = keys_missing_from(curr, prev);
    lemma_keys_missing_from(prev, curr);
    lemma_keys_missing_from(curr, prev);
    lemma_polled_map(ups, false);
    lemma_polled_map(downs, true);
    lemma_missing_cardinality(prev, curr);
    lemma_missing_cardinality(curr, prev);
    let mu = polled_events(ups, false);
    let md = polled_events(downs, true);
    let d = diff_spec(prev, curr);
    assert(d == mu + md);
    assert forall|e: KeyEvent| #[trigger] d.contains(e) <==> (mu.contains(e) || md.contains(e)) by {
        if d.contains(e) {
            let i = choose|i: int| 0 <= i < d.len() && d[i] == e;
            if i < mu.len() {
                assert(mu[i] == e);
            } else {
                assert(md[i - mu.len()] == e);
            }
        }
        if mu.contains(e) {
            let i = choose|i: int| 0 <= i < mu.len() && mu[i] == e;
            assert(d[i] == e);
        }
        if md.contains(e) {
            let i = choose|i: int| 0 <= i < md.len() && md[i] == e;
            assert(d[i + mu.len()] == e);
        }
    }
    assert forall|i: int, j: int| 0 <= i < d.len() && 0 <= j < d.len() && i != j implies d[i] != d[j] by {
        if i < mu.len() && j < mu.len() {
            assert(d[i] == mu[i] && d[j] == mu[j]);
        } else if i >= mu.len() && j >= mu.len() {
            assert(d[i] == md[i - mu.len()] && d[j] == md[j - mu.len()]);
        } else if i < mu.len() {
            assert(mu.contains(d[i]));
            assert(md.contains(d[j]));
        } else {
            assert(md.contains(d[i]));
            assert(mu.contains(d[j]));
        }
    }
}

fn contains_key(keys: &Vec<u32>, k: u32) -> (r: bool)
    ensures
        r == keys@.contains(k),
{
    let mut i: usize = 0;
    while i < keys.len()
        invariant
            i <= keys@.len(),
            forall|j: int| 0 <= j < i ==> keys@[j] != k,
        decreases keys@.len() - i,
    {
        if keys[i] == k {
            return true;
        }
        i = i + 1;
    }
    false
}

fn push_missing(out: &mut Vec<KeyEvent>, a: &Vec<u32>, b: &Vec<u32>, pressed: bool)
    ensures
        final(out)@ == old(out)@ + polled_events(keys_missing_from(a@, b@), pressed),
{
    let ghost start = out@;
    let mut i: usize = 0;
    while i < a.len()
        invariant
            i <= a@.len(),
            out@ == start + polled_events(keys_missing_from(a@.take(i as int), b@), pressed),
        decreases a@.len() - i,
    {
        assert(a@.take(i as int + 1).drop_last() == a@.take(i as int));
        let k = a[i];
        let ghost before = keys_missing_from(a@.take(i as int), b@);
        if !contains_key(b, k) {
            out.push(KeyEvent { char: None, key_code: k, scan_code: k, is_pressed: pressed, is_simulated: false });
            assert(polled_events(before.push(k), pressed) =~= polled_events(before, pressed).push(
                polled_event(k, pressed),
            ));
        }
        i = i + 1;
    }
    assert(a@.take(i as int) == a@);
}

/// Computes the transitions between the previously sampled pressed keys and
/// the current ones: releases first, in the order of `prev`, then presses,
/// in the order of `curr`. A key pressed and released between two samples
/// is not seen.
pub fn diff_keys(prev: &Vec<u32>, curr: &Vec<u32>) -> (r: Vec<KeyEvent>)
    ensures
        r@ == diff_spec(prev@, curr@),
{
    let mut r: Vec<KeyEvent> = Vec::new();
    push_missing(&mut r, prev, curr, false);
    push_missing(&mut r, curr, prev, true);
    r
}

/// The codes that a sampled keymap reports pressed.
pub fn pressed_codes(keymap: &Vec<(u32, bool)>) -> (r: Vec<u32>)
    ensures
        r@ == pressed_of(keymap@),
{
    let mut r: Vec<u32> = Vec::new();
    let mut i: usize = 0;
    while i < keymap.len()
        invariant
            i <= keymap@.len(),
            r@ == pressed_of(keymap@.take(i as int)),
        decreases keymap@.len() - i,
    {
        assert(keymap@.take(i as int + 1).drop_last() == keymap@.take(i as int));
        let (k, down) = keymap[i];
        if down {
            r.push(k);
        }
        i = i + 1;
    }
    assert(keymap@.take(i as int) == keymap@);
    r
}

/// The polling capture source: remembers the keys held at the last sample.
pub struct KeyPoller {
    previous: Vec<u32>,
}

impl KeyPoller {
    pub closed spec fn previous(&self) -> Seq<u32> {
        self.previous@
    }

    /// A poller that has seen no key held.
    pub fn new() -> (r: Self)
        ensures
            r.previous() == Seq::<u32>::empty(),
    {
        KeyPoller { previous: Vec::new() }
    }

    /// Takes one sample of the keymap and returns the transitions since the
    /// previous one.
    pub fn tick(&mut self, keymap: &Vec<(u32, bool)>) -> (r: Vec<KeyEvent>)
        ensures
            final(self).previous() == pressed_of(keymap@),
            r@ == diff_spec(old(self).previous(), pressed_of(keymap@)),
    {
        let curr = pressed_codes(keymap);
        let r = diff_keys(&self.previous, &curr);
        self.previous = curr;
        r
    }
}

} // verus!

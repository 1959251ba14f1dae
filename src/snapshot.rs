use vstd::prelude::*;
use crate::keymap::KeyEvent;

verus! {

/// `s` with every record for key `k` taken out, the rest in order.
pub open spec fn without_key(s: Seq<KeyEvent>, k: u32) -> Seq<KeyEvent>
    decreases s.len(),
{
    if s.len() == 0 {
        s
    } else {
        let rest = without_key(s.drop_last(), k);
        if s.last().key_code == k {
            rest
        } else {
            rest.push(s.last())
        }
    }
}

/// The pressed-key records after one transition: a press becomes the most
/// recent entry for its key, a release drops the key.
pub open spec fn apply_event(s: Seq<KeyEvent>, e: KeyEvent) -> Seq<KeyEvent> {
    if e.is_pressed {
        without_key(s, e.key_code).push(e)
    } else {
        without_key(s, e.key_code)
    }
}

/// The pressed-key records after a whole run of transitions, oldest first.
pub open spec fn apply_events(s: Seq<KeyEvent>, evs: Seq<KeyEvent>) -> Seq<KeyEvent>
    decreases evs.len(),
{
    if evs.len() == 0 {
        s
    } else {
        apply_event(apply_events(s, evs.drop_last()), evs.last())
    }
}

/// The key codes that have a record in `s`.
pub open spec fn key_codes(s: Seq<KeyEvent>) -> Set<u32> {
    Set::new(|k: u32| exists|i: int| 0 <= i < s.len() && #[trigger] s[i].key_code == k)
}

/// No two records of `s` are for the same key.
pub open spec fn unique_keys(s: Seq<KeyEvent>) -> bool {
    forall|i: int, j: int|
        0 <= i < s.len() && 0 <= j < s.len() && #[trigger] s[i].key_code == #[trigger] s[j].key_code
            ==> i == j
}

/// The most recent transition of key `k` in `evs` is a press.
pub open spec fn held_after(evs: Seq<KeyEvent>, k: u32) -> bool {
    exists|i: int|
        0 <= i < evs.len() && #[trigger] evs[i].key_code == k && evs[i].is_pressed && (forall|j: int|
            i < j < evs.len() ==> #[trigger] evs[j].key_code != k)
}

pub proof fn lemma_without_key(s: Seq<KeyEvent>, k: u32)
    ensures
        forall|e: KeyEvent| #[trigger] without_key(s, k).contains(e) <==> (s.contains(e) && e.key_code != k),
        unique_keys(s) ==> unique_keys(without_key(s, k)),
        !key_codes(s).contains(k) ==> without_key(s, k) == s,
    decreases s.len(),
{
    if s.len() > 0 {
        let p = s.drop_last();
        lemma_without_key(p, k);
        assert(s == p.push(s.last()));
        assert forall|e: KeyEvent| #[trigger] without_key(s, k).contains(e) <==> (s.contains(e)
            && e.key_code != k) by {
            let w = without_key(s, k);
            let rest = without_key(p, k);
            if s.contains(e) && e.key_code != k {
                let i = choose|i: int| 0 <= i < s.len() && s[i] == e;
                if i < s.len() - 1 {
                    assert(p[i] == e);
                    assert(p.contains(e));
                    assert(rest.contains(e));
                    let j = choose|j: int| 0 <= j < rest.len() && rest[j] == e;
                    assert(w[j] == e);
                } else {
                    assert(w[w.len() - 1] == e);
                }
            }
            if without_key(s, k).contains(e) {
                if without_key(p, k).contains(e) {
                    let i = choose|i: int| 0 <= i < p.len() && p[i] == e;
                    assert(s[i] == e);
                } else {
                    assert(s[s.len() - 1] == e);
                }
            }
        }
        if unique_keys(s) {
            assert(unique_keys(p));
            let r = without_key(p, k);
            if s.last().key_code != k {
                assert forall|i: int| 0 <= i < r.len() implies r[i].key_code != s.last().key_code by {
                    assert(r.contains(r[i]));
                    let j = choose|j: int| 0 <= j < p.len() && p[j] == r[i];
                    assert(s[j] == p[j]);
                }
            }
        }
        if !key_codes(s).contains(k) {
            assert(!key_codes(p).contains(k)) by {
                if key_codes(p).contains(k) {
                    let i = choose|i: int| 0 <= i < p.len() && p[i].key_code == k;
                    assert(s[i].key_code == k);
                }
            }
            assert(s[s.len() - 1].key_code != k);
        }
    }
}

pub proof fn lemma_key_codes_without_key(s: Seq<KeyEvent>, k: u32)
    ensures
        key_codes(without_key(s, k)) == key_codes(s).remove(k),
{
    lemma_without_key(s, k);
    let r = without_key(s, k);
    assert forall|x: u32| #[trigger] key_codes(r).contains(x) <==> key_codes(s).remove(k).contains(x) by {
        if key_codes(r).contains(x) {
            let i = choose|i: int| 0 <= i < r.len() && r[i].key_code == x;
            assert(r.contains(r[i]));
            let j = choose|j: int| 0 <= j < s.len() && s[j] == r[i];
            assert(s[j].key_code == x);
        }
        if key_codes(s).remove(k).contains(x) {
            let i = choose|i: int| 0 <= i < s.len() && s[i].key_code == x;
            assert(s.contains(s[i]));
            assert(r.contains(s[i]));
            let j = choose|j: int| 0 <= j < r.len() && r[j] == s[i];
            assert(r[j].key_code == x);
        }
    }
    assert(key_codes(r) =~= key_codes(s).remove(k));
}

/// Starting from no pressed keys, after any run of press and release
/// transitions the snapshot holds exactly the keys whose most recent
/// transition was a press, one record per key.
pub proof fn lemma_pressed_set(evs: Seq<KeyEvent>)
    ensures
        unique_keys(apply_events(Seq::empty(), evs)),
        forall|k: u32| #[trigger] key_codes(apply_events(Seq::empty(), evs)).contains(k) <==> held_after(evs, k),
    decreases evs.len(),
{
    if evs.len() > 0 {
        let p = evs.drop_last();
        let e = evs.last();
        lemma_pressed_set(p);
        let before = apply_events(Seq::empty(), p);
        lemma_without_key(before, e.key_code);
        lemma_key_codes_without_key(before, e.key_code);
        let w = without_key(before, e.key_code);
        let after = apply_events(Seq::empty(), evs);
        assert(after == apply_event(before, e));
        if e.is_pressed {
            assert(unique_keys(after)) by {
                assert forall|i: int| 0 <= i < w.len() implies w[i].key_code != e.key_code by {
                    assert(w.contains(w[i]));
                }
            }
        }
        assert forall|k: u32| #[trigger] key_codes(after).contains(k) <==> held_after(evs, k) by {
            let n = evs.len() - 1;
            if k == e.key_code {
                if e.is_pressed {
                    assert(after[after.len() - 1].key_code == k);
                    assert(held_after(evs, k));
                } else {
                    assert(!key_codes(w).contains(k));
                    if held_after(evs, k) {
                        let i = choose|i: int|
                            0 <= i < evs.len() && #[trigger] evs[i].key_code == k && evs[i].is_pressed
                                && (forall|j: int| i < j < evs.len() ==> #[trigger] evs[j].key_code != k);
                        assert(i == n);
                    }
                }
            } else {
                if key_codes(after).contains(k) {
                    if e.is_pressed {
                        let i = choose|i: int| 0 <= i < after.len() && after[i].key_code == k;
                        assert(i < w.len());
                        assert(key_codes(w).contains(k));
                    }
                    assert(key_codes(before).contains(k));
                    let i = choose|i: int|
                        0 <= i < p.len() && #[trigger] p[i].key_code == k && p[i].is_pressed && (forall|j: int|
                            i < j < p.len() ==> #[trigger] p[j].key_code != k);
                    assert(evs[i] == p[i]);
                    assert forall|j: int| i < j < evs.len() implies #[trigger] evs[j].key_code != k by {
                        if j < n {
                            assert(evs[j] == p[j]);
                        }
                    }
                }
                if held_after(evs, k) {
                    let i = choose|i: int|
                        0 <= i < evs.len() && #[trigger] evs[i].key_code == k && evs[i].is_pressed
                            && (forall|j: int| i < j < evs.len() ==> #[trigger] evs[j].key_code != k);
                    assert(p[i] == evs[i]);
                    assert forall|j: int| i < j < p.len() implies #[trigger] p[j].key_code != k by {
                        assert(evs[j] == p[j]);
                    }
                    assert(held_after(p, k));
                    assert(key_codes(w).contains(k));
                    let m = choose|m: int| 0 <= m < w.len() && w[m].key_code == k;
                    assert(after[m] == w[m]);
                }
            }
        }
    }
}

/// Starting from no pressed keys, after any run of transitions each record
/// of the snapshot is a press, and it is the most recent transition of its
/// key.
pub proof fn lemma_pressed_records(evs: Seq<KeyEvent>)
    ensures
        forall|i: int|
            0 <= i < apply_events(Seq::empty(), evs).len() ==> {
                let x = #[trigger] apply_events(Seq::empty(), evs)[i];
                &&& x.is_pressed
                &&& exists|j: int|
                    0 <= j < evs.len() && evs[j] == x && forall|m: int|
                        j < m < evs.len() ==> (#[trigger] evs[m]).key_code != x.key_code
            },
    decreases evs.len(),
{
    if evs.len() > 0 {
        let p = evs.drop_last();
        let e = evs.last();
        let n = evs.len() - 1;
        lemma_pressed_records(p);
        let before = apply_events(Seq::empty(), p);
        lemma_without_key(before, e.key_code);
        let w = without_key(before, e.key_code);
        let after = apply_events(Seq::empty(), evs);
        assert(after == apply_event(before, e));
        assert forall|i: int| 0 <= i < after.len() implies {
            let x = #[trigger] after[i];
            &&& x.is_pressed
            &&& exists|j: int|
                0 <= j < evs.len() && evs[j] == x && forall|m: int|
                    j < m < evs.len() ==> (#[trigger] evs[m]).key_code != x.key_code
        } by {
            let x = after[i];
            if i < w.len() {
                assert(x == w[i]);
                assert(w.contains(x));
                let b = choose|b: int| 0 <= b < before.len() && before[b] == x;
                assert(before[b] == x);
                let j = choose|j: int|
                    0 <= j < p.len() && p[j] == x && forall|m: int|
                        j < m < p.len() ==> (#[trigger] p[m]).key_code != x.key_code;
                assert(evs[j] == x);
                assert forall|m: int| j < m < evs.len() implies (#[trigger] evs[m]).key_code != x.key_code by {
                    if m < n {
                        assert(evs[m] == p[m]);
                    }
                }
            } else {
                assert(x == e);
                assert(evs[n] == x);
            }
        }
    }
}

/// The pressed-key snapshot: one record per key that is held down, the most
/// recently pressed last.
pub struct KeySnapshot {
    entries: Vec<KeyEvent>,
}

impl View for KeySnapshot {
    type V = Seq<KeyEvent>;

    closed spec fn view(&self) -> Seq<KeyEvent> {
        self.entries@
    }
}

impl KeySnapshot {
    pub open spec fn wf(&self) -> bool {
        unique_keys(self@)
    }

    /// A snapshot with no key held.
    pub fn new() -> (r: Self)
        ensures
            r.wf(),
            r@ == Seq::<KeyEvent>::empty(),
    {
        KeySnapshot { entries: Vec::new() }
    }

    /// Records one transition: a press (re)places the key's record at the
    /// end, a release removes it.
    pub fn apply(&mut self, event: &KeyEvent)
        requires
            old(self).wf(),
        ensures
            final(self).wf(),
            final(self)@ == apply_event(old(self)@, *event),
    {
        let k = event.key_code;
        let mut kept: Vec<KeyEvent> = Vec::new();
        let mut i: usize = 0;
        while i < self.entries.len()
            invariant
                i <= self.entries@.len(),
                kept@ == without_key(self.entries@.take(i as int), k),
            decreases self.entries@.len() - i,
        {
            assert(self.entries@.take(i as int + 1).drop_last() == self.entries@.take(i as int));
            let e = self.entries[i];
            if e.key_code != k {
                kept.push(e);
            }
            i = i + 1;
        }
        assert(self.entries@.take(i as int) == self.entries@);
        if event.is_pressed {
            kept.push(*event);
        }
        proof {
            lemma_without_key(self@, k);
            let w = without_key(self@, k);
            if event.is_pressed {
                assert forall|j: int| 0 <= j < w.len() implies w[j].key_code != k by {
                    assert(w.contains(w[j]));
                }
            }
        }
        self.entries = kept;
    }

    /// Every held key's record, the most recently pressed last.
    pub fn get_keys(&self) -> (r: Vec<KeyEvent>)
        ensures
            r@ == self@,
    {
        let mut r: Vec<KeyEvent> = Vec::new();
        let mut i: usize = 0;
        while i < self.entries.len()
            invariant
                i <= self.entries@.len(),
                r@ == self.entries@.take(i as int),
            decreases self.entries@.len() - i,
        {
            r.push(self.entries[i]);
            i = i + 1;
        }
        assert(self.entries@.take(i as int) == self.entries@);
        r
    }

    /// Whether key `key_code` is held.
    pub fn is_pressed(&self, key_code: u32) -> (r: bool)
        ensures
            r == key_codes(self@).contains(key_code),
    {
        let mut i: usize = 0;
        while i < self.entries.len()
            invariant
                i <= self.entries@.len(),
                forall|j: int| 0 <= j < i ==> self.entries@[j].key_code != key_code,
            decreases self.entries@.len() - i,
        {
            if self.entries[i].key_code == key_code {
                return true;
            }
            i = i + 1;
        }
        false
    }
}

} // verus!

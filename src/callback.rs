use vstd::prelude::*;
use std::sync::Arc;
use crate::keymap::KeyEvent;

verus! {

/// The three kinds of subscription.
#[derive(Debug, Clone, Copy, PartialEq, Eq, Structural)]
pub enum CallbackKind {
    KeyDown,
    KeyUp,
    Keys,
}

/// Ownership token of one subscription. Handing it back to
/// [`KeyboardCallbacks::release`] is the only way the subscription ends.
#[derive(Debug, PartialEq, Eq, Structural)]
pub struct CallbackGuard {
    kind: CallbackKind,
    id: u64,
}

impl CallbackGuard {
    pub closed spec fn spec_kind(&self) -> CallbackKind {
        self.kind
    }

    pub closed spec fn spec_id(&self) -> u64 {
        self.id
    }

    pub fn kind(&self) -> (r: CallbackKind)
        ensures
            r == self.spec_kind(),
    {
        self.kind
    }

    pub fn id(&self) -> (r: u64)
        ensures
            r == self.spec_id(),
    {
        self.id
    }
}

/// One registered handler; a released one stays in place, not live, until
/// the next dispatch sweeps it out.
pub struct Slot<H> {
    pub id: u64,
    pub live: bool,
    pub handler: Arc<H>,
}

/// The live slots of `s`, in order.
pub open spec fn live_slots<H>(s: Seq<Slot<H>>) -> Seq<Slot<H>>
    decreases s.len(),
{
    if s.len() == 0 {
        s
    } else {
        let rest = live_slots(s.drop_last());
        if s.last().live {
            rest.push(s.last())
        } else {
            rest
        }
    }
}

/// `s` with the slot of subscription `id` marked released.
pub open spec fn tombstone<H>(s: Seq<Slot<H>>, id: u64) -> Seq<Slot<H>> {
    s.map_values(|x: Slot<H>| if x.id == id { Slot { id: x.id, live: false, handler: x.handler } } else { x })
}

/// The handlers of `s`, in order.
pub open spec fn handlers_of<H>(s: Seq<Slot<H>>) -> Seq<Arc<H>> {
    s.map_values(|x: Slot<H>| x.handler)
}

/// Subscription ids strictly increase along `s` (registration order) and
/// stay below `next`.
pub open spec fn ordered_ids<H>(s: Seq<Slot<H>>, next: u64) -> bool {
    &&& forall|i: int, j: int| 0 <= i < j < s.len() ==> #[trigger] s[i].id < #[trigger] s[j].id
    &&& forall|i: int| 0 <= i < s.len() ==> #[trigger] s[i].id < next
}

/// A single-key handler that may be called on any event.
pub open spec fn key_handler_ready<F: Fn(&KeyEvent) -> bool>(h: F) -> bool {
    forall|e: &KeyEvent| #[trigger] h.requires((e,))
}

/// A batch handler that may be called on any list of events.
pub open spec fn keys_handler_ready<G: Fn(Vec<KeyEvent>) -> bool>(h: G) -> bool {
    forall|v: Vec<KeyEvent>| #[trigger] h.requires((v,))
}

pub open spec fn key_handlers_ready<F: Fn(&KeyEvent) -> bool>(s: Seq<Arc<F>>) -> bool {
    forall|i: int| 0 <= i < s.len() ==> key_handler_ready(*#[trigger] s[i])
}

pub open spec fn keys_handlers_ready<G: Fn(Vec<KeyEvent>) -> bool>(s: Seq<Arc<G>>) -> bool {
    forall|i: int| 0 <= i < s.len() ==> keys_handler_ready(*#[trigger] s[i])
}

/// `h` may answer `r` when handed a list holding `events`.
pub open spec fn keys_answer<G: Fn(Vec<KeyEvent>) -> bool>(h: G, events: Seq<KeyEvent>, r: bool) -> bool {
    exists|v: Vec<KeyEvent>| v@ == events && #[trigger] h.ensures((v,), r)
}

/// `h` answered something when called on `e`.
pub open spec fn key_answered<F: Fn(&KeyEvent) -> bool>(h: F, e: &KeyEvent) -> bool {
    exists|b: bool| #[trigger] h.ensures((e,), b)
}

/// Every handler of `hs` answered when called on `e`.
pub open spec fn all_answered<F: Fn(&KeyEvent) -> bool>(hs: Seq<Arc<F>>, e: &KeyEvent) -> bool {
    forall|i: int| 0 <= i < hs.len() ==> key_answered(*#[trigger] hs[i], e)
}

/// The batch handlers `hs` were handed `events` in order: either all
/// answered `true`, or one answered `false` after all before it answered
/// `true`.
pub open spec fn keys_dispatched<G: Fn(Vec<KeyEvent>) -> bool>(hs: Seq<Arc<G>>, events: Seq<KeyEvent>) -> bool {
    ||| forall|i: int| 0 <= i < hs.len() ==> keys_answer(*#[trigger] hs[i], events, true)
    ||| exists|i: int|
        0 <= i < hs.len() && keys_answer(*#[trigger] hs[i], events, false) && forall|j: int|
            0 <= j < i ==> keys_answer(*#[trigger] hs[j], events, true)
}

/// The ids of the live subscriptions in `s`, in registration order.
pub open spec fn live_ids<H>(s: Seq<Slot<H>>) -> Seq<u64> {
    live_slots(s).map_values(|x: Slot<H>| x.id)
}

pub proof fn lemma_live_push<H>(s: Seq<Slot<H>>, x: Slot<H>)
    requires
        x.live,
    ensures
        live_slots(s.push(x)) == live_slots(s).push(x),
        live_ids(s.push(x)) == live_ids(s).push(x.id),
{
    assert(s.push(x).drop_last() == s);
    assert(live_ids(s.push(x)) =~= live_ids(s).push(x.id));
}

pub proof fn lemma_live_slots<H>(s: Seq<Slot<H>>)
    ensures
        forall|x: Slot<H>| #[trigger] live_slots(s).contains(x) <==> (s.contains(x) && x.live),
        forall|i: int| 0 <= i < live_slots(s).len() ==> (#[trigger] live_slots(s)[i]).live,
        forall|n: u64| ordered_ids(s, n) ==> ordered_ids(live_slots(s), n),
    decreases s.len(),
{
    if s.len() > 0 {
        let p = s.drop_last();
        lemma_live_slots(p);
        let rest = live_slots(p);
        let l = live_slots(s);
        assert(s == p.push(s.last()));
        assert forall|x: Slot<H>| #[trigger] l.contains(x) <==> (s.contains(x) && x.live) by {
            if s.contains(x) && x.live {
                let i = choose|i: int| 0 <= i < s.len() && s[i] == x;
                if i < s.len() - 1 {
                    assert(p[i] == s[i]);
                    assert(p.contains(x));
                    assert(rest.contains(x));
                    let j = choose|j: int| 0 <= j < rest.len() && rest[j] == x;
                    assert(l[j] == x);
                } else {
                    assert(l[l.len() - 1] == x);
                }
            }
            if l.contains(x) {
                let j = choose|j: int| 0 <= j < l.len() && l[j] == x;
                if j < rest.len() {
                    assert(rest.contains(x));
                    let i = choose|i: int| 0 <= i < p.len() && p[i] == x;
                    assert(s[i] == x);
                } else {
                    assert(s[s.len() - 1] == x);
                }
            }
        }
        assert forall|i: int| 0 <= i < l.len() implies (#[trigger] l[i]).live by {
            if i < rest.len() {
                assert(rest[i] == l[i]);
            }
        }
        assert forall|n: u64| ordered_ids(s, n) implies ordered_ids(l, n) by {
            assert(ordered_ids(p, n));
            assert forall|i: int| 0 <= i < l.len() implies #[trigger] l[i].id < n by {
                assert(l.contains(l[i]));
            }
            if s.last().live {
                assert forall|i: int| 0 <= i < rest.len() implies #[trigger] rest[i].id < s.last().id by {
                    assert(rest.contains(rest[i]));
                    let j = choose|j: int| 0 <= j < p.len() && p[j] == rest[i];
                    assert(s[j] == p[j]);
                }
                assert forall|i: int, j: int| 0 <= i < j < l.len() implies #[trigger] l[i].id
                    < #[trigger] l[j].id by {
                    if j < rest.len() {
                        assert(l[i] == rest[i] && l[j] == rest[j]);
                    } else {
                        assert(l[i] == rest[i]);
                    }
                }
            }
        }
    }
}

/// A dispatch sweeps released slots out; sweeping twice leaves what one
/// sweep left, so a dispatch changes nothing for the next one, whatever the
/// handlers answered.
pub proof fn lemma_sweep_idempotent<H>(s: Seq<Slot<H>>)
    ensures
        live_slots(live_slots(s)) == live_slots(s),
    decreases s.len(),
{
    if s.len() > 0 {
        lemma_sweep_idempotent(s.drop_last());
        let rest = live_slots(s.drop_last());
        if s.last().live {
            assert(rest.push(s.last()).drop_last() == rest);
        }
    }
}

/// After the guard of subscription `id` is released, the next dispatch
/// invokes every other live handler, in the same order, and never the
/// released one.
pub proof fn lemma_release_removes<H>(s: Seq<Slot<H>>, id: u64)
    ensures
        forall|i: int|
            0 <= i < live_slots(tombstone(s, id)).len() ==> (#[trigger] live_slots(tombstone(s, id))[i]).id
                != id,
        forall|x: Slot<H>| #[trigger] live_slots(tombstone(s, id)).contains(x) <==> (live_slots(s).contains(x) && x.id != id),
        forall|n: u64| ordered_ids(s, n) ==> ordered_ids(live_slots(tombstone(s, id)), n),
{
    let t = tombstone(s, id);
    lemma_live_slots(s);
    lemma_live_slots(t);
    assert forall|x: Slot<H>| #[trigger] t.contains(x) && x.live <==> (s.contains(x) && x.live && x.id != id) by {
        if t.contains(x) && x.live {
            let i = choose|i: int| 0 <= i < t.len() && t[i] == x;
            assert(s[i] == x);
        }
        if s.contains(x) && x.live && x.id != id {
            let i = choose|i: int| 0 <= i < s.len() && s[i] == x;
            assert(t[i] == x);
        }
    }
    let l = live_slots(t);
    assert forall|i: int| 0 <= i < l.len() implies (#[trigger] l[i]).id != id by {
        assert(l.contains(l[i]));
    }
    assert forall|n: u64| ordered_ids(s, n) implies ordered_ids(t, n) by {
        assert forall|i: int, j: int| 0 <= i < j < t.len() implies #[trigger] t[i].id < #[trigger] t[j].id by {
            assert(s[i].id < s[j].id);
        }
        assert forall|i: int| 0 <= i < t.len() implies #[trigger] t[i].id < n by {
            assert(s[i].id < n);
        }
    }
}

/// Releasing subscription `id` takes exactly that id out of the live ids.
pub proof fn lemma_release_ids<H>(s: Seq<Slot<H>>, id: u64)
    ensures
        forall|x: u64| #[trigger] live_ids(tombstone(s, id)).contains(x) <==> (live_ids(s).contains(x) && x != id),
{
    lemma_release_removes(s, id);
    let lt = live_slots(tombstone(s, id));
    let ls = live_slots(s);
    assert forall|x: u64| #[trigger] live_ids(tombstone(s, id)).contains(x) <==> (live_ids(s).contains(x) && x
        != id) by {
        if live_ids(tombstone(s, id)).contains(x) {
            let i = choose|i: int| 0 <= i < lt.len() && live_ids(tombstone(s, id))[i] == x;
            let y = lt[i];
            assert(lt.contains(y));
            assert(ls.contains(y));
            let j = choose|j: int| 0 <= j < ls.len() && ls[j] == y;
            assert(live_ids(s)[j] == x);
        }
        if live_ids(s).contains(x) && x != id {
            let j = choose|j: int| 0 <= j < ls.len() && live_ids(s)[j] == x;
            let y = ls[j];
            assert(ls.contains(y));
            assert(lt.contains(y));
            let i = choose|i: int| 0 <= i < lt.len() && lt[i] == y;
            assert(live_ids(tombstone(s, id))[i] == x);
        }
    }
}

fn sweep_slots<H>(slots: &Vec<Slot<H>>) -> (r: Vec<Slot<H>>)
    ensures
        r@ == live_slots(slots@),
{
    let mut r: Vec<Slot<H>> = Vec::new();
    let mut i: usize = 0;
    while i < slots.len()
        invariant
            i <= slots@.len(),
            r@ == live_slots(slots@.take(i as int)),
        decreases slots@.len() - i,
    {
        assert(slots@.take(i as int + 1).drop_last() == slots@.take(i as int));
        let s = &slots[i];
        if s.live {
            r.push(Slot { id: s.id, live: true, handler: s.handler.clone() });
        }
        i = i + 1;
    }
    assert(slots@.take(i as int) == slots@);
    r
}

fn tombstone_slots<H>(slots: &Vec<Slot<H>>, id: u64) -> (r: Vec<Slot<H>>)
    ensures
        r@ == tombstone(slots@, id),
{
    let mut r: Vec<Slot<H>> = Vec::new();
    let mut i: usize = 0;
    while i < slots.len()
        invariant
            i <= slots@.len(),
            r@ == tombstone(slots@.take(i as int), id),
        decreases slots@.len() - i,
    {
        let s = &slots[i];
        let live = s.live && s.id != id;
        r.push(Slot { id: s.id, live, handler: s.handler.clone() });
        assert(tombstone(slots@.take(i as int + 1), id) =~= tombstone(slots@.take(i as int), id).push(
            r@[i as int],
        ));
        i = i + 1;
    }
    assert(slots@.take(i as int) == slots@);
    r
}

fn slot_handlers<H>(slots: &Vec<Slot<H>>) -> (r: Vec<Arc<H>>)
    ensures
        r@ == handlers_of(slots@),
{
    let mut r: Vec<Arc<H>> = Vec::new();
    let mut i: usize = 0;
    while i < slots.len()
        invariant
            i <= slots@.len(),
            r@ == handlers_of(slots@.take(i as int)),
        decreases slots@.len() - i,
    {
        r.push(slots[i].handler.clone());
        assert(handlers_of(slots@.take(i as int + 1)) =~= handlers_of(slots@.take(i as int)).push(
            slots@[i as int].handler,
        ));
        i = i + 1;
    }
    assert(slots@.take(i as int) == slots@);
    r
}

/// Calls the key-down handlers in order on `event` and stops at the first
/// that answers `false`; the handlers after it are not called. The result
/// is `false` (suppress the key) exactly when one answered `false`.
pub fn run_key_down<F: Fn(&KeyEvent) -> bool>(handlers: &Vec<Arc<F>>, event: &KeyEvent) -> (r: bool)
    requires
        key_handlers_ready(handlers@),
    ensures
        r ==> forall|i: int| 0 <= i < handlers@.len() ==> (#[trigger] handlers@[i]).ensures((event,), true),
        !r ==> exists|i: int|
            0 <= i < handlers@.len() && (#[trigger] handlers@[i]).ensures((event,), false) && forall|j: int|
                0 <= j < i ==> (#[trigger] handlers@[j]).ensures((event,), true),
{
    let mut i: usize = 0;
    while i < handlers.len()
        invariant
            i <= handlers@.len(),
            key_handlers_ready(handlers@),
            forall|j: int| 0 <= j < i ==> (#[trigger] handlers@[j]).ensures((event,), true),
        decreases handlers@.len() - i,
    {
        let h = &handlers[i];
        assert(key_handler_ready(*handlers@[i as int]));
        let answer = (**h)(event);
        if !answer {
            assert(handlers@[i as int].ensures((event,), false));
            return false;
        }
        i = i + 1;
    }
    true
}

/// Calls every key-up handler on `event`, whatever each answers, and hands
/// back the answers in order. They are advisory: a key-up is never
/// suppressed.
pub fn run_key_up<F: Fn(&KeyEvent) -> bool>(handlers: &Vec<Arc<F>>, event: &KeyEvent) -> (r: Vec<bool>)
    requires
        key_handlers_ready(handlers@),
    ensures
        r@.len() == handlers@.len(),
        forall|i: int| 0 <= i < handlers@.len() ==> (#[trigger] handlers@[i]).ensures((event,), r@[i]),
{
    let mut r: Vec<bool> = Vec::new();
    let mut i: usize = 0;
    while i < handlers.len()
        invariant
            i <= handlers@.len(),
            r@.len() == i,
            key_handlers_ready(handlers@),
            forall|j: int| 0 <= j < i ==> (#[trigger] handlers@[j]).ensures((event,), r@[j]),
        decreases handlers@.len() - i,
    {
        let h = &handlers[i];
        assert(key_handler_ready(*handlers@[i as int]));
        let answer = (**h)(event);
        r.push(answer);
        i = i + 1;
    }
    r
}

fn copy_events(events: &Vec<KeyEvent>) -> (r: Vec<KeyEvent>)
    ensures
        r@ == events@,
{
    let mut r: Vec<KeyEvent> = Vec::new();
    let mut i: usize = 0;
    while i < events.len()
        invariant
            i <= events@.len(),
            r@ == events@.take(i as int),
        decreases events@.len() - i,
    {
        r.push(events[i]);
        i = i + 1;
    }
    assert(events@.take(i as int) == events@);
    r
}

/// Hands each batch handler, in order, its own copy of `events` and stops
/// at the first that answers `false`; the result is `false` exactly when
/// one did.
pub fn run_keys<G: Fn(Vec<KeyEvent>) -> bool>(handlers: &Vec<Arc<G>>, events: &Vec<KeyEvent>) -> (r: bool)
    requires
        keys_handlers_ready(handlers@),
    ensures
        r ==> forall|i: int| 0 <= i < handlers@.len() ==> keys_answer(*#[trigger] handlers@[i], events@, true),
        !r ==> exists|i: int|
            0 <= i < handlers@.len() && keys_answer(*#[trigger] handlers@[i], events@, false) && forall|j: int|
                0 <= j < i ==> keys_answer(*#[trigger] handlers@[j], events@, true),
{
    let mut i: usize = 0;
    while i < handlers.len()
        invariant
            i <= handlers@.len(),
            keys_handlers_ready(handlers@),
            forall|j: int| 0 <= j < i ==> keys_answer(*#[trigger] handlers@[j], events@, true),
        decreases handlers@.len() - i,
    {
        let h = &handlers[i];
        assert(keys_handler_ready(*handlers@[i as int]));
        let batch = copy_events(events);
        let answer = (**h)(batch);
        if !answer {
            assert(keys_answer(*handlers@[i as int], events@, false));
            return false;
        }
        assert(keys_answer(*handlers@[i as int], events@, true));
        i = i + 1;
    }
    true
}

/// The subscriptions of each kind, in registration order. The registry
/// holds the handlers; each subscriber holds the [`CallbackGuard`] that ends
/// its subscription. Released slots leave at the next dispatch of their kind,
/// never during one.
pub struct KeyboardCallbacks<F, G> {
    key_down: Vec<Slot<F>>,
    key_up: Vec<Slot<F>>,
    keys: Vec<Slot<G>>,
    next_id: u64,
}

impl<F: Fn(&KeyEvent) -> bool, G: Fn(Vec<KeyEvent>) -> bool> KeyboardCallbacks<F, G> {
    pub closed spec fn key_down_slots(&self) -> Seq<Slot<F>> {
        self.key_down@
    }

    pub closed spec fn key_up_slots(&self) -> Seq<Slot<F>> {
        self.key_up@
    }

    pub closed spec fn keys_slots(&self) -> Seq<Slot<G>> {
        self.keys@
    }

    /// The id the next subscription will get.
    pub closed spec fn next_id(&self) -> u64 {
        self.next_id
    }

    pub open spec fn wf(&self) -> bool {
        &&& ordered_ids(self.key_down_slots(), self.next_id())
        &&& ordered_ids(self.key_up_slots(), self.next_id())
        &&& ordered_ids(self.keys_slots(), self.next_id())
        &&& key_handlers_ready(handlers_of(self.key_down_slots()))
        &&& key_handlers_ready(handlers_of(self.key_up_slots()))
        &&& keys_handlers_ready(handlers_of(self.keys_slots()))
    }

    /// A registry with no subscription.
    pub fn new() -> (r: Self)
        ensures
            r.wf(),
            r.key_down_slots() == Seq::<Slot<F>>::empty(),
            r.key_up_slots() == Seq::<Slot<F>>::empty(),
            r.keys_slots() == Seq::<Slot<G>>::empty(),
            r.next_id() == 0,
    {
        KeyboardCallbacks { key_down: Vec::new(), key_up: Vec::new(), keys: Vec::new(), next_id: 0 }
    }

    /// Whether another subscription can still be given an id of its own.
    pub fn can_register(&self) -> (r: bool)
        ensures
            r == (self.next_id() < u64::MAX),
    {
        self.next_id < u64::MAX
    }

    /// Subscribes `callback` to key-up transitions, after every earlier
    /// key-up subscription.
    pub fn push_key_up(&mut self, callback: Arc<F>) -> (g: CallbackGuard)
        requires
            old(self).wf(),
            old(self).next_id() < u64::MAX,
            key_handler_ready(*callback),
        ensures
            final(self).wf(),
            final(self).key_up_slots() == old(self).key_up_slots().push(
                Slot { id: old(self).next_id(), live: true, handler: callback },
            ),
            final(self).key_down_slots() == old(self).key_down_slots(),
            final(self).keys_slots() == old(self).keys_slots(),
            final(self).next_id() == old(self).next_id() + 1,
            g.spec_kind() == CallbackKind::KeyUp,
            g.spec_id() == old(self).next_id(),
    {
        let id = self.next_id;
        self.key_up.push(Slot { id, live: true, handler: callback });
        self.next_id = id + 1;
        proof {
            assert(handlers_of(self.key_up@) =~= handlers_of(old(self).key_up@).push(callback));
        }
        CallbackGuard { kind: CallbackKind::KeyUp, id }
    }

    /// Subscribes `callback` to key-down transitions, after every earlier
    /// key-down subscription.
    pub fn push_key_down(&mut self, callback: Arc<F>) -> (g: CallbackGuard)
        requires
            old(self).wf(),
            old(self).next_id() < u64::MAX,
            key_handler_ready(*callback),
        ensures
            final(self).wf(),
            final(self).key_down_slots() == old(self).key_down_slots().push(
                Slot { id: old(self).next_id(), live: true, handler: callback },
            ),
            final(self).key_up_slots() == old(self).key_up_slots(),
            final(self).keys_slots() == old(self).keys_slots(),
            final(self).next_id() == old(self).next_id() + 1,
            g.spec_kind() == CallbackKind::KeyDown,
            g.spec_id() == old(self).next_id(),
    {
        let id = self.next_id;
        self.key_down.push(Slot { id, live: true, handler: callback });
        self.next_id = id + 1;
        proof {
            assert(handlers_of(self.key_down@) =~= handlers_of(old(self).key_down@).push(callback));
        }
        CallbackGuard { kind: CallbackKind::KeyDown, id }
    }

    /// Subscribes `callback` to batches of key state, after every earlier
    /// batch subscription.
    pub fn push_keys(&mut self, callback: Arc<G>) -> (g: CallbackGuard)
        requires
            old(self).wf(),
            old(self).next_id() < u64::MAX,
            keys_handler_ready(*callback),
        ensures
            final(self).wf(),
            final(self).keys_slots() == old(self).keys_slots().push(
                Slot { id: old(self).next_id(), live: true, handler: callback },
            ),
            final(self).key_down_slots() == old(self).key_down_slots(),
            final(self).key_up_slots() == old(self).key_up_slots(),
            final(self).next_id() == old(self).next_id() + 1,
            g.spec_kind() == CallbackKind::Keys,
            g.spec_id() == old(self).next_id(),
    {
        let id = self.next_id;
        self.keys.push(Slot { id, live: true, handler: callback });
        self.next_id = id + 1;
        proof {
            assert(handlers_of(self.keys@) =~= handlers_of(old(self).keys@).push(callback));
        }
        CallbackGuard { kind: CallbackKind::Keys, id }
    }

    /// Ends the subscription of `guard`: its slot is marked released and
    /// leaves at the next dispatch of its kind.
    pub fn release(&mut self, guard: CallbackGuard)
        requires
            old(self).wf(),
        ensures
            final(self).wf(),
            final(self).next_id() == old(self).next_id(),
            final(self).key_down_slots() == (if guard.spec_kind() == CallbackKind::KeyDown {
                tombstone(old(self).key_down_slots(), guard.spec_id())
            } else {
                old(self).key_down_slots()
            }),
            final(self).key_up_slots() == (if guard.spec_kind() == CallbackKind::KeyUp {
                tombstone(old(self).key_up_slots(), guard.spec_id())
            } else {
                old(self).key_up_slots()
            }),
            final(self).keys_slots() == (if guard.spec_kind() == CallbackKind::Keys {
                tombstone(old(self).keys_slots(), guard.spec_id())
            } else {
                old(self).keys_slots()
            }),
    {
        match guard.kind {
            CallbackKind::KeyDown => {
                self.key_down = tombstone_slots(&self.key_down, guard.id);
            },
            CallbackKind::KeyUp => {
                self.key_up = tombstone_slots(&self.key_up, guard.id);
            },
            CallbackKind::Keys => {
                self.keys = tombstone_slots(&self.keys, guard.id);
            },
        }
        proof {
            lemma_tombstone_keeps(old(self).key_down@, guard.id, self.next_id);
            lemma_tombstone_keeps(old(self).key_up@, guard.id, self.next_id);
            lemma_tombstone_keeps(old(self).keys@, guard.id, self.next_id);
        }
    }

    /// Sweeps released key-down slots out and hands back the live key-down
    /// handlers in registration order, for a dispatch made outside any lock.
    pub fn live_key_down(&mut self) -> (r: Vec<Arc<F>>)
        requires
            old(self).wf(),
        ensures
            final(self).wf(),
            final(self).key_down_slots() == live_slots(old(self).key_down_slots()),
            final(self).key_up_slots() == old(self).key_up_slots(),
            final(self).keys_slots() == old(self).keys_slots(),
            final(self).next_id() == old(self).next_id(),
            r@ == handlers_of(live_slots(old(self).key_down_slots())),
            key_handlers_ready(r@),
    {
        self.key_down = sweep_slots(&self.key_down);
        proof {
            lemma_sweep_keeps(old(self).key_down@, self.next_id);
            lemma_sweep_ready_key(old(self).key_down@);
        }
        slot_handlers(&self.key_down)
    }

    /// As [`Self::live_key_down`], for key-up subscriptions.
    pub fn live_key_up(&mut self) -> (r: Vec<Arc<F>>)
        requires
            old(self).wf(),
        ensures
            final(self).wf(),
            final(self).key_up_slots() == live_slots(old(self).key_up_slots()),
            final(self).key_down_slots() == old(self).key_down_slots(),
            final(self).keys_slots() == old(self).keys_slots(),
            final(self).next_id() == old(self).next_id(),
            r@ == handlers_of(live_slots(old(self).key_up_slots())),
            key_handlers_ready(r@),
    {
        self.key_up = sweep_slots(&self.key_up);
        proof {
            lemma_sweep_keeps(old(self).key_up@, self.next_id);
            lemma_sweep_ready_key(old(self).key_up@);
        }
        slot_handlers(&self.key_up)
    }

    /// As [`Self::live_key_down`], for batch subscriptions.
    pub fn live_keys(&mut self) -> (r: Vec<Arc<G>>)
        requires
            old(self).wf(),
        ensures
            final(self).wf(),
            final(self).keys_slots() == live_slots(old(self).keys_slots()),
            final(self).key_down_slots() == old(self).key_down_slots(),
            final(self).key_up_slots() == old(self).key_up_slots(),
            final(self).next_id() == old(self).next_id(),
            r@ == handlers_of(live_slots(old(self).keys_slots())),
            keys_handlers_ready(r@),
    {
        self.keys = sweep_slots(&self.keys);
        proof {
            lemma_sweep_keeps(old(self).keys@, self.next_id);
            lemma_sweep_ready_keys(old(self).keys@);
        }
        slot_handlers(&self.keys)
    }

    /// Sweeps, then calls the live key-down handlers on `event` in
    /// registration order, stopping at the first `false`; `false` asks for
    /// the key to be suppressed.
    pub fn run_key_down(&mut self, event: &KeyEvent) -> (r: bool)
        requires
            old(self).wf(),
        ensures
            final(self).wf(),
            final(self).key_down_slots() == live_slots(old(self).key_down_slots()),
            final(self).key_up_slots() == old(self).key_up_slots(),
            final(self).keys_slots() == old(self).keys_slots(),
            final(self).next_id() == old(self).next_id(),
            ({
                let hs = handlers_of(live_slots(old(self).key_down_slots()));
                &&& r ==> forall|i: int| 0 <= i < hs.len() ==> (#[trigger] hs[i]).ensures((event,), true)
                &&& !r ==> exists|i: int|
                    0 <= i < hs.len() && (#[trigger] hs[i]).ensures((event,), false) && forall|j: int|
                        0 <= j < i ==> (#[trigger] hs[j]).ensures((event,), true)
            }),
    {
        let hs = self.live_key_down();
        run_key_down(&hs, event)
    }

    /// Sweeps, then calls every live key-up handler on `event`; the answers
    /// come back in registration order and suppress nothing.
    pub fn run_key_up(&mut self, event: &KeyEvent) -> (r: Vec<bool>)
        requires
            old(self).wf(),
        ensures
            final(self).wf(),
            final(self).key_up_slots() == live_slots(old(self).key_up_slots()),
            final(self).key_down_slots() == old(self).key_down_slots(),
            final(self).keys_slots() == old(self).keys_slots(),
            final(self).next_id() == old(self).next_id(),
            ({
                let hs = handlers_of(live_slots(old(self).key_up_slots()));
                &&& r@.len() == hs.len()
                &&& forall|i: int| 0 <= i < hs.len() ==> (#[trigger] hs[i]).ensures((event,), r@[i])
            }),
    {
        let hs = self.live_key_up();
        run_key_up(&hs, event)
    }

    /// Sweeps, then hands `events` to the live batch handlers in
    /// registration order, stopping at the first `false`.
    pub fn run_keys(&mut self, events: &Vec<KeyEvent>) -> (r: bool)
        requires
            old(self).wf(),
        ensures
            final(self).wf(),
            final(self).keys_slots() == live_slots(old(self).keys_slots()),
            final(self).key_down_slots() == old(self).key_down_slots(),
            final(self).key_up_slots() == old(self).key_up_slots(),
            final(self).next_id() == old(self).next_id(),
            ({
                let hs = handlers_of(live_slots(old(self).keys_slots()));
                &&& r ==> forall|i: int| 0 <= i < hs.len() ==> keys_answer(*#[trigger] hs[i], events@, true)
                &&& !r ==> exists|i: int|
                    0 <= i < hs.len() && keys_answer(*#[trigger] hs[i], events@, false) && forall|j: int|
                        0 <= j < i ==> keys_answer(*#[trigger] hs[j], events@, true)
            }),
    {
        let hs = self.live_keys();
        run_keys(&hs, events)
    }
}

proof fn lemma_tombstone_keeps<H>(s: Seq<Slot<H>>, id: u64, n: u64)
    ensures
        ordered_ids(s, n) ==> ordered_ids(tombstone(s, id), n),
        handlers_of(tombstone(s, id)) == handlers_of(s),
{
    assert(handlers_of(tombstone(s, id)) =~= handlers_of(s));
    if ordered_ids(s, n) {
        let t = tombstone(s, id);
        assert forall|i: int, j: int| 0 <= i < j < t.len() implies #[trigger] t[i].id < #[trigger] t[j].id by {
            assert(s[i].id < s[j].id);
        }
        assert forall|i: int| 0 <= i < t.len() implies #[trigger] t[i].id < n by {
            assert(s[i].id < n);
        }
    }
}

proof fn lemma_sweep_keeps<H>(s: Seq<Slot<H>>, n: u64)
    ensures
        ordered_ids(s, n) ==> ordered_ids(live_slots(s), n),
        forall|i: int| 0 <= i < live_slots(s).len() ==> exists|j: int|
            0 <= j < s.len() && #[trigger] live_slots(s)[i] == s[j],
{
    lemma_live_slots(s);
    let l = live_slots(s);
    assert forall|i: int| 0 <= i < l.len() implies exists|j: int| 0 <= j < s.len() && #[trigger] l[i] == s[j] by {
        assert(l.contains(l[i]));
    }
}

proof fn lemma_sweep_ready_key<F: Fn(&KeyEvent) -> bool>(s: Seq<Slot<F>>)
    requires
        key_handlers_ready(handlers_of(s)),
    ensures
        key_handlers_ready(handlers_of(live_slots(s))),
{
    lemma_sweep_keeps(s, 0);
    let l = live_slots(s);
    assert forall|i: int| 0 <= i < handlers_of(l).len() implies key_handler_ready(*#[trigger] handlers_of(l)[i]) by {
        let j = choose|j: int| 0 <= j < s.len() && l[i] == s[j];
        assert(handlers_of(s)[j] == s[j].handler);
    }
}

proof fn lemma_sweep_ready_keys<G: Fn(Vec<KeyEvent>) -> bool>(s: Seq<Slot<G>>)
    requires
        keys_handlers_ready(handlers_of(s)),
    ensures
        keys_handlers_ready(handlers_of(live_slots(s))),
{
    lemma_sweep_keeps(s, 0);
    let l = live_slots(s);
    assert forall|i: int| 0 <= i < handlers_of(l).len() implies keys_handler_ready(*#[trigger] handlers_of(l)[i]) by {
        let j = choose|j: int| 0 <= j < s.len() && l[i] == s[j];
        assert(handlers_of(s)[j] == s[j].handler);
    }
}

} // verus!

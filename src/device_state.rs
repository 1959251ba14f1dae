use vstd::prelude::*;
use std::sync::Arc;
use crate::callback::{
    all_answered, handlers_of, key_handler_ready, key_handlers_ready, keys_dispatched,
    keys_handler_ready, keys_handlers_ready, lemma_live_push, lemma_release_ids, live_ids, live_slots, run_key_down,
    run_key_up, run_keys, CallbackGuard, CallbackKind, KeyboardCallbacks, Slot,
};
use crate::device_events::DeviceEvents;
use crate::device_query::DeviceQuery;
use crate::event_loop::EventLoop;
use crate::hook::{hook_decision, HookDecision};
use crate::inject::{plan, plan_spec, Injection};
use crate::keymap::KeyEvent;
use crate::snapshot::{apply_event, key_codes, KeySnapshot};

verus! {

/// One event and everything its dispatch needs, taken from the device state
/// so that the handlers run with no lock held: a handler may then subscribe,
/// release a guard or inject keys itself.
pub struct Dispatch<F, G> {
    /// The transition being delivered.
    pub event: KeyEvent,
    /// The single-key handlers to call, in order: the unguarded callbacks,
    /// then the live subscriptions of the event's kind.
    pub handlers: Vec<Arc<F>>,
    /// The live batch subscriptions, in order.
    pub batch: Vec<Arc<G>>,
    /// The held keys once the event is recorded.
    pub keys: Vec<KeyEvent>,
}

/// The device-state service: the pressed-key snapshot, the unguarded
/// callbacks and the subscription registry. The hook or poll loop that feeds
/// it events runs outside this crate.
pub struct DeviceState<F, G> {
    keys: KeySnapshot,
    callbacks: Vec<Arc<F>>,
    event_loop: EventLoop<F, G>,
    emit_repeats: bool,
}

/// Calls the handlers of `d`: on a key-down, the single-key handlers in order
/// until one answers `false`, and the key is blocked exactly then; on a
/// key-up, every single-key handler whatever each answers, and the key always
/// passes. The batch handlers then get the held keys, in order until one
/// answers `false`; their answers block nothing.
pub fn dispatch<F: Fn(&KeyEvent) -> bool, G: Fn(Vec<KeyEvent>) -> bool>(d: &Dispatch<F, G>) -> (r:
    HookDecision)
    requires
        key_handlers_ready(d.handlers@),
        keys_handlers_ready(d.batch@),
    ensures
        !d.event.is_pressed ==> r == HookDecision::Pass,
        !d.event.is_pressed ==> all_answered(d.handlers@, &d.event),
        keys_dispatched(d.batch@, d.keys@),
        d.event.is_pressed && r == HookDecision::Pass ==> forall|i: int|
            0 <= i < d.handlers@.len() ==> (#[trigger] d.handlers@[i]).ensures((&d.event,), true),
        d.event.is_pressed && r == HookDecision::Block ==> exists|i: int|
            0 <= i < d.handlers@.len() && (#[trigger] d.handlers@[i]).ensures((&d.event,), false)
                && forall|j: int| 0 <= j < i ==> (#[trigger] d.handlers@[j]).ensures((&d.event,), true),
{
    if d.event.is_pressed {
        let accepted = run_key_down(&d.handlers, &d.event);
        run_keys(&d.batch, &d.keys);
        hook_decision(true, accepted)
    } else {
        let answers = run_key_up(&d.handlers, &d.event);
        proof {
            assert forall|i: int| 0 <= i < d.handlers@.len() implies crate::callback::key_answered(
                *#[trigger] d.handlers@[i],
                &d.event,
            ) by {
                assert(d.handlers@[i].ensures((&d.event,), answers@[i]));
            }
        }
        run_keys(&d.batch, &d.keys);
        hook_decision(false, true)
    }
}

proof fn lemma_ready_concat<F: Fn(&KeyEvent) -> bool>(a: Seq<Arc<F>>, b: Seq<Arc<F>>)
    requires
        key_handlers_ready(a),
        key_handlers_ready(b),
    ensures
        key_handlers_ready(a + b),
{
    assert forall|i: int| 0 <= i < (a + b).len() implies key_handler_ready(*#[trigger] (a + b)[i]) by {
        if i < a.len() {
            assert((a + b)[i] == a[i]);
        } else {
            assert((a + b)[i] == b[i - a.len()]);
        }
    }
}

impl<F: Fn(&KeyEvent) -> bool, G: Fn(Vec<KeyEvent>) -> bool> DeviceState<F, G> {
    /// The held keys, one record each, the most recently pressed last.
    pub closed spec fn pressed(&self) -> Seq<KeyEvent> {
        self.keys@
    }

    /// The unguarded callbacks, in the order they were added.
    pub closed spec fn global_callbacks(&self) -> Seq<Arc<F>> {
        self.callbacks@
    }

    /// The subscription registry.
    pub closed spec fn registry(&self) -> KeyboardCallbacks<F, G> {
        self.event_loop.keyboard_callbacks
    }

    /// Whether a key-down of a key already held (an auto-repeat) is
    /// dispatched again.
    pub closed spec fn emits_repeats(&self) -> bool {
        self.emit_repeats
    }

    /// `event` repeats a key-down of a held key and repeats are not
    /// dispatched: it is recorded and reaches no handler.
    pub open spec fn mutes(&self, event: KeyEvent) -> bool {
        event.is_pressed && key_codes(self.pressed()).contains(event.key_code) && !self.emits_repeats()
    }

    /// The single-key handlers that a dispatch of `event` calls, in order:
    /// the unguarded callbacks, then the live subscriptions of its kind.
    pub open spec fn dispatched_handlers(&self, event: KeyEvent) -> Seq<Arc<F>> {
        if self.mutes(event) {
            Seq::empty()
        } else {
            self.global_callbacks() + handlers_of(
                live_slots(
                    if event.is_pressed {
                        self.registry().key_down_slots()
                    } else {
                        self.registry().key_up_slots()
                    },
                ),
            )
        }
    }

    /// The batch handlers that a dispatch of `event` calls, in order.
    pub open spec fn dispatched_batch(&self, event: KeyEvent) -> Seq<Arc<G>> {
        if self.mutes(event) {
            Seq::empty()
        } else {
            handlers_of(live_slots(self.registry().keys_slots()))
        }
    }

    pub closed spec fn wf(&self) -> bool {
        &&& self.keys.wf()
        &&& key_handlers_ready(self.callbacks@)
        &&& self.event_loop.wf()
    }

    /// A fresh state holds no key, no callback and no subscription.
    pub open spec fn is_fresh(&self) -> bool {
        &&& self.wf()
        &&& self.pressed() == Seq::<KeyEvent>::empty()
        &&& self.global_callbacks() == Seq::<Arc<F>>::empty()
        &&& self.registry().key_down_slots() == Seq::<Slot<F>>::empty()
        &&& self.registry().key_up_slots() == Seq::<Slot<F>>::empty()
        &&& self.registry().keys_slots() == Seq::<Slot<G>>::empty()
        &&& self.registry().next_id() == 0
        &&& self.emits_repeats()
    }

    /// The state of a capture that has just started.
    pub fn new() -> (r: Self)
        ensures
            r.is_fresh(),
    {
        DeviceState {
            keys: KeySnapshot::new(),
            callbacks: Vec::new(),
            event_loop: EventLoop::new(),
            emit_repeats: true,
        }
    }

    /// Chooses whether auto-repeated key-downs of a held key are dispatched
    /// (the default) or only recorded.
    pub fn set_emit_repeats(&mut self, emit: bool)
        requires
            old(self).wf(),
        ensures
            final(self).wf(),
            final(self).emits_repeats() == emit,
            final(self).pressed() == old(self).pressed(),
            final(self).global_callbacks() == old(self).global_callbacks(),
            final(self).registry() == old(self).registry(),
    {
        self.emit_repeats = emit;
    }

    /// The state of a capture, when the process has the permission that
    /// capturing needs; none otherwise.
    pub fn checked_new(has_permission: bool) -> (r: Option<Self>)
        ensures
            r.is_some() == has_permission,
            r.is_some() ==> r.unwrap().is_fresh(),
    {
        if has_permission {
            Some(DeviceState::new())
        } else {
            None
        }
    }

    /// The held keys, one record each, the most recently pressed last.
    pub fn get_keys(&self) -> (r: Vec<KeyEvent>)
        requires
            self.wf(),
        ensures
            r@ == self.pressed(),
    {
        self.keys.get_keys()
    }

    /// Adds a callback that sees every transition before the subscriptions
    /// do and that lives as long as the state. On a key-down, `false` from
    /// it swallows the key.
    pub fn add_callback(&mut self, callback: F)
        requires
            old(self).wf(),
            key_handler_ready(callback),
        ensures
            final(self).wf(),
            final(self).global_callbacks().len() == old(self).global_callbacks().len() + 1,
            final(self).global_callbacks().drop_last() == old(self).global_callbacks(),
            *final(self).global_callbacks().last() == callback,
            final(self).pressed() == old(self).pressed(),
            final(self).registry() == old(self).registry(),
            final(self).emits_repeats() == old(self).emits_repeats(),
    {
        self.callbacks.push(Arc::new(callback));
        proof {
            assert(self.callbacks@.drop_last() == old(self).callbacks@);
        }
    }

    /// Whether another subscription can still be given an id of its own.
    pub fn can_subscribe(&self) -> (r: bool)
        requires
            self.wf(),
        ensures
            r == (self.registry().next_id() < u64::MAX),
    {
        self.event_loop.keyboard_callbacks.can_register()
    }

    /// Ends the subscription of `guard`; its handler is not called from the
    /// next dispatch on, and every other live subscription stays.
    pub fn unsubscribe(&mut self, guard: CallbackGuard)
        requires
            old(self).wf(),
        ensures
            final(self).wf(),
            forall|x: u64| #[trigger] final(self).subscription_ids(guard.spec_kind()).contains(x) <==> (old(
                self,
            ).subscription_ids(guard.spec_kind()).contains(x) && x != guard.spec_id()),
            final(self).pressed() == old(self).pressed(),
            final(self).global_callbacks() == old(self).global_callbacks(),
            final(self).emits_repeats() == old(self).emits_repeats(),
            final(self).registry().next_id() == old(self).registry().next_id(),
            final(self).registry().key_down_slots() == (if guard.spec_kind() == CallbackKind::KeyDown {
                crate::callback::tombstone(old(self).registry().key_down_slots(), guard.spec_id())
            } else {
                old(self).registry().key_down_slots()
            }),
            final(self).registry().key_up_slots() == (if guard.spec_kind() == CallbackKind::KeyUp {
                crate::callback::tombstone(old(self).registry().key_up_slots(), guard.spec_id())
            } else {
                old(self).registry().key_up_slots()
            }),
            final(self).registry().keys_slots() == (if guard.spec_kind() == CallbackKind::Keys {
                crate::callback::tombstone(old(self).registry().keys_slots(), guard.spec_id())
            } else {
                old(self).registry().keys_slots()
            }),
    {
        let ghost kind = guard.spec_kind();
        let ghost id = guard.spec_id();
        self.event_loop.keyboard_callbacks.release(guard);
        proof {
            match kind {
                CallbackKind::KeyDown => lemma_release_ids(old(self).registry().key_down_slots(), id),
                CallbackKind::KeyUp => lemma_release_ids(old(self).registry().key_up_slots(), id),
                CallbackKind::Keys => lemma_release_ids(old(self).registry().keys_slots(), id),
            }
        }
    }

    /// The tagged transitions that press each code of `keys`, in order; the
    /// operating system posts them, and they come back marked simulated.
    pub fn press(&self, keys: Vec<u32>) -> (r: Vec<Injection>)
        ensures
            r@ == plan_spec(keys@, true),
    {
        plan(&keys, true)
    }

    /// The tagged transitions that release each code of `keys`, in order.
    pub fn release(&self, keys: Vec<u32>) -> (r: Vec<Injection>)
        ensures
            r@ == plan_spec(keys@, false),
    {
        plan(&keys, false)
    }

    /// Records `event` in the snapshot, sweeps released subscriptions of its
    /// kind and of the batch kind out, and takes what the dispatch of the
    /// event needs.
    pub fn prepare_dispatch(&mut self, event: KeyEvent) -> (d: Dispatch<F, G>)
        requires
            old(self).wf(),
        ensures
            final(self).wf(),
            final(self).pressed() == apply_event(old(self).pressed(), event),
            final(self).global_callbacks() == old(self).global_callbacks(),
            final(self).registry().next_id() == old(self).registry().next_id(),
            final(self).registry().keys_slots() == live_slots(old(self).registry().keys_slots()),
            event.is_pressed ==> final(self).registry().key_down_slots() == live_slots(
                old(self).registry().key_down_slots(),
            ) && final(self).registry().key_up_slots() == old(self).registry().key_up_slots(),
            !event.is_pressed ==> final(self).registry().key_up_slots() == live_slots(
                old(self).registry().key_up_slots(),
            ) && final(self).registry().key_down_slots() == old(self).registry().key_down_slots(),
            final(self).emits_repeats() == old(self).emits_repeats(),
            d.event == event,
            d.handlers@ == old(self).dispatched_handlers(event),
            d.batch@ == old(self).dispatched_batch(event),
            d.keys@ == final(self).pressed(),
            key_handlers_ready(d.handlers@),
            keys_handlers_ready(d.batch@),
    {
        let muted = event.is_pressed && !self.emit_repeats && self.keys.is_pressed(event.key_code);
        self.keys.apply(&event);
        let subscribed = if event.is_pressed {
            self.event_loop.keyboard_callbacks.live_key_down()
        } else {
            self.event_loop.keyboard_callbacks.live_key_up()
        };
        let mut handlers: Vec<Arc<F>> = Vec::new();
        let mut i: usize = 0;
        while i < self.callbacks.len()
            invariant
                i <= self.callbacks@.len(),
                handlers@ == self.callbacks@.take(i as int),
            decreases self.callbacks@.len() - i,
        {
            handlers.push(self.callbacks[i].clone());
            i = i + 1;
        }
        let mut j: usize = 0;
        while j < subscribed.len()
            invariant
                j <= subscribed@.len(),
                handlers@ == self.callbacks@ + subscribed@.take(j as int),
            decreases subscribed@.len() - j,
        {
            handlers.push(subscribed[j].clone());
            j = j + 1;
        }
        proof {
            assert(subscribed@.take(j as int) == subscribed@);
            lemma_ready_concat(self.callbacks@, subscribed@);
        }
        let batch = self.event_loop.keyboard_callbacks.live_keys();
        let keys = self.keys.get_keys();
        if muted {
            Dispatch { event, handlers: Vec::new(), batch: Vec::new(), keys }
        } else {
            Dispatch { event, handlers, batch, keys }
        }
    }

    /// Handles one transition from the capture source: records it, then
    /// dispatches it. A key-down is blocked exactly when a handler answered
    /// `false`; the handlers after that one are not called. A key-up reaches
    /// every handler and is never blocked. The batch handlers get the held
    /// keys.
    pub fn handle_event(&mut self, event: KeyEvent) -> (r: HookDecision)
        requires
            old(self).wf(),
        ensures
            final(self).wf(),
            final(self).pressed() == apply_event(old(self).pressed(), event),
            final(self).global_callbacks() == old(self).global_callbacks(),
            final(self).registry().next_id() == old(self).registry().next_id(),
            final(self).registry().keys_slots() == live_slots(old(self).registry().keys_slots()),
            event.is_pressed ==> final(self).registry().key_down_slots() == live_slots(
                old(self).registry().key_down_slots(),
            ) && final(self).registry().key_up_slots() == old(self).registry().key_up_slots(),
            !event.is_pressed ==> final(self).registry().key_up_slots() == live_slots(
                old(self).registry().key_up_slots(),
            ) && final(self).registry().key_down_slots() == old(self).registry().key_down_slots(),
            final(self).emits_repeats() == old(self).emits_repeats(),
            !event.is_pressed ==> r == HookDecision::Pass,
            keys_dispatched(old(self).dispatched_batch(event), final(self).pressed()),
            ({
                let hs = old(self).dispatched_handlers(event);
                &&& !event.is_pressed ==> all_answered(hs, &event)
                &&& event.is_pressed && r == HookDecision::Pass ==> forall|i: int|
                    0 <= i < hs.len() ==> (#[trigger] hs[i]).ensures((&event,), true)
                &&& event.is_pressed && r == HookDecision::Block ==> exists|i: int|
                    0 <= i < hs.len() && (#[trigger] hs[i]).ensures((&event,), false) && forall|j: int|
                        0 <= j < i ==> (#[trigger] hs[j]).ensures((&event,), true)
            }),
    {
        let d = self.prepare_dispatch(event);
        dispatch(&d)
    }
}

impl<F: Fn(&KeyEvent) -> bool, G: Fn(Vec<KeyEvent>) -> bool> DeviceQuery for DeviceState<F, G> {
    type KeysCallback = G;

    open spec fn ready(&self) -> bool {
        self.wf()
    }

    open spec fn held_keys(&self) -> Seq<KeyEvent> {
        self.pressed()
    }

    open spec fn next_subscription(&self) -> u64 {
        self.registry().next_id()
    }

    open spec fn subscription_ids(&self, kind: CallbackKind) -> Seq<u64> {
        match kind {
            CallbackKind::KeyDown => live_ids(self.registry().key_down_slots()),
            CallbackKind::KeyUp => live_ids(self.registry().key_up_slots()),
            CallbackKind::Keys => live_ids(self.registry().keys_slots()),
        }
    }

    open spec fn keys_callback_ok(callback: G) -> bool {
        keys_handler_ready(callback)
    }

    fn get_keys(&self) -> (r: Vec<KeyEvent>)
        ensures
            r@ == self.pressed(),
    {
        self.keys.get_keys()
    }

    fn subscribe_keys(&mut self, callback: G) -> (g: CallbackGuard)
        ensures
            ({
                let (o, n) = (old(self).registry(), final(self).registry());
                &&& n.keys_slots().len() == o.keys_slots().len() + 1
                &&& n.keys_slots().drop_last() == o.keys_slots()
                &&& n.keys_slots().last().id == o.next_id()
                &&& n.keys_slots().last().live
                &&& *n.keys_slots().last().handler == callback
                &&& n.key_down_slots() == o.key_down_slots()
                &&& n.key_up_slots() == o.key_up_slots()
                &&& n.next_id() == o.next_id() + 1
            }),
            final(self).pressed() == old(self).pressed(),
            final(self).global_callbacks() == old(self).global_callbacks(),
            final(self).emits_repeats() == old(self).emits_repeats(),
            g.spec_kind() == CallbackKind::Keys,
            g.spec_id() == old(self).registry().next_id(),
    {
        let g = self.event_loop.on_keys(callback);
        proof {
            let o = old(self).registry().keys_slots();
            let n = self.registry().keys_slots();
            assert(n == o.push(n.last()));
            lemma_live_push(o, n.last());
        }
        g
    }
}

impl<F: Fn(&KeyEvent) -> bool, G: Fn(Vec<KeyEvent>) -> bool> DeviceEvents for DeviceState<F, G> {
    type KeyCallback = F;

    open spec fn key_callback_ok(callback: F) -> bool {
        key_handler_ready(callback)
    }

    fn on_key_down(&mut self, callback: F) -> (g: CallbackGuard)
        ensures
            ({
                let (o, n) = (old(self).registry(), final(self).registry());
                &&& n.key_down_slots().len() == o.key_down_slots().len() + 1
                &&& n.key_down_slots().drop_last() == o.key_down_slots()
                &&& n.key_down_slots().last().id == o.next_id()
                &&& n.key_down_slots().last().live
                &&& *n.key_down_slots().last().handler == callback
                &&& n.key_up_slots() == o.key_up_slots()
                &&& n.keys_slots() == o.keys_slots()
                &&& n.next_id() == o.next_id() + 1
            }),
            final(self).pressed() == old(self).pressed(),
            final(self).global_callbacks() == old(self).global_callbacks(),
            final(self).emits_repeats() == old(self).emits_repeats(),
            g.spec_kind() == CallbackKind::KeyDown,
            g.spec_id() == old(self).registry().next_id(),
    {
        let g = self.event_loop.on_key_down(callback);
        proof {
            let o = old(self).registry().key_down_slots();
            let n = self.registry().key_down_slots();
            assert(n == o.push(n.last()));
            lemma_live_push(o, n.last());
        }
        g
    }

    fn on_key_up(&mut self, callback: F) -> (g: CallbackGuard)
        ensures
            ({
                let (o, n) = (old(self).registry(), final(self).registry());
                &&& n.key_up_slots().len() == o.key_up_slots().len() + 1
                &&& n.key_up_slots().drop_last() == o.key_up_slots()
                &&& n.key_up_slots().last().id == o.next_id()
                &&& n.key_up_slots().last().live
                &&& *n.key_up_slots().last().handler == callback
                &&& n.key_down_slots() == o.key_down_slots()
                &&& n.keys_slots() == o.keys_slots()
                &&& n.next_id() == o.next_id() + 1
            }),
            final(self).pressed() == old(self).pressed(),
            final(self).global_callbacks() == old(self).global_callbacks(),
            final(self).emits_repeats() == old(self).emits_repeats(),
            g.spec_kind() == CallbackKind::KeyUp,
            g.spec_id() == old(self).registry().next_id(),
    {
        let g = self.event_loop.on_key_up(callback);
        proof {
            let o = old(self).registry().key_up_slots();
            let n = self.registry().key_up_slots();
            assert(n == o.push(n.last()));
            lemma_live_push(o, n.last());
        }
        g
    }
}

} // verus!

use vstd::prelude::*;
use std::sync::Arc;
use crate::callback::{
    key_handler_ready, keys_handler_ready, CallbackGuard, CallbackKind, KeyboardCallbacks, Slot,
};
use crate::keymap::KeyEvent;

verus! {

/// The subscription side of the capture service: owns the callback registry
/// that the capture thread dispatches to.
pub struct EventLoop<F, G> {
    pub keyboard_callbacks: KeyboardCallbacks<F, G>,
}

impl<F: Fn(&KeyEvent) -> bool, G: Fn(Vec<KeyEvent>) -> bool> EventLoop<F, G> {
    pub open spec fn wf(&self) -> bool {
        self.keyboard_callbacks.wf()
    }

    /// An event loop with no subscription.
    pub fn new() -> (r: Self)
        ensures
            r.wf(),
            r.keyboard_callbacks.key_down_slots() == Seq::<Slot<F>>::empty(),
            r.keyboard_callbacks.key_up_slots() == Seq::<Slot<F>>::empty(),
            r.keyboard_callbacks.keys_slots() == Seq::<Slot<G>>::empty(),
            r.keyboard_callbacks.next_id() == 0,
    {
        EventLoop { keyboard_callbacks: KeyboardCallbacks::new() }
    }

    /// Subscribes `callback` to key-down transitions; the guard ends the
    /// subscription.
    pub fn on_key_down(&mut self, callback: F) -> (g: CallbackGuard)
        requires
            old(self).wf(),
            old(self).keyboard_callbacks.next_id() < u64::MAX,
            key_handler_ready(callback),
        ensures
            final(self).wf(),
            ({
                let (o, n) = (old(self).keyboard_callbacks, final(self).keyboard_callbacks);
                &&& n.key_down_slots().len() == o.key_down_slots().len() + 1
                &&& n.key_down_slots().drop_last() == o.key_down_slots()
                &&& n.key_down_slots().last().id == o.next_id()
                &&& n.key_down_slots().last().live
                &&& *n.key_down_slots().last().handler == callback
                &&& n.key_up_slots() == o.key_up_slots()
                &&& n.keys_slots() == o.keys_slots()
                &&& n.next_id() == o.next_id() + 1
            }),
            g.spec_kind() == CallbackKind::KeyDown,
            g.spec_id() == old(self).keyboard_callbacks.next_id(),
    {
        let g = self.keyboard_callbacks.push_key_down(Arc::new(callback));
        proof {
            let n = self.keyboard_callbacks.key_down_slots();
            assert(n.drop_last() == old(self).keyboard_callbacks.key_down_slots());
        }
        g
    }

    /// Subscribes `callback` to key-up transitions; the guard ends the
    /// subscription.
    pub fn on_key_up(&mut self, callback: F) -> (g: CallbackGuard)
        requires
            old(self).wf(),
            old(self).keyboard_callbacks.next_id() < u64::MAX,
            key_handler_ready(callback),
        ensures
            final(self).wf(),
            ({
                let (o, n) = (old(self).keyboard_callbacks, final(self).keyboard_callbacks);
                &&& n.key_up_slots().len() == o.key_up_slots().len() + 1
                &&& n.key_up_slots().drop_last() == o.key_up_slots()
                &&& n.key_up_slots().last().id == o.next_id()
                &&& n.key_up_slots().last().live
                &&& *n.key_up_slots().last().handler == callback
                &&& n.key_down_slots() == o.key_down_slots()
                &&& n.keys_slots() == o.keys_slots()
                &&& n.next_id() == o.next_id() + 1
            }),
            g.spec_kind() == CallbackKind::KeyUp,
            g.spec_id() == old(self).keyboard_callbacks.next_id(),
    {
        let g = self.keyboard_callbacks.push_key_up(Arc::new(callback));
        proof {
            let n = self.keyboard_callbacks.key_up_slots();
            assert(n.drop_last() == old(self).keyboard_callbacks.key_up_slots());
        }
        g
    }

    /// Subscribes `callback` to batches of the held keys; the guard ends the
    /// subscription.
    pub fn on_keys(&mut self, callback: G) -> (g: CallbackGuard)
        requires
            old(self).wf(),
            old(self).keyboard_callbacks.next_id() < u64::MAX,
            keys_handler_ready(callback),
        ensures
            final(self).wf(),
            ({
                let (o, n) = (old(self).keyboard_callbacks, final(self).keyboard_callbacks);
                &&& n.keys_slots().len() == o.keys_slots().len() + 1
                &&& n.keys_slots().drop_last() == o.keys_slots()
                &&& n.keys_slots().last().id == o.next_id()
                &&& n.keys_slots().last().live
                &&& *n.keys_slots().last().handler == callback
                &&& n.key_down_slots() == o.key_down_slots()
                &&& n.key_up_slots() == o.key_up_slots()
                &&& n.next_id() == o.next_id() + 1
            }),
            g.spec_kind() == CallbackKind::Keys,
            g.spec_id() == old(self).keyboard_callbacks.next_id(),
    {
        let g = self.keyboard_callbacks.push_keys(Arc::new(callback));
        proof {
            let n = self.keyboard_callbacks.keys_slots();
            assert(n.drop_last() == old(self).keyboard_callbacks.keys_slots());
        }
        g
    }
}

} // verus!

use vstd::prelude::*;
use crate::callback::{CallbackGuard, CallbackKind};
use crate::keymap::KeyEvent;

verus! {

/// Querying the keyboard state, and subscribing to it.
pub trait DeviceQuery: Sized {
    /// The handler type of batch subscriptions.
    type KeysCallback;

    /// The state is well formed.
    spec fn ready(&self) -> bool;

    /// The held keys, one record each.
    spec fn held_keys(&self) -> Seq<KeyEvent>;

    /// The id the next subscription will get.
    spec fn next_subscription(&self) -> u64;

    /// The ids of the live subscriptions of `kind`, in registration order.
    spec fn subscription_ids(&self, kind: CallbackKind) -> Seq<u64>;

    /// `callback` may be called on any list of events.
    spec fn keys_callback_ok(callback: Self::KeysCallback) -> bool;

    /// The keys held down, one record each.
    fn get_keys(&self) -> (r: Vec<KeyEvent>)
        requires
            self.ready(),
        ensures
            r@ == self.held_keys(),
    ;

    /// Subscribes `callback` to batches of the held keys, after every earlier
    /// batch subscription.
    fn subscribe_keys(&mut self, callback: Self::KeysCallback) -> (g: CallbackGuard)
        requires
            old(self).ready(),
            old(self).next_subscription() < u64::MAX,
            Self::keys_callback_ok(callback),
        ensures
            final(self).ready(),
            g.spec_kind() == CallbackKind::Keys,
            g.spec_id() == old(self).next_subscription(),
            final(self).next_subscription() == old(self).next_subscription() + 1,
            final(self).subscription_ids(CallbackKind::Keys) == old(self).subscription_ids(
                CallbackKind::Keys,
            ).push(g.spec_id()),
            final(self).subscription_ids(CallbackKind::KeyDown) == old(self).subscription_ids(
                CallbackKind::KeyDown,
            ),
            final(self).subscription_ids(CallbackKind::KeyUp) == old(self).subscription_ids(
                CallbackKind::KeyUp,
            ),
            final(self).held_keys() == old(self).held_keys(),
    ;
}

} // verus!

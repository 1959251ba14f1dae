use vstd::prelude::*;
use crate::callback::{CallbackGuard, CallbackKind};
use crate::device_query::DeviceQuery;

verus! {

/// Subscribing to single key transitions.
pub trait DeviceEvents: DeviceQuery {
    /// The handler type of single-key subscriptions.
    type KeyCallback;

    /// `callback` may be called on any event.
    spec fn key_callback_ok(callback: Self::KeyCallback) -> bool;

    /// Subscribes `callback` to key-down transitions, after every earlier
    /// key-down subscription.
    fn on_key_down(&mut self, callback: Self::KeyCallback) -> (g: CallbackGuard)
        requires
            old(self).ready(),
            old(self).next_subscription() < u64::MAX,
            Self::key_callback_ok(callback),
        ensures
            final(self).ready(),
            g.spec_kind() == CallbackKind::KeyDown,
            g.spec_id() == old(self).next_subscription(),
            final(self).next_subscription() == old(self).next_subscription() + 1,
            final(self).subscription_ids(CallbackKind::KeyDown) == old(self).subscription_ids(
                CallbackKind::KeyDown,
            ).push(g.spec_id()),
            final(self).subscription_ids(CallbackKind::KeyUp) == old(self).subscription_ids(
                CallbackKind::KeyUp,
            ),
            final(self).subscription_ids(CallbackKind::Keys) == old(self).subscription_ids(
                CallbackKind::Keys,
            ),
            final(self).held_keys() == old(self).held_keys(),
    ;

    /// Subscribes `callback` to key-up transitions, after every earlier
    /// key-up subscription.
    fn on_key_up(&mut self, callback: Self::KeyCallback) -> (g: CallbackGuard)
        requires
            old(self).ready(),
            old(self).next_subscription() < u64::MAX,
            Self::key_callback_ok(callback),
        ensures
            final(self).ready(),
            g.spec_kind() == CallbackKind::KeyUp,
            g.spec_id() == old(self).next_subscription(),
            final(self).next_subscription() == old(self).next_subscription() + 1,
            final(self).subscription_ids(CallbackKind::KeyUp) == old(self).subscription_ids(
                CallbackKind::KeyUp,
            ).push(g.spec_id()),
            final(self).subscription_ids(CallbackKind::KeyDown) == old(self).subscription_ids(
                CallbackKind::KeyDown,
            ),
            final(self).subscription_ids(CallbackKind::Keys) == old(self).subscription_ids(
                CallbackKind::Keys,
            ),
            final(self).held_keys() == old(self).held_keys(),
    ;
}

} // verus!

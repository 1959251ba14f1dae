//! Keyboard capture core: normalized key events, the pressed-key snapshot,
//! key-state differencing for polling platforms, a callback registry with
//! guard-based lifetimes, dispatch with blocking semantics, and the plans for
//! synthetic key injection.
//!
//! The operating-system hooks themselves live outside this crate; they hand
//! plain values in and carry the decisions made here back out.

pub mod keymap;
pub mod snapshot;
pub mod callback;
pub mod differ;
pub mod hook;
pub mod inject;
pub mod event_loop;
pub mod device_query;
pub mod device_events;
pub mod device_state;

pub use keymap::KeyEvent;
pub use snapshot::KeySnapshot;
pub use callback::{CallbackGuard, CallbackKind, KeyboardCallbacks};
pub use device_events::DeviceEvents;
pub use device_query::DeviceQuery;
pub use device_state::{DeviceState, Dispatch};
pub use event_loop::EventLoop;
pub use hook::HookDecision;
pub use inject::Injection;

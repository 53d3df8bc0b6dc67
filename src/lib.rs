//! An overlay node's discovery and dissemination engine: the peer-admission
//! state machine, the self address record, the maintenance timers and the
//! delivered-message set, driven one event at a time by a host event loop.

pub mod text;
pub mod record;
pub mod registry;
pub mod delivered;
pub mod events;
pub mod engine;

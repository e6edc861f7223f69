//! Verified core of a Wayland screen locker: password entry, the lock
//! screen's state machines, the session's authentication bookkeeping,
//! configuration parsing and the pixel work on captured and decoded images.

pub mod keys;
pub mod text;
pub mod clock;
pub mod secret;
pub mod input;
pub mod lock;
pub mod session;
pub mod feedback;
pub mod auth;
pub mod config;
pub mod system;
pub mod pixels;
pub mod effects;
pub mod status;

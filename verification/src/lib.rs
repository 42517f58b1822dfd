//! Overlay lifecycle and screenshot-caching core of a screen-capture utility.
//!
//! The library owns the selection-rectangle clamping rules, a size-bounded,
//! TTL-expiring cache of encoded captures, a pool of reusable overlay window
//! handles, a TTL cache for OS permission probes, and the coordinator that
//! ties a selection request to a capture result and a guaranteed overlay
//! teardown. Window-system calls, OCR, event emission and file persistence
//! are collaborators: the surrounding application performs them and hands
//! their outcomes to the functions here as plain values.

pub mod bounds;
pub mod errors;
pub mod platform;
pub mod cache;
pub mod pool;
pub mod permission;
pub mod state;
pub mod coordinator;

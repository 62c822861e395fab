//! Policy engine for an auto-maximizing tiling daemon.
//!
//! The engine keeps a minimal index of which compositor windows are tiled
//! and where, reduces incoming compositor events into that index, decides
//! per affected workspace whether a window must be maximized or
//! un-maximized, and plans each action so that keyboard focus is preserved.
//! All I/O against the compositor lives outside this crate; the engine
//! works on plain values.

pub mod evaluator;
pub mod faults;
pub mod model;
pub mod performer;
pub mod snapshot;
pub mod tracker;

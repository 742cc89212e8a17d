//! Desktop-session automation core: an event-hook dispatch engine.
//!
//! The crate models the registry that maps event kinds to user-supplied
//! shell hooks, the six event sources that watch the host for changes,
//! and the dispatch rules that decide which hooks fire for an event.

use vstd::prelude::*;

pub mod bspwm;
pub mod commands;
pub mod config;
pub mod context;
pub mod events;
pub mod hooks;
pub mod leftwm;
pub mod msgs;
pub mod qtile;
pub mod sentinel;
pub mod server;
pub mod text;
pub mod wm_lib;

verus! {

/// Wire marker that opens an error record from the connection tracer.
pub const MSG_ERROR: char = '\u{7}';

/// Wire marker that opens a well-formed record from the connection tracer.
pub const MSG_SUCCESS: char = '\u{0}';

/// Field separator in the connection tracer's wire format.
pub const MSG_DELIM: char = '\u{1}';

} // verus!

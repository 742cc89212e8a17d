//! Control messages delivered to the dispatch loop.

use vstd::prelude::*;

verus! {

/// A command for the dispatch loop; sending `Exit` is the only way the
/// loop terminates.
pub enum EventCmd {
    Exit,
}

} // verus!

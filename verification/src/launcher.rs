//! The launcher itself: a stateless handle whose methods are spread over the
//! modules of this crate, one module per concern.

use vstd::prelude::*;

verus! {

/// Entry point to every decision the launcher takes.
///
/// It holds no state: two launchers behave alike, and every method is a
/// function of its arguments.
pub struct Launcher {}

impl Launcher {
    pub fn new() -> (launcher: Launcher) {
        Launcher {  }
    }
}

} // verus!

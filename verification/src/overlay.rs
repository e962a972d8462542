//! Screen overlays.

use vstd::prelude::*;

verus! {

/// Overlay that draws nothing: used when the overlay is disabled or the
/// platform has none.
pub struct NoopOverlay;

impl NoopOverlay {
    /// Drawing a command does nothing.
    pub fn show<C>(&self, _command: C) {
    }

    /// Dismissing does nothing.
    pub fn dismiss(&self) {
    }
}

} // verus!

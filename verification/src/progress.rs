//! Whether progress bars are drawn: they are suppressed while work runs in parallel, so
//! that bars of inner steps do not interleave.

use vstd::prelude::*;

verus! {

/// The switch that suppresses progress bars and spinners.
#[derive(Clone, Copy, Debug)]
pub struct ProgressControl {
    suppressed: bool,
}

impl ProgressControl {
    /// Progress bars are suppressed.
    pub closed spec fn suppressed(&self) -> bool {
        self.suppressed
    }

    /// A switch with bars shown.
    pub fn new() -> (p: ProgressControl)
        ensures
            !p.suppressed(),
    {
        ProgressControl { suppressed: false }
    }

    /// Suppresses bars (`yes`) or shows them again.
    pub fn suppress(&mut self, yes: bool)
        ensures
            final(self).suppressed() == yes,
    {
        self.suppressed = yes;
    }

    /// Whether bars are suppressed: a bar or spinner made now is hidden.
    pub fn is_suppressed(&self) -> (b: bool)
        ensures
            b == self.suppressed(),
    {
        self.suppressed
    }
}

} // verus!

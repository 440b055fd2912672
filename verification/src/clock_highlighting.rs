//! How clock signals are highlighted.
use vstd::prelude::*;

verus! {

/// How the edges of clock signals are highlighted in the wave form view.
#[derive(Clone, Copy, Debug, PartialEq, Eq, Structural)]
pub enum ClockHighlightType {
    /// Draw a line at every posedge of the clocks
    Line,
    /// Highlight every other cycle
    Cycle,
    /// No highlighting
    NoHighlight,
}

} // verus!

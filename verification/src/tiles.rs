//! The panes of the tiled central panel.
use crate::text::{chars_of, nat_decimal, push_decimal, string_of};
use vstd::prelude::*;

verus! {

/// Unique identifier for tiles within the application
pub type SurferTileId = u64;

/// Pane types supported by the tiling system
#[derive(Debug, Clone, Copy, PartialEq, Eq, Structural)]
pub enum SurferPane {
    /// The primary waveform view with variable list, values, and canvas.
    /// Only one instance exists; it cannot be closed or removed.
    Waveform,
    /// Placeholder tile, for debug purposes.
    /// Renders current tile tree. Can be closed by user.
    DebugTile(SurferTileId),
}

/// The title shown for a pane.
pub open spec fn pane_title(pane: SurferPane) -> Seq<char> {
    match pane {
        SurferPane::Waveform => "Waveform"@,
        SurferPane::DebugTile(id) => "Debug Tile "@ + nat_decimal(id as nat),
    }
}

impl SurferPane {
    /// Returns the display name for this pane type
    pub fn title(&self) -> (res: String)
        ensures
            res@ == pane_title(*self),
    {
        match self {
            SurferPane::Waveform => "Waveform".to_owned(),
            SurferPane::DebugTile(id) => {
                let mut text = chars_of("Debug Tile ");
                push_decimal(*id, &mut text);
                string_of(&text)
            },
        }
    }
}

} // verus!

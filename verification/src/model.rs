//! Plain-value models of the compositor's window and placement data.

use vstd::prelude::*;

verus! {

/// The last-known tiling placement of a tracked window: the workspace it
/// sits on and its column/tile slot in the scrolling layout.
#[derive(Debug, PartialEq, Eq, Structural, Clone, Copy)]
pub struct WindowPosition {
    pub workspace_id: u64,
    pub column: usize,
    pub tile: usize,
}

/// Everything the engine reads of one compositor window, as plain values:
/// its identifier, optional workspace membership, floating flag, optional
/// (column, tile) slot in the scrolling layout, and tile width in pixels.
#[derive(Debug, Clone, Copy)]
pub struct WindowInfo {
    pub id: u64,
    pub workspace_id: Option<u64>,
    pub is_floating: bool,
    pub pos_in_scrolling_layout: Option<(usize, usize)>,
    pub tile_width: u32,
}

impl WindowInfo {
    /// The index entry this window would occupy: `Some` exactly when the
    /// window is tiled (not floating), assigned to a workspace, and has a
    /// position in the scrolling layout.
    pub open spec fn tracked_entry(self) -> Option<WindowPosition> {
        if !self.is_floating && self.workspace_id is Some
            && self.pos_in_scrolling_layout is Some {
            Some(
                WindowPosition {
                    workspace_id: self.workspace_id->0,
                    column: (self.pos_in_scrolling_layout->0).0,
                    tile: (self.pos_in_scrolling_layout->0).1,
                },
            )
        } else {
            None
        }
    }
}

} // verus!

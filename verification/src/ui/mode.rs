//! The modes of the user interface.

use vstd::prelude::*;

verus! {

/// What the user interface shows.
#[derive(Clone, Copy, Debug, PartialEq, Eq, Structural)]
pub enum UiMode {
    /// All panels.
    Default,
    /// The splats alone; the panels can be had back.
    FullScreenSplat,
    /// Nothing but the splats, for good.
    EmbeddedViewer,
}

impl Default for UiMode {
    fn default() -> (r: UiMode)
        ensures
            r == UiMode::Default,
    {
        UiMode::Default
    }
}

impl UiMode {
    /// The mode after the key for the full screen.
    pub open spec fn after_toggle(self) -> UiMode {
        match self {
            UiMode::Default => UiMode::FullScreenSplat,
            UiMode::FullScreenSplat => UiMode::Default,
            UiMode::EmbeddedViewer => UiMode::EmbeddedViewer,
        }
    }

    /// The user can move the camera, and panes have tabs.
    pub open spec fn interactive(self) -> bool {
        self != UiMode::EmbeddedViewer
    }

    /// Switch to the full screen, or back.
    pub fn toggled(self) -> (r: UiMode)
        ensures
            r == self.after_toggle(),
    {
        match self {
            UiMode::Default => UiMode::FullScreenSplat,
            UiMode::FullScreenSplat => UiMode::Default,
            UiMode::EmbeddedViewer => UiMode::EmbeddedViewer,
        }
    }

    /// Whether the user can move the camera.
    pub fn is_interactive(self) -> (r: bool)
        ensures
            r == self.interactive(),
    {
        match self {
            UiMode::Default => true,
            UiMode::FullScreenSplat => true,
            UiMode::EmbeddedViewer => false,
        }
    }

    /// Whether every pane stands in tabs.
    pub fn all_panes_must_have_tabs(self) -> (r: bool)
        ensures
            r == self.interactive(),
    {
        self.is_interactive()
    }

    /// Points between two tiles.
    pub fn gap_width(self) -> (r: u8)
        ensures
            r == if self == UiMode::Default {
                1int
            } else {
                0
            },
    {
        if self == UiMode::Default {
            1
        } else {
            0
        }
    }
}

} // verus!

//! Which chrome a window's picture actually wears, as opposed to the chrome its
//! configuration asks for.

use vstd::prelude::*;

verus! {

/// The chrome drawn around one window.
#[derive(Clone, Copy, Debug, PartialEq, Eq, Structural)]
pub struct DrawnChrome {
    pub ssd_bar: bool,
    pub border_width: i32,
    pub corner_radius: i32,
    pub shadow: bool,
}

impl DrawnChrome {
    /// No chrome at all.
    pub fn none() -> (chrome: DrawnChrome)
        ensures
            chrome == (DrawnChrome {
                ssd_bar: false,
                border_width: 0,
                corner_radius: 0,
                shadow: false,
            }),
    {
        DrawnChrome { ssd_bar: false, border_width: 0, corner_radius: 0, shadow: false }
    }

    /// A fullscreen window sheds all of it; one covering the usable area keeps
    /// its bar and border but draws square and without shadow.
    pub fn drawn(self, is_fullscreen: bool, covers_usable_area: bool) -> (chrome: DrawnChrome)
        ensures
            chrome == self.gated(is_fullscreen, covers_usable_area),
    {
        if is_fullscreen {
            return DrawnChrome::none();
        }
        if covers_usable_area {
            return DrawnChrome {
                ssd_bar: self.ssd_bar,
                border_width: self.border_width,
                corner_radius: 0,
                shadow: false,
            };
        }
        self
    }

    /// The chrome that is left of the configured one.
    pub open spec fn gated(self, is_fullscreen: bool, covers_usable_area: bool) -> DrawnChrome {
        DrawnChrome {
            ssd_bar: self.ssd_bar && !is_fullscreen,
            border_width: if is_fullscreen {
                0
            } else {
                self.border_width
            },
            corner_radius: if is_fullscreen || covers_usable_area {
                0
            } else {
                self.corner_radius
            },
            shadow: self.shadow && !is_fullscreen && !covers_usable_area,
        }
    }
}

/// Gating twice by the same state is gating once.
pub proof fn law_gate_is_idempotent(
    chrome: DrawnChrome,
    is_fullscreen: bool,
    covers_usable_area: bool,
)
    ensures
        chrome.gated(is_fullscreen, covers_usable_area).gated(is_fullscreen, covers_usable_area)
            == chrome.gated(is_fullscreen, covers_usable_area),
{
}

} // verus!

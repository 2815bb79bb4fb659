//! Output modes as they are asked for.

use vstd::prelude::*;

verus! {

/// What mode the user or a client asked for.
#[derive(Clone, Copy, Debug, PartialEq, Eq, Structural)]
pub enum ModeIntent {
    /// Index into the connector's advertised modes.
    EdidIndex(usize),
    /// A custom mode, tried as an exact match first.
    Custom { w: i32, h: i32, refresh_mhz: i32 },
    /// The connector's preferred mode.
    Preferred,
    /// The highest resolution, then the highest refresh rate.
    Max,
}

} // verus!

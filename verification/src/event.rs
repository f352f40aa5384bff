//! Terminal input values accepted by the frontend state machine.
use vstd::prelude::*;

verus! {

/// Frontend pointer gestures after terminal-specific decoding.
#[derive(Debug, Clone, Copy, PartialEq, Eq, Structural)]
pub enum PointerEvent {
    Wheel { up: bool },
    PrimaryPress { column: u16, row: u16 },
    PrimaryDrag { column: u16, row: u16 },
    PrimaryRelease { column: u16, row: u16 },
    FocusLost,
}

} // verus!

//! Input-state vocabulary shared with the event loop: the status of a key
//! or mouse button across a frame boundary.

use vstd::prelude::*;

verus! {

/// Status of a key or button on a given frame.
#[derive(Clone, Copy, PartialEq, Eq, Structural, Debug)]
pub enum KeyStatus {
    Pressed,
    JustPressed,
    JustReleased,
    Released,
}

} // verus!

//! The panel.

use vstd::prelude::*;

verus! {

/// Native (portrait) width of the panel.
pub const WIDTH: u16 = 240;

/// Native (portrait) height of the panel.
pub const HEIGHT: u16 = 320;

} // verus!

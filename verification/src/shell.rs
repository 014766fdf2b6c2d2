//! Fixed configuration of the interactive shell session.
//!
//! The pseudo-terminal is allocated with one fixed geometry and one fixed
//! control-character mapping; it is not reconfigurable at runtime. This is
//! a stated limitation of the engine, not an accident.

use vstd::prelude::*;

verus! {

/// The interrupt control character requested for the pseudo-terminal:
/// ASCII ETX, the conventional interrupt byte.
pub const INTERRUPT_CHAR: u8 = 3;

/// Width of the pseudo-terminal, in character cells.
pub const PTY_WIDTH_CELLS: u32 = 500;

/// Height of the pseudo-terminal, in character cells.
pub const PTY_HEIGHT_CELLS: u32 = 500;

/// Width of the pseudo-terminal, in pixels.
pub const PTY_WIDTH_PX: u32 = 500;

/// Height of the pseudo-terminal, in pixels.
pub const PTY_HEIGHT_PX: u32 = 500;

/// The terminal type identifier requested for the pseudo-terminal.
pub fn pty_term_type() -> (r: &'static str)
    ensures
        r@ == "ansi"@,
{
    "ansi"
}

/// The fixed pseudo-terminal geometry, as width and height in cells
/// followed by width and height in pixels.
pub fn pty_geometry() -> (r: (u32, u32, u32, u32))
    ensures
        r.0 == PTY_WIDTH_CELLS,
        r.1 == PTY_HEIGHT_CELLS,
        r.2 == PTY_WIDTH_PX,
        r.3 == PTY_HEIGHT_PX,
{
    (PTY_WIDTH_CELLS, PTY_HEIGHT_CELLS, PTY_WIDTH_PX, PTY_HEIGHT_PX)
}

} // verus!

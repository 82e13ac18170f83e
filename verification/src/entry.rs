//! The entry of the stage: a heartbeat on the display, two cells that show
//! that the stage was reached.

use vstd::prelude::*;

verus! {

/// The first heartbeat cell: a glyph in the low byte, its attribute in the
/// high byte.
pub const HEARTBEAT_FIRST: u16 = 0x2f4f;

/// The second heartbeat cell.
pub const HEARTBEAT_SECOND: u16 = 0x2f4b;

/// Writes the heartbeat over the first two cells of the display and touches
/// no other cell. On the machine the stage halts after this and never hands
/// control back; that halt is the caller's, so that this function can run
/// where a caller waits for it.
pub fn rust_main(display: &mut [u16])
    requires
        old(display)@.len() >= 2,
    ensures
        final(display)@ == old(display)@.update(0, HEARTBEAT_FIRST).update(1, HEARTBEAT_SECOND),
{
    display[0] = HEARTBEAT_FIRST;
    display[1] = HEARTBEAT_SECOND;
}

} // verus!

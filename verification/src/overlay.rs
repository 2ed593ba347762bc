//! The window on which the overlay is drawn.
use vstd::prelude::*;

verus! {

/// The style bits of a window's caption.
pub const WS_CAPTION: u32 = 0x00C0_0000;

/// The window style without a caption; all other bits stay.
pub fn without_caption(style: u32) -> (bare: u32)
    ensures
        bare & WS_CAPTION == 0,
        bare | WS_CAPTION == style | WS_CAPTION,
        bare == style & !WS_CAPTION,
{
    let bare = style & !WS_CAPTION;
    assert(bare & WS_CAPTION == 0 && bare | WS_CAPTION == style | WS_CAPTION) by (bit_vector)
        requires
            bare == style & !WS_CAPTION,
    ;
    bare
}

/// What to do after a message was taken from the queue.
#[derive(Clone, Copy, Debug, PartialEq, Eq, Structural)]
pub enum Pump {
    /// The queue could not be read; the error may end the loop.
    Fail,
    /// The program is over.
    Quit,
    Dispatch,
}

/// What to do for the number that taking a message from the queue returned.
pub fn pump(taken: i32) -> (next: Pump)
    ensures
        next == (if taken == -1 {
            Pump::Fail
        } else if taken == 0 {
            Pump::Quit
        } else {
            Pump::Dispatch
        }),
{
    if taken == -1 {
        Pump::Fail
    } else if taken == 0 {
        Pump::Quit
    } else {
        Pump::Dispatch
    }
}

} // verus!

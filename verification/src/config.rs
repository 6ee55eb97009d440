use vstd::prelude::*;

use crate::swipe::Swipe;

verus! {

/// What the caller's callback asks the run loop to do after an event: push
/// the canvas to the display, stop the loop, or skip the push.
#[derive(Debug)]
pub enum RunResponse {
    Exit,
    NothingChanged,
    Draw,
}

/// What a run loop hands to the caller's callback: the initial call, a timer
/// tick (milliseconds since the previous tick, milliseconds since start), or
/// a fused swipe.
#[derive(Debug)]
pub enum Event {
    Startup,
    Timer(usize, usize),
    Swipe(Swipe),
}

} // verus!

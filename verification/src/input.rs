use vstd::prelude::*;

use crate::point::{StreamedPoint, Timeval};
use crate::swipe::SwipeFragment;

verus! {

/// A low-level input event as a device reports it: one absolute axis at a
/// time, a button transition, or something the library does not use.
#[derive(Debug, Copy, Clone)]
pub enum InputEvent {
    PartialX(isize, Timeval),
    PartialY(isize, Timeval),
    ButtonDown(usize),
    Unknown,
}

/// Translate a low-level input event into fusion input: an axis update
/// becomes a single-axis point fragment, a button transition reports the end
/// of the contact, and anything unrecognized is dropped.
pub fn fragment_from_event(event: &InputEvent) -> (r: Option<SwipeFragment>)
    ensures
        r == match *event {
            InputEvent::PartialX(x, time) => Some(
                SwipeFragment::PointFragment(StreamedPoint::X(time, x)),
            ),
            InputEvent::PartialY(y, time) => Some(
                SwipeFragment::PointFragment(StreamedPoint::Y(time, y)),
            ),
            InputEvent::ButtonDown(_) => Some(SwipeFragment::End),
            InputEvent::Unknown => None::<SwipeFragment>,
        },
{
    match event {
        InputEvent::PartialX(x, time) => Some(
            SwipeFragment::PointFragment(StreamedPoint::X(*time, *x)),
        ),
        InputEvent::PartialY(y, time) => Some(
            SwipeFragment::PointFragment(StreamedPoint::Y(*time, *y)),
        ),
        InputEvent::ButtonDown(_) => Some(SwipeFragment::End),
        InputEvent::Unknown => None,
    }
}

} // verus!

use vstd::prelude::*;

use crate::streamed_data::{StreamedData, StreamedState};

verus! {

/// A (seconds, microseconds) timestamp. The order is lexicographic: seconds
/// first, then microseconds. Fragment pairing relies on exact equality of
/// both components, never on proximity.
#[derive(Ord, PartialOrd, Eq, PartialEq, Structural, Debug, Copy, Clone)]
pub struct Timeval(pub isize, pub isize);

/// Declares libc's `timeval` to the verifier, fields included: two public
/// integer fields, `tv_sec` and `tv_usec`.
#[verifier::external_type_specification]
pub struct ExTimeval(libc::timeval);

impl Timeval {
    /// Read a C `timeval`, as device drivers report event times: seconds and
    /// microseconds, each narrowed to `isize`.
    pub fn from_timeval(t: libc::timeval) -> (r: Timeval)
        ensures
            r.0 == t.tv_sec as isize,
            r.1 == t.tv_usec as isize,
    {
        Timeval(t.tv_sec as isize, t.tv_usec as isize)
    }

    /// `self` is strictly earlier than `other`.
    pub open spec fn spec_before(self, other: Timeval) -> bool {
        self.0 < other.0 || (self.0 == other.0 && self.1 < other.1)
    }

    /// Strict comparison in the lexicographic order on (seconds, microseconds).
    pub fn before(&self, other: &Timeval) -> (r: bool)
        ensures
            r == self.spec_before(*other),
    {
        self.0 < other.0 || (self.0 == other.0 && self.1 < other.1)
    }
}

/// A fully assembled input sample: one contact position at one instant.
#[derive(Eq, PartialEq, Structural, Debug, Copy, Clone)]
pub struct Point {
    pub time: Timeval,
    pub x: isize,
    pub y: isize,
}

/// The axis-fusion state: at most one pending single-axis fragment, waiting
/// for the complementary axis with the same timestamp.
#[derive(Eq, PartialEq, Structural, Debug, Copy, Clone)]
pub enum StreamedPoint {
    X(Timeval, isize),
    Y(Timeval, isize),
    Nothing,
}

/// A single-axis hardware update is represented by the state it would leave
/// behind when pending, so fragments and pending state share one type.
pub type PointFragment = StreamedPoint;

impl StreamedPoint {
    /// The fusion step: the state after absorbing `fragment`, and what that
    /// step emits. A complementary axis with the same timestamp completes a
    /// `Point` and clears the state; any other fragment (other than
    /// `Nothing`, which is ignored) replaces whatever was pending.
    pub open spec fn spec_update(self, fragment: PointFragment) -> (StreamedPoint, StreamedState<Point>) {
        match (self, fragment) {
            (StreamedPoint::X(timex, x), StreamedPoint::Y(timey, y))
            | (StreamedPoint::Y(timey, y), StreamedPoint::X(timex, x)) => {
                if timex == timey {
                    (StreamedPoint::Nothing, StreamedState::Complete(Point { time: timex, x, y }))
                } else {
                    (fragment, StreamedState::Incomplete)
                }
            }
            (_, StreamedPoint::Nothing) => (self, StreamedState::Incomplete),
            _ => (fragment, StreamedState::Incomplete),
        }
    }
}

/// Fusion completeness: an X and a Y fragment that carry the same timestamp,
/// fed in either order into an empty fusion state, complete exactly one
/// `Point` with that timestamp and both coordinates, and leave the state
/// empty again.
pub proof fn lemma_fusion_completeness(t: Timeval, x: isize, y: isize)
    ensures
        ({
            let (s1, r1) = StreamedPoint::Nothing.spec_update(StreamedPoint::X(t, x));
            let (s2, r2) = s1.spec_update(StreamedPoint::Y(t, y));
            r1 == StreamedState::<Point>::Incomplete
                && r2 == StreamedState::Complete(Point { time: t, x, y })
                && s2 == StreamedPoint::Nothing
        }),
        ({
            let (s1, r1) = StreamedPoint::Nothing.spec_update(StreamedPoint::Y(t, y));
            let (s2, r2) = s1.spec_update(StreamedPoint::X(t, x));
            r1 == StreamedState::<Point>::Incomplete
                && r2 == StreamedState::Complete(Point { time: t, x, y })
                && s2 == StreamedPoint::Nothing
        }),
{
}

/// Stale-fragment override: two fragments on opposite axes whose timestamps
/// differ never complete a point; the older pending fragment is discarded and
/// the newer fragment becomes the pending state.
pub proof fn lemma_stale_fragment_override(t1: Timeval, x1: isize, t2: Timeval, y2: isize)
    requires
        t1 != t2,
    ensures
        ({
            let (s1, r1) = StreamedPoint::Nothing.spec_update(StreamedPoint::X(t1, x1));
            let (s2, r2) = s1.spec_update(StreamedPoint::Y(t2, y2));
            s1 == StreamedPoint::X(t1, x1)
                && r1 == StreamedState::<Point>::Incomplete
                && s2 == StreamedPoint::Y(t2, y2)
                && r2 == StreamedState::<Point>::Incomplete
        }),
{
}

impl Default for StreamedPoint {
    fn default() -> (r: Self)
        ensures
            r == StreamedPoint::Nothing,
    {
        StreamedPoint::Nothing
    }
}

impl StreamedData<Point> for StreamedPoint {
    type Fragment = PointFragment;

    fn reset(&mut self)
        ensures
            *final(self) == StreamedPoint::Nothing,
    {
        *self = StreamedPoint::Nothing;
    }

    fn update(&mut self, fragment: PointFragment) -> (r: StreamedState<Point>)
        ensures
            (*final(self), r) == old(self).spec_update(fragment),
    {
        match (*self, fragment) {
            (StreamedPoint::X(timex, x), StreamedPoint::Y(timey, y))
            | (StreamedPoint::Y(timey, y), StreamedPoint::X(timex, x)) => {
                if timex == timey {
                    *self = StreamedPoint::Nothing;
                    StreamedState::Complete(Point { time: timex, x, y })
                } else {
                    *self = fragment;
                    StreamedState::Incomplete
                }
            }
            (_, StreamedPoint::Nothing) => StreamedState::Incomplete,
            _ => {
                *self = fragment;
                StreamedState::Incomplete
            }
        }
    }
}

} // verus!

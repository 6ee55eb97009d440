use vstd::prelude::*;

use crate::point::{Point, PointFragment, StreamedPoint, Timeval};
use crate::streamed_data::{StreamedData, StreamedState};

verus! {

/// Times strictly increase along a trace of points.
pub open spec fn times_strictly_sorted(points: Seq<Point>) -> bool {
    forall|i: int, j: int|
        #![trigger points[i], points[j]]
        0 <= i < j < points.len() ==> points[i].time.spec_before(points[j].time)
}

/// What appending one point to a non-empty trace yields: the point is kept
/// only if it is strictly later than the current last point.
pub open spec fn spec_push(points: Seq<Point>, point: Point) -> Seq<Point>
    recommends
        points.len() > 0,
{
    if points.last().time.spec_before(point.time) {
        points.push(point)
    } else {
        points
    }
}

/// The duration of a trace: last time minus first time, with the microsecond
/// difference taken modulo 1,000,000 and a borrow of one second when negative.
pub open spec fn spec_duration(points: Seq<Point>) -> Timeval
    recommends
        points.len() > 0,
{
    let first = points.first().time;
    let last = points.last().time;
    let micros = last.1 - first.1;
    Timeval(
        (last.0 - first.0 - if micros < 0 { 1int } else { 0int }) as isize,
        (micros % 1000000) as isize,
    )
}

/// Swipe monotonicity: pushing any point onto a non-empty, time-sorted trace
/// yields a time-sorted trace; a point not strictly later than the current
/// last point is dropped, leaving the trace unchanged.
pub proof fn lemma_push_preserves_monotonicity(points: Seq<Point>, point: Point)
    requires
        points.len() > 0,
        times_strictly_sorted(points),
    ensures
        times_strictly_sorted(spec_push(points, point)),
        spec_push(points, point).len() >= points.len(),
        !points.last().time.spec_before(point.time) ==> spec_push(points, point) == points,
{
    let s2 = spec_push(points, point);
    assert forall|i: int, j: int| 0 <= i < j < s2.len() implies (#[trigger] s2[i]).time.spec_before(
        (#[trigger] s2[j]).time,
    ) by {
        if j < points.len() {
            assert(points[i].time.spec_before(points[j].time));
        } else if i < points.len() - 1 {
            assert(points[i].time.spec_before(points[points.len() - 1].time));
        }
    }
}

/// The ordered, non-empty trace of one continuous contact, plus whether the
/// contact has been released.
#[derive(Debug)]
pub struct Swipe {
    pub points: Vec<Point>,
    pub finished: bool,
}

/// The ghost value of a `Swipe`.
pub struct SwipeView {
    pub points: Seq<Point>,
    pub finished: bool,
}

impl View for Swipe {
    type V = SwipeView;

    open spec fn view(&self) -> SwipeView {
        SwipeView { points: self.points@, finished: self.finished }
    }
}

impl Swipe {
    /// Non-empty, with strictly increasing times.
    pub open spec fn wf(self) -> bool {
        self.points@.len() > 0 && times_strictly_sorted(self.points@)
    }

    pub fn new(origin: Point) -> (r: Swipe)
        ensures
            r.points@ == seq![origin],
            r.finished == false,
            r.wf(),
    {
        Swipe { points: vec![origin], finished: false }
    }

    /// Mark the contact as released; the trace itself does not change.
    pub fn end(&mut self)
        ensures
            final(self).points@ == old(self).points@,
            final(self).finished == true,
    {
        self.finished = true;
    }

    /// Append `point` if it is strictly later than the last point; drop it
    /// otherwise. Dropping late or duplicate points is this type's anti-jitter
    /// policy, stated in `spec_push`, not an incidental effect.
    pub fn push(&mut self, point: Point)
        requires
            old(self).wf(),
        ensures
            final(self).points@ == spec_push(old(self).points@, point),
            final(self).finished == old(self).finished,
            final(self).wf(),
    {
        proof {
            lemma_push_preserves_monotonicity(self.points@, point);
        }
        let last_time: Timeval = self.last().time;
        if last_time.before(&point.time) {
            self.points.push(point);
        }
    }

    pub fn last(&self) -> (r: &Point)
        requires
            self.points@.len() > 0,
        ensures
            *r == self.points@.last(),
    {
        &self.points[self.points.len() - 1]
    }

    /// Net displacement from the first point to the last.
    pub fn vector(&self) -> (r: (isize, isize))
        requires
            self.points@.len() > 0,
            isize::MIN <= self.points@.last().x - self.points@.first().x <= isize::MAX,
            isize::MIN <= self.points@.last().y - self.points@.first().y <= isize::MAX,
        ensures
            r.0 == self.points@.last().x - self.points@.first().x,
            r.1 == self.points@.last().y - self.points@.first().y,
    {
        let first_x: isize = self.points[0].x;
        let first_y: isize = self.points[0].y;
        let last = self.last();
        (last.x - first_x, last.y - first_y)
    }

    /// The time spanned by the trace, with borrow-aware microsecond handling.
    pub fn duration(&self) -> (r: Timeval)
        requires
            self.points@.len() > 0,
            isize::MIN <= self.points@.last().time.1 - self.points@.first().time.1 <= isize::MAX,
            isize::MIN <= self.points@.last().time.0 - self.points@.first().time.0 - 1,
            self.points@.last().time.0 - self.points@.first().time.0 <= isize::MAX,
        ensures
            r == spec_duration(self.points@),
    {
        let first: Timeval = self.points[0].time;
        let last: Timeval = self.last().time;
        let micros: isize = last.1 - first.1;
        let sec: isize = last.0 - first.0 - (if micros < 0 { 1 } else { 0 });
        let m: isize = micros.checked_rem_euclid(1000000).unwrap();
        Timeval(sec, m)
    }
}

impl Clone for Swipe {
    /// A clone has the same trace and the same finished flag.
    fn clone(&self) -> (r: Self)
        ensures
            r.points@ == self.points@,
            r.finished == self.finished,
    {
        let mut points: Vec<Point> = Vec::new();
        let mut i: usize = 0;
        while i < self.points.len()
            invariant
                i <= self.points@.len(),
                points@ == self.points@.subrange(0, i as int),
            decreases self.points@.len() - i,
        {
            points.push(self.points[i]);
            i = i + 1;
            proof {
                assert(points@ =~= self.points@.subrange(0, i as int));
            }
        }
        proof {
            assert(points@ =~= self.points@);
        }
        Swipe { points, finished: self.finished }
    }
}

/// One unit of input for the contact-level fusion machine: either a partial
/// coordinate, or the release of the contact.
#[derive(Copy, Clone, Debug)]
pub enum SwipeFragment {
    PointFragment(PointFragment),
    End,
}

/// The fusion session for one physical contact: the swipe grown so far (if
/// any) plus the axis-fusion state for the next point.
#[derive(Debug)]
pub struct StreamedSwipe {
    pub(crate) swipe: Option<Swipe>,
    pub(crate) streamed_point: StreamedPoint,
}

/// The ghost value of a `StreamedSwipe`.
pub struct StreamedSwipeView {
    pub swipe: Option<SwipeView>,
    pub streamed_point: StreamedPoint,
}

impl View for StreamedSwipe {
    type V = StreamedSwipeView;

    closed spec fn view(&self) -> StreamedSwipeView {
        StreamedSwipeView {
            swipe: match self.swipe {
                Some(s) => Some(s@),
                None => None,
            },
            streamed_point: self.streamed_point,
        }
    }
}

/// The ghost value of one fusion outcome.
pub open spec fn swipe_state_view(st: StreamedState<Swipe>) -> StreamedState<SwipeView> {
    match st {
        StreamedState::Complete(s) => StreamedState::Complete(s@),
        StreamedState::Standalone(s) => StreamedState::Standalone(s@),
        StreamedState::Incomplete => StreamedState::Incomplete,
    }
}

impl StreamedSwipe {
    #[verifier::type_invariant]
    spec fn type_wf(self) -> bool {
        match self.swipe {
            Some(s) => s.wf() && !s.finished,
            None => true,
        }
    }

    /// The state of a fresh session: no swipe, no pending fragment.
    pub open spec fn initial_view() -> StreamedSwipeView {
        StreamedSwipeView { swipe: None, streamed_point: StreamedPoint::Nothing }
    }

    /// One step of the contact-fusion machine, over ghost state: a point
    /// fragment runs through axis fusion and, when a point completes, starts
    /// or extends the swipe; `End` finishes the swipe (if any) and resets the
    /// whole session.
    pub open spec fn spec_update(v: StreamedSwipeView, fragment: SwipeFragment) -> (StreamedSwipeView, StreamedState<SwipeView>) {
        match fragment {
            SwipeFragment::PointFragment(pf) => {
                let (sp2, st) = v.streamed_point.spec_update(pf);
                match st {
                    StreamedState::Complete(pt) | StreamedState::Standalone(pt) => {
                        let sv = match v.swipe {
                            Some(s) => SwipeView { points: spec_push(s.points, pt), finished: s.finished },
                            None => SwipeView { points: seq![pt], finished: false },
                        };
                        (
                            StreamedSwipeView { swipe: Some(sv), streamed_point: sp2 },
                            StreamedState::Standalone(sv),
                        )
                    }
                    StreamedState::Incomplete => {
                        (
                            StreamedSwipeView { swipe: v.swipe, streamed_point: sp2 },
                            StreamedState::Incomplete,
                        )
                    }
                }
            }
            SwipeFragment::End => {
                match v.swipe {
                    Some(s) => {
                        (
                            StreamedSwipe::initial_view(),
                            StreamedState::Complete(SwipeView { points: s.points, finished: true }),
                        )
                    }
                    None => (v, StreamedState::Incomplete),
                }
            }
        }
    }
}

/// Fusion reset on `End`: an `End` that completes a swipe resets the machine
/// to its initial state; and from any state with no swipe in progress, the
/// next step either stays swipe-less and reports `Incomplete`, or starts a
/// brand-new `Standalone` swipe holding exactly one point. It never reports
/// `Complete` from such a state.
pub proof fn lemma_fusion_reset_on_end(v: StreamedSwipeView, w: StreamedSwipeView, fragment: SwipeFragment)
    requires
        StreamedSwipe::spec_update(v, SwipeFragment::End).1 is Complete,
        w.swipe is None,
    ensures
        StreamedSwipe::spec_update(v, SwipeFragment::End).0 == StreamedSwipe::initial_view(),
        ({
            let (w2, st) = StreamedSwipe::spec_update(w, fragment);
            match st {
                StreamedState::Standalone(sv) => sv.points.len() == 1 && w2.swipe == Some(sv),
                StreamedState::Incomplete => w2.swipe is None,
                StreamedState::Complete(_) => false,
            }
        }),
{
}

impl Default for StreamedSwipe {
    fn default() -> (r: Self)
        ensures
            r@ == StreamedSwipe::initial_view(),
    {
        StreamedSwipe { swipe: None, streamed_point: StreamedPoint::Nothing }
    }
}

impl StreamedData<Swipe> for StreamedSwipe {
    type Fragment = SwipeFragment;

    fn reset(&mut self)
        ensures
            final(self)@ == StreamedSwipe::initial_view(),
    {
        self.swipe = None;
        self.streamed_point = StreamedPoint::Nothing;
    }

    fn update(&mut self, fragment: SwipeFragment) -> (r: StreamedState<Swipe>)
        ensures
            (final(self)@, swipe_state_view(r)) == StreamedSwipe::spec_update(old(self)@, fragment),
    {
        proof {
            use_type_invariant(&*self);
        }
        let mut taken = StreamedSwipe { swipe: None, streamed_point: StreamedPoint::Nothing };
        core::mem::swap(self, &mut taken);
        let StreamedSwipe { swipe, streamed_point } = taken;
        let mut sp = streamed_point;
        match fragment {
            SwipeFragment::PointFragment(pf) => {
                match sp.update(pf) {
                    StreamedState::Complete(pt) | StreamedState::Standalone(pt) => {
                        match swipe {
                            Some(mut s) => {
                                s.push(pt);
                                let out = s.clone();
                                *self = StreamedSwipe { swipe: Some(s), streamed_point: sp };
                                StreamedState::Standalone(out)
                            }
                            None => {
                                let s = Swipe::new(pt);
                                let out = s.clone();
                                *self = StreamedSwipe { swipe: Some(s), streamed_point: sp };
                                StreamedState::Standalone(out)
                            }
                        }
                    }
                    StreamedState::Incomplete => {
                        *self = StreamedSwipe { swipe, streamed_point: sp };
                        StreamedState::Incomplete
                    }
                }
            }
            SwipeFragment::End => {
                match swipe {
                    Some(mut s) => {
                        s.end();
                        StreamedState::Complete(s)
                    }
                    None => {
                        *self = StreamedSwipe { swipe: None, streamed_point: sp };
                        StreamedState::Incomplete
                    }
                }
            }
        }
    }
}

} // verus!

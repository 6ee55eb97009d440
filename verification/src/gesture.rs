use vstd::prelude::*;

use crate::point::Point;
use crate::swipe::{spec_duration, Swipe};

verus! {

/// A recognized gesture: a near-stationary `Tap` at the centroid of the
/// contact (whose time field carries the swipe duration), or a `Drag` from
/// the first point of the contact to the last.
#[derive(Eq, PartialEq, Structural, Copy, Clone, Debug)]
pub enum Gesture {
    Tap(Point),
    Drag(Point, Point),
}

/// The least element of a non-empty sequence of integers.
pub open spec fn seq_min(s: Seq<int>) -> int
    recommends
        s.len() > 0,
    decreases s.len(),
{
    if s.len() <= 1 {
        s[0]
    } else {
        let m = seq_min(s.drop_last());
        if s.last() < m {
            s.last()
        } else {
            m
        }
    }
}

/// The greatest element of a non-empty sequence of integers.
pub open spec fn seq_max(s: Seq<int>) -> int
    recommends
        s.len() > 0,
    decreases s.len(),
{
    if s.len() <= 1 {
        s[0]
    } else {
        let m = seq_max(s.drop_last());
        if s.last() > m {
            s.last()
        } else {
            m
        }
    }
}

/// The x coordinates of a trace.
pub open spec fn xs(points: Seq<Point>) -> Seq<int> {
    points.map(|i: int, p: Point| p.x as int)
}

/// The y coordinates of a trace.
pub open spec fn ys(points: Seq<Point>) -> Seq<int> {
    points.map(|i: int, p: Point| p.y as int)
}

/// Division by two rounding toward zero, as Rust's `/` does on signed values.
pub open spec fn div2_toward_zero(s: int) -> int {
    if s >= 0 {
        s / 2
    } else {
        -((-s) / 2)
    }
}

/// Halving the sum of two ordered values lands between them.
proof fn lemma_div2_between(lo: int, hi: int)
    requires
        lo <= hi,
    ensures
        lo <= div2_toward_zero(lo + hi) <= hi,
{
    let s = lo + hi;
    if s >= 0 {
        assert(2 * lo <= s <= 2 * hi);
        assert(lo <= s / 2 <= hi);
    } else {
        assert(2 * lo <= s);
        assert(-s <= 2 * (-lo));
        assert((-s) / 2 <= -lo);
        assert(2 * hi >= s);
        assert(-s >= 2 * (-hi));
        assert((-s) / 2 >= -hi);
    }
}

fn div2_toward_zero_exec(s: i128) -> (r: i128)
    requires
        i128::MIN < s,
    ensures
        r == div2_toward_zero(s as int),
{
    if s >= 0 {
        ((s as u128) / 2) as i128
    } else {
        -((((-s) as u128) / 2) as i128)
    }
}

impl Swipe {
    /// The bounding box of the trace, when it is no wider and no taller than
    /// `spread`: returns the centre of that box (each coordinate the halved
    /// sum of its extremes, rounded toward zero), and `None` for a trace that
    /// spreads further.
    pub fn narrow_enough(&self, spread: usize) -> (r: Option<(isize, isize)>)
        requires
            self.points@.len() > 0,
        ensures
            ({
                let lo_x = seq_min(xs(self.points@));
                let hi_x = seq_max(xs(self.points@));
                let lo_y = seq_min(ys(self.points@));
                let hi_y = seq_max(ys(self.points@));
                if hi_x - lo_x <= spread && hi_y - lo_y <= spread {
                    r == Some(
                        (
                            div2_toward_zero(lo_x + hi_x) as isize,
                            div2_toward_zero(lo_y + hi_y) as isize,
                        ),
                    )
                } else {
                    r is None
                }
            }),
    {
        let mut minx: isize = self.points[0].x;
        let mut maxx: isize = minx;
        let mut miny: isize = self.points[0].y;
        let mut maxy: isize = miny;
        let mut i: usize = 1;
        proof {
            assert(xs(self.points@).take(1)[0] == self.points@[0].x as int);
            assert(ys(self.points@).take(1)[0] == self.points@[0].y as int);
        }
        while i < self.points.len()
            invariant
                1 <= i <= self.points@.len(),
                self.points@.len() > 0,
                minx as int == seq_min(xs(self.points@).take(i as int)),
                maxx as int == seq_max(xs(self.points@).take(i as int)),
                miny as int == seq_min(ys(self.points@).take(i as int)),
                maxy as int == seq_max(ys(self.points@).take(i as int)),
            decreases self.points@.len() - i,
        {
            let px: isize = self.points[i].x;
            let py: isize = self.points[i].y;
            if px < minx {
                minx = px;
            }
            if px > maxx {
                maxx = px;
            }
            if py < miny {
                miny = py;
            }
            if py > maxy {
                maxy = py;
            }
            proof {
                let xseq = xs(self.points@);
                let yseq = ys(self.points@);
                assert(xseq.take(i as int + 1).drop_last() =~= xseq.take(i as int));
                assert(yseq.take(i as int + 1).drop_last() =~= yseq.take(i as int));
                assert(xseq.take(i as int + 1).last() == self.points@[i as int].x as int);
                assert(yseq.take(i as int + 1).last() == self.points@[i as int].y as int);
            }
            i = i + 1;
        }
        proof {
            assert(xs(self.points@).take(self.points@.len() as int) =~= xs(self.points@));
            assert(ys(self.points@).take(self.points@.len() as int) =~= ys(self.points@));
        }
        let sx: i128 = maxx as i128 - minx as i128;
        let sy: i128 = maxy as i128 - miny as i128;
        if sx <= spread as i128 && sy <= spread as i128 {
            proof {
                lemma_div2_between(minx as int, maxx as int);
                lemma_div2_between(miny as int, maxy as int);
            }
            let midx: i128 = div2_toward_zero_exec(minx as i128 + maxx as i128);
            let midy: i128 = div2_toward_zero_exec(miny as i128 + maxy as i128);
            Some((midx as isize, midy as isize))
        } else {
            None
        }
    }

    /// A finished, near-stationary contact is a `Tap` at the centre of its
    /// bounding box, carrying the swipe duration; any other contact is not.
    pub fn tap(&self, spread: usize) -> (r: Option<Gesture>)
        requires
            self.points@.len() > 0,
            self.finished ==> isize::MIN <= self.points@.last().time.1 - self.points@.first().time.1 <= isize::MAX,
            self.finished ==> isize::MIN <= self.points@.last().time.0 - self.points@.first().time.0 - 1,
            self.finished ==> self.points@.last().time.0 - self.points@.first().time.0 <= isize::MAX,
        ensures
            ({
                let lo_x = seq_min(xs(self.points@));
                let hi_x = seq_max(xs(self.points@));
                let lo_y = seq_min(ys(self.points@));
                let hi_y = seq_max(ys(self.points@));
                if self.finished && hi_x - lo_x <= spread && hi_y - lo_y <= spread {
                    r == Some(
                        Gesture::Tap(
                            Point {
                                x: div2_toward_zero(lo_x + hi_x) as isize,
                                y: div2_toward_zero(lo_y + hi_y) as isize,
                                time: spec_duration(self.points@),
                            },
                        ),
                    )
                } else {
                    r is None
                }
            }),
    {
        if self.finished {
            match self.narrow_enough(spread) {
                Some((x, y)) => Some(
                    Gesture::Tap(Point { x, y, time: self.duration() }),
                ),
                None => None,
            }
        } else {
            None
        }
    }

    /// Every trace classifies as a drag from its first point to its last,
    /// regardless of whether the contact has finished; a one-point trace
    /// gives a zero-length drag.
    pub fn drag(&self) -> (r: Option<Gesture>)
        requires
            self.points@.len() > 0,
        ensures
            r == Some(Gesture::Drag(self.points@.first(), self.points@.last())),
    {
        let first: Point = self.points[0];
        let last: Point = *self.last();
        Some(Gesture::Drag(first, last))
    }
}

} // verus!

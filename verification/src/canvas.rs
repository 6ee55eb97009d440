use vstd::prelude::*;

use crate::blit_map::BlitMap;
use crate::point::Point;
use crate::util::color_from_rgb;
use crate::util::line_points;
use crate::util::line_points_spec;
use crate::util::spec_color_from_rgba;

verus! {

/// Why a canvas operation was refused: a coordinate outside the buffer, or
/// two buffers whose sizes do not match.
#[derive(Eq, PartialEq, Structural, Copy, Clone, Debug)]
pub enum CanvasError {
    CoordinateOutOfBounds,
    SizeMismatch,
}

/// Whether `(px, py)` lies in the w-by-h rectangle whose top-left corner is
/// `(x, y)`.
pub open spec fn in_rect(px: int, py: int, x: int, y: int, w: int, h: int) -> bool {
    x <= px < x + w && y <= py < y + h
}

/// A row-major index `y * w + x` addresses exactly one cell of a w-wide grid.
pub(crate) proof fn lemma_row_index_unique(w: int, x1: int, y1: int, x2: int, y2: int)
    requires
        0 <= x1 < w,
        0 <= x2 < w,
        0 <= y1,
        0 <= y2,
        y1 * w + x1 == y2 * w + x2,
    ensures
        x1 == x2 && y1 == y2,
{
    vstd::arithmetic::div_mod::lemma_fundamental_div_mod_converse(y1 * w + x1, w, y1, x1);
    vstd::arithmetic::div_mod::lemma_fundamental_div_mod_converse(y2 * w + x2, w, y2, x2);
}

/// A row-major index of an in-bounds cell lies within the buffer.
pub(crate) proof fn lemma_row_index_in_range(w: int, h: int, x: int, y: int)
    requires
        0 <= x < w,
        0 <= y < h,
    ensures
        0 <= y * w + x < w * h,
{
    assert(0 <= y * w + x < w * h) by (nonlinear_arith)
        requires
            0 <= x < w,
            0 <= y < h,
    ;
}

/// A width/height-tagged pixel buffer: row-major packed colors, row stride
/// equal to the width.
#[derive(Debug)]
pub struct Canvas {
    pub width: usize,
    pub height: usize,
    pub pixels: Vec<u32>,
}

impl Canvas {
    /// The buffer holds exactly one packed color per cell.
    pub open spec fn wf(self) -> bool {
        self.pixels@.len() == self.width * self.height
    }

    /// The packed color at `(x, y)`.
    pub open spec fn pix(self, x: int, y: int) -> u32
        recommends
            self.wf(),
            self.in_bounds(x, y),
    {
        self.pixels@[y * self.width + x]
    }

    pub open spec fn in_bounds(self, x: int, y: int) -> bool {
        0 <= x < self.width && 0 <= y < self.height
    }

    pub fn new(width: usize, height: usize, pixels: &[u32]) -> (r: Self)
        requires
            pixels@.len() == width * height,
        ensures
            r.width == width,
            r.height == height,
            r.pixels@ == pixels@,
            r.wf(),
    {
        let mut own: Vec<u32> = Vec::new();
        let mut i: usize = 0;
        while i < pixels.len()
            invariant
                i <= pixels@.len(),
                own@ == pixels@.take(i as int),
            decreases pixels@.len() - i,
        {
            own.push(pixels[i]);
            i = i + 1;
            proof {
                assert(own@ =~= pixels@.take(i as int));
            }
        }
        proof {
            assert(own@ =~= pixels@);
        }
        Canvas { pixels: own, width, height }
    }

    /// A canvas of the given size filled with one opaque color.
    pub fn from_color(width: usize, height: usize, r: u8, g: u8, b: u8) -> (c: Self)
        requires
            width * height <= usize::MAX,
        ensures
            c.width == width,
            c.height == height,
            c.wf(),
            forall|i: int|
                0 <= i < width * height ==> c.pixels@[i] == spec_color_from_rgba(r, g, b, 255),
    {
        let color = color_from_rgb(r, g, b);
        let n: usize = width * height;
        let mut pixels: Vec<u32> = Vec::new();
        let mut i: usize = 0;
        while i < n
            invariant
                i <= n,
                pixels@.len() == i,
                color == spec_color_from_rgba(r, g, b, 255),
                forall|j: int| 0 <= j < i ==> pixels@[j] == spec_color_from_rgba(r, g, b, 255),
            decreases n - i,
        {
            pixels.push(color);
            i = i + 1;
        }
        Canvas { pixels, width, height }
    }

    /// The color at `(x, y)`, or `CoordinateOutOfBounds` when the coordinate
    /// lies outside the buffer.
    pub fn get_pixel(&self, x: usize, y: usize) -> (r: Result<u32, CanvasError>)
        requires
            self.wf(),
        ensures
            match r {
                Ok(c) => self.in_bounds(x as int, y as int)
                    && c == self.pix(x as int, y as int),
                Err(e) => !self.in_bounds(x as int, y as int)
                    && e == CanvasError::CoordinateOutOfBounds,
            },
    {
        if x < self.width && y < self.height {
            proof {
                lemma_row_index_in_range(self.width as int, self.height as int, x as int, y as int);
                assert(self.pixels.len() <= usize::MAX);
            }
            Ok(self.pixels[y * self.width + x])
        } else {
            Err(CanvasError::CoordinateOutOfBounds)
        }
    }

    /// Set the color at `(x, y)`, or report `CoordinateOutOfBounds` and leave
    /// the buffer unchanged.
    pub fn set_pixel(&mut self, x: usize, y: usize, color: u32) -> (r: Result<(), CanvasError>)
        requires
            old(self).wf(),
        ensures
            final(self).width == old(self).width,
            final(self).height == old(self).height,
            final(self).wf(),
            match r {
                Ok(()) => old(self).in_bounds(x as int, y as int)
                    && final(self).pixels@
                        == old(self).pixels@.update(y as int * old(self).width + x as int, color),
                Err(e) => !old(self).in_bounds(x as int, y as int)
                    && e == CanvasError::CoordinateOutOfBounds
                    && final(self).pixels@ == old(self).pixels@,
            },
    {
        if x < self.width && y < self.height {
            proof {
                lemma_row_index_in_range(self.width as int, self.height as int, x as int, y as int);
                assert(self.pixels.len() <= usize::MAX);
            }
            let idx: usize = y * self.width + x;
            self.pixels[idx] = color;
            Ok(())
        } else {
            Err(CanvasError::CoordinateOutOfBounds)
        }
    }

    /// Replace the whole buffer with `canvas`'s, when the two buffers hold
    /// the same number of pixels; report `SizeMismatch` and change nothing
    /// otherwise.
    pub fn copy_from_canvas(&mut self, canvas: &Canvas) -> (r: Result<(), CanvasError>)
        ensures
            final(self).width == old(self).width,
            final(self).height == old(self).height,
            if old(self).pixels@.len() == canvas.pixels@.len() {
                r is Ok && final(self).pixels@ == canvas.pixels@
            } else {
                r == Result::<(), CanvasError>::Err(CanvasError::SizeMismatch)
                    && final(self).pixels@ == old(self).pixels@
            },
    {
        if self.pixels.len() != canvas.pixels.len() {
            return Err(CanvasError::SizeMismatch);
        }
        let mut i: usize = 0;
        while i < canvas.pixels.len()
            invariant
                i <= canvas.pixels@.len(),
                self.pixels@.len() == canvas.pixels@.len(),
                self.width == old(self).width,
                self.height == old(self).height,
                forall|j: int| 0 <= j < i ==> self.pixels@[j] == canvas.pixels@[j],
                forall|j: int| i <= j < self.pixels@.len() ==> self.pixels@[j] == old(self).pixels@[j],
            decreases canvas.pixels@.len() - i,
        {
            self.pixels[i] = canvas.pixels[i];
            i = i + 1;
        }
        proof {
            assert(self.pixels@ =~= canvas.pixels@);
        }
        Ok(())
    }

    /// Opaque rectangular blit: copy `canvas` with its top-left corner at
    /// `(x, y)`, clipped to this canvas's bounds; every source pixel that
    /// lands in bounds overwrites the destination.
    pub fn draw_canvas(&mut self, canvas: &Canvas, x: isize, y: isize) -> (r: Result<
        (),
        CanvasError,
    >)
        requires
            old(self).wf(),
            canvas.wf(),
        ensures
            r is Ok,
            final(self).width == old(self).width,
            final(self).height == old(self).height,
            final(self).wf(),
            forall|px: int, py: int|
                0 <= px < old(self).width && 0 <= py < old(self).height
                    ==> #[trigger] final(self).pix(px, py)
                        == if in_rect(px, py, x as int, y as int, canvas.width as int, canvas.height as int) {
                            canvas.pix(px - x, py - y)
                        } else {
                            old(self).pix(px, py)
                        },
    {
        let full = BlitMap::from_canvas(canvas);
        let r = self.blit_canvas(canvas, x, y, &full);
        proof {
            assert forall|px: int, py: int|
                0 <= px < old(self).width && 0 <= py < old(self).height
                    implies #[trigger] self.pix(px, py)
                        == if in_rect(px, py, x as int, y as int, canvas.width as int, canvas.height as int) {
                            canvas.pix(px - x, py - y)
                        } else {
                            old(self).pix(px, py)
                        } by {
                if in_rect(px, py, x as int, y as int, canvas.width as int, canvas.height as int) {
                    lemma_row_index_in_range(
                        canvas.width as int,
                        canvas.height as int,
                        px - x,
                        py - y,
                    );
                }
            }
        }
        r
    }

    /// Masked blit: like `draw_canvas`, but a source pixel is copied only
    /// where the mask, addressed in source-local coordinates, is true.
    pub fn blit_canvas(&mut self, canvas: &Canvas, x: isize, y: isize, blit_map: &BlitMap) -> (r:
        Result<(), CanvasError>)
        requires
            old(self).wf(),
            canvas.wf(),
            blit_map.map@.len() == canvas.width * canvas.height,
        ensures
            r is Ok,
            final(self).width == old(self).width,
            final(self).height == old(self).height,
            final(self).wf(),
            forall|px: int, py: int|
                0 <= px < old(self).width && 0 <= py < old(self).height
                    ==> #[trigger] final(self).pix(px, py)
                        == if in_rect(px, py, x as int, y as int, canvas.width as int, canvas.height as int)
                            && blit_map.map@[(py - y) * canvas.width + (px - x)] {
                            canvas.pix(px - x, py - y)
                        } else {
                            old(self).pix(px, py)
                        },
    {
        let sw: i128 = canvas.width as i128;
        let sh: i128 = canvas.height as i128;
        let dw: i128 = self.width as i128;
        let dh: i128 = self.height as i128;
        let xi: i128 = x as i128;
        let yi: i128 = y as i128;
        let start_y: i128 = if yi > 0 { yi } else { 0 };
        let end_y: i128 = if yi + sh < dh { yi + sh } else { dh };
        let start_x: i128 = if xi > 0 { xi } else { 0 };
        let end_x: i128 = if xi + sw < dw { xi + sw } else { dw };
        proof {
            assert(blit_map.map.len() <= usize::MAX);
            assert(self.pixels.len() <= usize::MAX);
        }
        let mut ry: i128 = start_y;
        while ry < end_y
            invariant
                start_y <= ry,
                ry <= end_y || ry == start_y,
                self.width == old(self).width,
                self.height == old(self).height,
                self.wf(),
                old(self).wf(),
                canvas.wf(),
                blit_map.map@.len() == canvas.width * canvas.height,
                blit_map.map@.len() <= usize::MAX,
                self.pixels@.len() <= usize::MAX,
                sw == canvas.width as int,
                sh == canvas.height as int,
                dw == old(self).width as int,
                dh == old(self).height as int,
                xi == x as int,
                yi == y as int,
                start_y == (if yi > 0 { yi } else { 0 }),
                end_y as int == (if yi + sh < dh { yi + sh } else { dh as int }),
                start_x == (if xi > 0 { xi } else { 0 }),
                end_x as int == (if xi + sw < dw { xi + sw } else { dw as int }),
                forall|px: int, py: int|
                    0 <= px < old(self).width && 0 <= py < old(self).height
                        ==> #[trigger] self.pix(px, py)
                            == if start_x <= px < end_x && start_y <= py < ry
                                && blit_map.map@[(py - yi) * canvas.width + (px - xi)] {
                                canvas.pix(px - xi, py - yi)
                            } else {
                                old(self).pix(px, py)
                            },
            decreases end_y - ry,
        {
            let mut rx: i128 = start_x;
            while rx < end_x
                invariant
                    start_y <= ry < end_y,
                    start_x <= rx,
                    rx <= end_x || rx == start_x,
                    self.width == old(self).width,
                    self.height == old(self).height,
                    self.wf(),
                    old(self).wf(),
                    canvas.wf(),
                    blit_map.map@.len() == canvas.width * canvas.height,
                    blit_map.map@.len() <= usize::MAX,
                    self.pixels@.len() <= usize::MAX,
                    sw == canvas.width as int,
                    sh == canvas.height as int,
                    dw == old(self).width as int,
                    dh == old(self).height as int,
                    xi == x as int,
                    yi == y as int,
                    start_y == (if yi > 0 { yi } else { 0 }),
                    end_y as int == (if yi + sh < dh { yi + sh } else { dh as int }),
                    start_x == (if xi > 0 { xi } else { 0 }),
                    end_x as int == (if xi + sw < dw { xi + sw } else { dw as int }),
                    forall|px: int, py: int|
                        0 <= px < old(self).width && 0 <= py < old(self).height
                            ==> #[trigger] self.pix(px, py)
                                == if ((start_x <= px < end_x && start_y <= py < ry) || (py == ry
                                    && start_x <= px < rx))
                                    && blit_map.map@[(py - yi) * canvas.width + (px - xi)] {
                                    canvas.pix(px - xi, py - yi)
                                } else {
                                    old(self).pix(px, py)
                                },
                decreases end_x - rx,
            {
                proof {
                    lemma_row_index_in_range(sw as int, sh as int, rx - xi, ry - yi);
                    lemma_row_index_in_range(dw as int, dh as int, rx as int, ry as int);
                }
                let b_index: usize = ((ry - yi) * sw + (rx - xi)) as usize;
                let ghost prev = *self;
                proof {
                    assert(self.pixels@.len() == dw * dh);
                    assert(blit_map.map@.len() == sw * sh);
                    assert(b_index as int == (ry - yi) * sw + (rx - xi));
                }
                let ghost target = |px: int, py: int| if ((start_x <= px < end_x && start_y
                    <= py < ry) || (py == ry && start_x <= px < rx + 1)) && blit_map.map@[(py - yi)
                    * canvas.width + (px - xi)] {
                    canvas.pix(px - xi, py - yi)
                } else {
                    old(self).pix(px, py)
                };
                if blit_map.map[b_index] {
                    let cur_index: usize = (ry * dw + rx) as usize;
                    proof {
                        assert(cur_index as int == ry * dw + rx);
                    }
                    self.pixels[cur_index] = canvas.pixels[b_index];
                    proof {
                        assert(self.pixels@ == prev.pixels@.update(
                            ry * dw + rx,
                            canvas.pixels@[(ry - yi) * sw + (rx - xi)],
                        ));
                        assert forall|px: int, py: int|
                            0 <= px < old(self).width && 0 <= py < old(self).height
                                implies #[trigger] self.pix(px, py) == target(px, py) by {
                            lemma_row_index_in_range(dw as int, dh as int, px, py);
                            assert(prev.pix(px, py) == (if ((start_x <= px < end_x && start_y <= py
                                < ry) || (py == ry && start_x <= px < rx)) && blit_map.map@[(py
                                - yi) * canvas.width + (px - xi)] {
                                canvas.pix(px - xi, py - yi)
                            } else {
                                old(self).pix(px, py)
                            }));
                            if px == rx && py == ry {
                                assert(self.pix(px, py) == canvas.pixels@[(ry - yi) * sw + (rx
                                    - xi)]);
                                assert((py - yi) * canvas.width + (px - xi) == b_index);
                            } else {
                                if py * old(self).width + px == ry * old(self).width + rx {
                                    lemma_row_index_unique(dw as int, px, py, rx as int, ry as int);
                                    assert(false);
                                }
                                assert(self.pix(px, py) == prev.pix(px, py));
                            }
                        }
                    }
                } else {
                    proof {
                        assert forall|px: int, py: int|
                            0 <= px < old(self).width && 0 <= py < old(self).height
                                implies #[trigger] self.pix(px, py) == target(px, py) by {
                            assert(prev.pix(px, py) == (if ((start_x <= px < end_x && start_y <= py
                                < ry) || (py == ry && start_x <= px < rx)) && blit_map.map@[(py
                                - yi) * canvas.width + (px - xi)] {
                                canvas.pix(px - xi, py - yi)
                            } else {
                                old(self).pix(px, py)
                            }));
                            if px == rx && py == ry {
                                assert(!blit_map.map@[(py - yi) * canvas.width + (px - xi)]);
                            }
                        }
                    }
                }
                rx = rx + 1;
            }
            ry = ry + 1;
        }
        Ok(())
    }

    /// Rasterize the line from `point0` to `point1` with Bresenham's integer
    /// algorithm and set every point of it that lies in bounds to `color`;
    /// points of the line outside the buffer are skipped, and no other pixel
    /// changes.
    pub fn plot_line(&mut self, point0: Point, point1: Point, color: u32)
        requires
            old(self).wf(),
            -0x8000_0000 <= point0.x <= 0x7fff_ffff,
            -0x8000_0000 <= point0.y <= 0x7fff_ffff,
            -0x8000_0000 <= point1.x <= 0x7fff_ffff,
            -0x8000_0000 <= point1.y <= 0x7fff_ffff,
        ensures
            final(self).width == old(self).width,
            final(self).height == old(self).height,
            final(self).wf(),
            forall|px: int, py: int|
                0 <= px < old(self).width && 0 <= py < old(self).height
                    ==> #[trigger] final(self).pix(px, py) == if line_points_spec(
                        point0.x as int,
                        point0.y as int,
                        point1.x as int,
                        point1.y as int,
                    ).contains((px, py)) {
                        color
                    } else {
                        old(self).pix(px, py)
                    },
            old(self).in_bounds(point0.x as int, point0.y as int) ==> final(self).pix(
                point0.x as int,
                point0.y as int,
            ) == color,
            old(self).in_bounds(point1.x as int, point1.y as int) ==> final(self).pix(
                point1.x as int,
                point1.y as int,
            ) == color,
    {
        let pts = line_points(point0.x, point0.y, point1.x, point1.y);
        let ghost spts = line_points_spec(
            point0.x as int,
            point0.y as int,
            point1.x as int,
            point1.y as int,
        );
        let mut k: usize = 0;
        while k < pts.len()
            invariant
                k <= pts@.len(),
                pts@.len() == spts.len(),
                spts == line_points_spec(
                    point0.x as int,
                    point0.y as int,
                    point1.x as int,
                    point1.y as int,
                ),
                forall|m: int|
                    0 <= m < pts@.len() ==> crate::util::point_pair_view(#[trigger] pts@[m])
                        == spts[m],
                self.width == old(self).width,
                self.height == old(self).height,
                self.wf(),
                forall|px: int, py: int|
                    0 <= px < old(self).width && 0 <= py < old(self).height
                        ==> #[trigger] self.pix(px, py) == if spts.take(k as int).contains(
                            (px, py),
                        ) {
                            color
                        } else {
                            old(self).pix(px, py)
                        },
            decreases pts@.len() - k,
        {
            let p = pts[k];
            let ghost prev = *self;
            let ghost q = spts[k as int];
            let in_canvas = p.0 >= 0 && p.1 >= 0 && (p.0 as usize) < self.width && (p.1 as usize)
                < self.height;
            if in_canvas {
                let res = self.set_pixel(p.0 as usize, p.1 as usize, color);
                proof {
                    assert((p.0 as usize) as int == p.0 as int);
                    assert((p.1 as usize) as int == p.1 as int);
                    assert(res is Ok);
                    lemma_row_index_in_range(
                        prev.width as int,
                        prev.height as int,
                        p.0 as int,
                        p.1 as int,
                    );
                    assert(self.pixels@ == prev.pixels@.update(
                        p.1 as int * prev.width + p.0 as int,
                        color,
                    ));
                }
            }
            proof {
                assert(q == (p.0 as int, p.1 as int));
                assert forall|px: int, py: int|
                    0 <= px < old(self).width && 0 <= py < old(self).height
                        implies #[trigger] self.pix(px, py) == if spts.take(k as int + 1).contains(
                        (px, py),
                    ) {
                        color
                    } else {
                        old(self).pix(px, py)
                    } by {
                    assert(prev.pix(px, py) == (if spts.take(k as int).contains((px, py)) {
                        color
                    } else {
                        old(self).pix(px, py)
                    }));
                    if (px, py) == q {
                        assert(px == p.0 as int && py == p.1 as int);
                        assert(in_canvas);
                        lemma_row_index_in_range(
                            old(self).width as int,
                            old(self).height as int,
                            px,
                            py,
                        );
                        assert(spts.take(k as int + 1)[k as int] == q);
                        assert(spts.take(k as int + 1).contains((px, py)));
                        assert(self.pix(px, py) == color);
                    } else {
                        if in_canvas {
                            if py * old(self).width + px == p.1 as int * old(self).width
                                + p.0 as int {
                                lemma_row_index_unique(
                                    old(self).width as int,
                                    px,
                                    py,
                                    p.0 as int,
                                    p.1 as int,
                                );
                                assert(false);
                            }
                            lemma_row_index_in_range(
                                old(self).width as int,
                                old(self).height as int,
                                px,
                                py,
                            );
                            assert(self.pix(px, py) == prev.pix(px, py));
                        } else {
                            assert(self.pix(px, py) == prev.pix(px, py));
                        }
                        if spts.take(k as int + 1).contains((px, py)) {
                            let m = choose|m: int|
                                #![trigger spts.take(k as int + 1)[m]]
                                0 <= m < k as int + 1 && spts.take(k as int + 1)[m] == (px, py);
                            assert(spts[m] == (px, py));
                            assert(m < k as int);
                            assert(spts.take(k as int)[m] == (px, py));
                            assert(spts.take(k as int).contains((px, py)));
                        }
                        if spts.take(k as int).contains((px, py)) {
                            let m = choose|m: int|
                                #![trigger spts.take(k as int)[m]]
                                0 <= m < k as int && spts.take(k as int)[m] == (px, py);
                            assert(spts.take(k as int + 1)[m] == (px, py));
                            assert(spts.take(k as int + 1).contains((px, py)));
                        }
                    }
                }
            }
            k = k + 1;
        }
        proof {
            assert(spts.take(spts.len() as int) =~= spts);
            assert(spts[0] == (point0.x as int, point0.y as int));
            assert(spts[spts.len() - 1] == (point1.x as int, point1.y as int));
            assert(spts.contains((point0.x as int, point0.y as int)));
            assert(spts.contains((point1.x as int, point1.y as int)));
        }
    }
}

} // verus!

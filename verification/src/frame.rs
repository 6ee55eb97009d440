use vstd::prelude::*;

use crate::canvas::{in_rect, lemma_row_index_in_range, lemma_row_index_unique, CanvasError};
use crate::point::Point;
use crate::util::{line_points, line_points_spec, point_pair_view};

verus! {

/// A pixel buffer in device layout: one byte per channel, `bytespp` bytes per
/// pixel, rows `line_length` (= `bytespp * width`) bytes apart.
#[derive(Debug)]
pub struct Frame {
    pub width: usize,
    pub height: usize,
    pub pixels: Vec<u8>,
    pub line_length: usize,
    pub bytespp: usize,
}

/// A byte index `(y * w + x) * bpp + c` with `c < bpp` addresses exactly one
/// channel of one cell of a w-wide grid.
proof fn lemma_frame_byte_unique(
    w: int,
    bpp: int,
    x1: int,
    y1: int,
    c1: int,
    x2: int,
    y2: int,
    c2: int,
)
    requires
        0 <= x1 < w,
        0 <= x2 < w,
        0 <= y1,
        0 <= y2,
        0 <= c1 < bpp,
        0 <= c2 < bpp,
        (y1 * w + x1) * bpp + c1 == (y2 * w + x2) * bpp + c2,
    ensures
        x1 == x2 && y1 == y2 && c1 == c2,
{
    vstd::arithmetic::div_mod::lemma_fundamental_div_mod_converse(
        (y1 * w + x1) * bpp + c1,
        bpp,
        y1 * w + x1,
        c1,
    );
    vstd::arithmetic::div_mod::lemma_fundamental_div_mod_converse(
        (y2 * w + x2) * bpp + c2,
        bpp,
        y2 * w + x2,
        c2,
    );
    lemma_row_index_unique(w, x1, y1, x2, y2);
}

/// A channel byte index of an in-bounds cell lies within the pixel area.
proof fn lemma_frame_byte_in_range(w: int, h: int, bpp: int, x: int, y: int, c: int)
    requires
        0 <= x < w,
        0 <= y < h,
        0 <= c < bpp,
    ensures
        0 <= (y * w + x) * bpp + c < w * h * bpp,
{
    lemma_row_index_in_range(w, h, x, y);
    assert(0 <= (y * w + x) * bpp + c < w * h * bpp) by (nonlinear_arith)
        requires
            0 <= y * w + x < w * h,
            0 <= c < bpp,
    ;
}

/// The stride form `y * (bpp * w) + x * bpp` and the cell form
/// `(y * w + x) * bpp` address the same byte.
proof fn lemma_frame_index_forms(w: int, bpp: int, x: int, y: int)
    ensures
        y * (bpp * w) + x * bpp == (y * w + x) * bpp,
{
    assert(y * (bpp * w) + x * bpp == (y * w + x) * bpp) by (nonlinear_arith);
}

impl Frame {
    /// The stride matches the width, every cell's bytes lie in the buffer,
    /// and there is room for the three color channels in each pixel.
    pub open spec fn wf(self) -> bool {
        self.line_length == self.bytespp * self.width && self.width * self.height * self.bytespp
            <= self.pixels@.len() && self.bytespp >= 3
    }

    pub open spec fn in_bounds(self, x: int, y: int) -> bool {
        0 <= x < self.width && 0 <= y < self.height
    }

    /// The byte holding channel `c` of the pixel at `(x, y)`.
    pub open spec fn channel_at(self, x: int, y: int, c: int) -> u8
        recommends
            self.wf(),
            self.in_bounds(x, y),
            0 <= c < self.bytespp,
    {
        self.pixels@[(y * self.width + x) * self.bytespp + c]
    }

    /// The first three channel bytes of the pixel at `(x, y)`.
    pub open spec fn channels(self, x: int, y: int) -> (u8, u8, u8)
        recommends
            self.wf(),
            self.in_bounds(x, y),
    {
        (self.channel_at(x, y, 0), self.channel_at(x, y, 1), self.channel_at(x, y, 2))
    }

    /// Wrap a raw byte buffer: the bytes per pixel are however many fit,
    /// `pixels.len() / (width * height)`, and the stride follows from them.
    pub fn new(width: usize, height: usize, pixels: &[u8]) -> (r: Result<Self, CanvasError>)
        requires
            0 < width * height <= usize::MAX,
        ensures
            match r {
                Ok(f) => {
                    &&& f.width == width
                    &&& f.height == height
                    &&& f.pixels@ == pixels@
                    &&& f.bytespp as int == pixels@.len() as int / (width * height)
                    &&& f.line_length == f.bytespp * width
                    &&& pixels@.len() >= 3 * (width * height) ==> f.wf()
                },
                Err(_) => false,
            },
    {
        let area: usize = width * height;
        let bytespp: usize = pixels.len() / area;
        proof {
            vstd::arithmetic::div_mod::lemma_fundamental_div_mod(
                pixels@.len() as int,
                area as int,
            );
            vstd::arithmetic::div_mod::lemma_mod_bound(pixels@.len() as int, area as int);
            assert(height >= 1 && width >= 1) by (nonlinear_arith)
                requires
                    width * height > 0,
            ;
            assert(bytespp * width <= bytespp * (width * height)) by (nonlinear_arith)
                requires
                    height >= 1,
                    width >= 0,
                    bytespp >= 0,
            ;
            let q: int = pixels@.len() as int / (area as int);
            let rm: int = pixels@.len() as int % (area as int);
            assert(bytespp * (width * height) <= pixels@.len()) by (nonlinear_arith)
                requires
                    bytespp == q,
                    area as int == width * height,
                    pixels@.len() as int == (area as int) * q + rm,
                    rm >= 0,
                    q >= 0,
            ;
            if pixels@.len() >= 3 * (width * height) {
                vstd::arithmetic::div_mod::lemma_div_is_ordered(
                    3 * (area as int),
                    pixels@.len() as int,
                    area as int,
                );
                vstd::arithmetic::div_mod::lemma_div_by_multiple(3, area as int);
            }
        }
        let line_length: usize = bytespp * width;
        let mut own: Vec<u8> = Vec::new();
        let mut i: usize = 0;
        while i < pixels.len()
            invariant
                i <= pixels@.len(),
                own@ == pixels@.take(i as int),
            decreases pixels@.len() - i,
        {
            own.push(pixels[i]);
            i = i + 1;
            proof {
                assert(own@ =~= pixels@.take(i as int));
            }
        }
        proof {
            assert(own@ =~= pixels@);
            assert(width * height * bytespp == bytespp * (width * height)) by (nonlinear_arith);
        }
        Ok(Frame { pixels: own, width, height, line_length, bytespp })
    }

    /// The three channel bytes of the pixel at `(x, y)`, in buffer order.
    pub fn get_pixel(&self, x: usize, y: usize) -> (r: (u8, u8, u8))
        requires
            self.wf(),
            x < self.width,
            y < self.height,
        ensures
            r == self.channels(x as int, y as int),
    {
        proof {
            lemma_frame_index_forms(self.width as int, self.bytespp as int, x as int, y as int);
            lemma_frame_byte_in_range(
                self.width as int,
                self.height as int,
                self.bytespp as int,
                x as int,
                y as int,
                2,
            );
            assert(self.pixels.len() <= usize::MAX);
        }
        let curr_index: usize = y * self.line_length + x * self.bytespp;
        (self.pixels[curr_index], self.pixels[curr_index + 1], self.pixels[curr_index + 2])
    }

    /// Write the three channel bytes of the pixel at `(x, y)`, in buffer
    /// order; the rest of the buffer is untouched.
    pub fn set_pixel(&mut self, x: usize, y: usize, r: u8, g: u8, b: u8)
        requires
            old(self).wf(),
            x < old(self).width,
            y < old(self).height,
        ensures
            final(self).width == old(self).width,
            final(self).height == old(self).height,
            final(self).line_length == old(self).line_length,
            final(self).bytespp == old(self).bytespp,
            final(self).wf(),
            final(self).pixels@ == old(self).pixels@.update(
                (y as int * old(self).width + x as int) * old(self).bytespp,
                r,
            ).update((y as int * old(self).width + x as int) * old(self).bytespp + 1, g).update(
                (y as int * old(self).width + x as int) * old(self).bytespp + 2,
                b,
            ),
    {
        proof {
            lemma_frame_index_forms(self.width as int, self.bytespp as int, x as int, y as int);
            lemma_frame_byte_in_range(
                self.width as int,
                self.height as int,
                self.bytespp as int,
                x as int,
                y as int,
                2,
            );
            assert(self.pixels.len() <= usize::MAX);
        }
        let curr_index: usize = y * self.line_length + x * self.bytespp;
        self.pixels[curr_index] = r;
        self.pixels[curr_index + 1] = g;
        self.pixels[curr_index + 2] = b;
    }

    /// Clipped blit in device layout: copy `frame` with its top-left corner
    /// at `(x, y)`, swapping the first and third channel of every copied
    /// pixel; channels past the third and bytes outside the pixel area are
    /// untouched.
    pub fn draw_frame(&mut self, frame: &Frame, x: isize, y: isize) -> (r: Result<
        (),
        CanvasError,
    >)
        requires
            old(self).wf(),
            frame.wf(),
        ensures
            r is Ok,
            final(self).width == old(self).width,
            final(self).height == old(self).height,
            final(self).line_length == old(self).line_length,
            final(self).bytespp == old(self).bytespp,
            final(self).pixels@.len() == old(self).pixels@.len(),
            final(self).wf(),
            forall|px: int, py: int, c: int|
                0 <= px < old(self).width && 0 <= py < old(self).height && 0 <= c < old(
                    self,
                ).bytespp ==> #[trigger] final(self).channel_at(px, py, c) == if in_rect(
                    px,
                    py,
                    x as int,
                    y as int,
                    frame.width as int,
                    frame.height as int,
                ) && c < 3 {
                    frame.channel_at(px - x, py - y, 2 - c)
                } else {
                    old(self).channel_at(px, py, c)
                },
            forall|k: int|
                old(self).width * old(self).height * old(self).bytespp <= k < old(
                    self,
                ).pixels@.len() ==> #[trigger] final(self).pixels@[k] == old(self).pixels@[k],
    {
        let sw: i128 = frame.width as i128;
        let sh: i128 = frame.height as i128;
        let dw: i128 = self.width as i128;
        let dh: i128 = self.height as i128;
        let xi: i128 = x as i128;
        let yi: i128 = y as i128;
        let start_y: i128 = if yi > 0 { yi } else { 0 };
        let end_y: i128 = if yi + sh < dh { yi + sh } else { dh };
        let start_x: i128 = if xi > 0 { xi } else { 0 };
        let end_x: i128 = if xi + sw < dw { xi + sw } else { dw };
        let mut ry: i128 = start_y;
        while ry < end_y
            invariant
                start_y <= ry,
                ry <= end_y || ry == start_y,
                self.width == old(self).width,
                self.height == old(self).height,
                self.line_length == old(self).line_length,
                self.bytespp == old(self).bytespp,
                self.pixels@.len() == old(self).pixels@.len(),
                self.wf(),
                old(self).wf(),
                frame.wf(),
                sw == frame.width as int,
                sh == frame.height as int,
                dw == old(self).width as int,
                dh == old(self).height as int,
                xi == x as int,
                yi == y as int,
                start_y == (if yi > 0 { yi } else { 0 }),
                end_y as int == (if yi + sh < dh { yi + sh } else { dh as int }),
                start_x == (if xi > 0 { xi } else { 0 }),
                end_x as int == (if xi + sw < dw { xi + sw } else { dw as int }),
                forall|px: int, py: int, c: int|
                    0 <= px < old(self).width && 0 <= py < old(self).height && 0 <= c < old(
                        self,
                    ).bytespp ==> #[trigger] self.channel_at(px, py, c) == if start_x <= px < end_x
                        && start_y <= py < ry && c < 3 {
                        frame.channel_at(px - xi, py - yi, 2 - c)
                    } else {
                        old(self).channel_at(px, py, c)
                    },
                forall|k: int|
                    old(self).width * old(self).height * old(self).bytespp <= k < old(
                        self,
                    ).pixels@.len() ==> #[trigger] self.pixels@[k] == old(self).pixels@[k],
            decreases end_y - ry,
        {
            let mut rx: i128 = start_x;
            while rx < end_x
                invariant
                    start_y <= ry < end_y,
                    start_x <= rx,
                    rx <= end_x || rx == start_x,
                    self.width == old(self).width,
                    self.height == old(self).height,
                    self.line_length == old(self).line_length,
                    self.bytespp == old(self).bytespp,
                    self.pixels@.len() == old(self).pixels@.len(),
                    self.wf(),
                    old(self).wf(),
                    frame.wf(),
                    sw == frame.width as int,
                    sh == frame.height as int,
                    dw == old(self).width as int,
                    dh == old(self).height as int,
                    xi == x as int,
                    yi == y as int,
                    start_y == (if yi > 0 { yi } else { 0 }),
                    end_y as int == (if yi + sh < dh { yi + sh } else { dh as int }),
                    start_x == (if xi > 0 { xi } else { 0 }),
                    end_x as int == (if xi + sw < dw { xi + sw } else { dw as int }),
                    forall|px: int, py: int, c: int|
                        0 <= px < old(self).width && 0 <= py < old(self).height && 0 <= c < old(
                            self,
                        ).bytespp ==> #[trigger] self.channel_at(px, py, c) == if ((start_x <= px
                            < end_x && start_y <= py < ry) || (py == ry && start_x <= px < rx))
                            && c < 3 {
                            frame.channel_at(px - xi, py - yi, 2 - c)
                        } else {
                            old(self).channel_at(px, py, c)
                        },
                    forall|k: int|
                        old(self).width * old(self).height * old(self).bytespp <= k < old(
                            self,
                        ).pixels@.len() ==> #[trigger] self.pixels@[k] == old(self).pixels@[k],
                decreases end_x - rx,
            {
                let ghost prev = *self;
                let (c0, c1, c2) = frame.get_pixel((rx - xi) as usize, (ry - yi) as usize);
                self.set_pixel(rx as usize, ry as usize, c2, c1, c0);
                proof {
                    let wd = old(self).width as int;
                    let bd = old(self).bytespp as int;
                    let bi = (ry * wd + rx) * bd;
                    lemma_frame_byte_in_range(wd, old(self).height as int, bd, rx as int, ry as int, 2);
                    assert(self.pixels@ == prev.pixels@.update(bi, c2).update(bi + 1, c1).update(
                        bi + 2,
                        c0,
                    ));
                    assert forall|px: int, py: int, c: int|
                        0 <= px < old(self).width && 0 <= py < old(self).height && 0 <= c < old(
                            self,
                        ).bytespp implies #[trigger] self.channel_at(px, py, c) == if ((start_x
                        <= px < end_x && start_y <= py < ry) || (py == ry && start_x <= px < rx
                        + 1)) && c < 3 {
                        frame.channel_at(px - xi, py - yi, 2 - c)
                    } else {
                        old(self).channel_at(px, py, c)
                    } by {
                        lemma_frame_byte_in_range(wd, old(self).height as int, bd, px, py, c);
                        assert(prev.channel_at(px, py, c) == (if ((start_x <= px < end_x && start_y
                            <= py < ry) || (py == ry && start_x <= px < rx)) && c < 3 {
                            frame.channel_at(px - xi, py - yi, 2 - c)
                        } else {
                            old(self).channel_at(px, py, c)
                        }));
                        let ti = (py * wd + px) * bd + c;
                        if px == rx && py == ry {
                            if c >= 3 {
                                assert(ti != bi && ti != bi + 1 && ti != bi + 2);
                                assert(self.channel_at(px, py, c) == prev.channel_at(px, py, c));
                            }
                        } else {
                            if ti == bi {
                                lemma_frame_byte_unique(wd, bd, px, py, c, rx as int, ry as int, 0);
                                assert(false);
                            }
                            if ti == bi + 1 {
                                lemma_frame_byte_unique(wd, bd, px, py, c, rx as int, ry as int, 1);
                                assert(false);
                            }
                            if ti == bi + 2 {
                                lemma_frame_byte_unique(wd, bd, px, py, c, rx as int, ry as int, 2);
                                assert(false);
                            }
                            assert(self.channel_at(px, py, c) == prev.channel_at(px, py, c));
                        }
                    }
                    assert forall|k: int|
                        old(self).width * old(self).height * old(self).bytespp <= k < old(
                            self,
                        ).pixels@.len() implies #[trigger] self.pixels@[k] == old(self).pixels@[k] by {
                        assert(bi + 2 < old(self).width * old(self).height * old(self).bytespp);
                        assert(self.pixels@[k] == prev.pixels@[k]);
                    }
                }
                rx = rx + 1;
            }
            ry = ry + 1;
        }
        Ok(())
    }

    /// Rasterize the line from `point0` to `point1` with Bresenham's integer
    /// algorithm, writing white (255 in each of the three channels) at every
    /// point of the line that lies in bounds; points outside the buffer are
    /// skipped, and no other byte changes.
    pub fn plot_line(&mut self, point0: Point, point1: Point)
        requires
            old(self).wf(),
            -0x8000_0000 <= point0.x <= 0x7fff_ffff,
            -0x8000_0000 <= point0.y <= 0x7fff_ffff,
            -0x8000_0000 <= point1.x <= 0x7fff_ffff,
            -0x8000_0000 <= point1.y <= 0x7fff_ffff,
        ensures
            final(self).width == old(self).width,
            final(self).height == old(self).height,
            final(self).line_length == old(self).line_length,
            final(self).bytespp == old(self).bytespp,
            final(self).pixels@.len() == old(self).pixels@.len(),
            final(self).wf(),
            forall|px: int, py: int, c: int|
                0 <= px < old(self).width && 0 <= py < old(self).height && 0 <= c < old(
                    self,
                ).bytespp ==> #[trigger] final(self).channel_at(px, py, c) == if c < 3
                    && line_points_spec(
                    point0.x as int,
                    point0.y as int,
                    point1.x as int,
                    point1.y as int,
                ).contains((px, py)) {
                    255u8
                } else {
                    old(self).channel_at(px, py, c)
                },
            forall|k: int|
                old(self).width * old(self).height * old(self).bytespp <= k < old(
                    self,
                ).pixels@.len() ==> #[trigger] final(self).pixels@[k] == old(self).pixels@[k],
    {
        let pts = line_points(point0.x, point0.y, point1.x, point1.y);
        let ghost spts = line_points_spec(
            point0.x as int,
            point0.y as int,
            point1.x as int,
            point1.y as int,
        );
        let mut k: usize = 0;
        while k < pts.len()
            invariant
                k <= pts@.len(),
                pts@.len() == spts.len(),
                spts == line_points_spec(
                    point0.x as int,
                    point0.y as int,
                    point1.x as int,
                    point1.y as int,
                ),
                forall|m: int|
                    0 <= m < pts@.len() ==> point_pair_view(#[trigger] pts@[m]) == spts[m],
                self.width == old(self).width,
                self.height == old(self).height,
                self.line_length == old(self).line_length,
                self.bytespp == old(self).bytespp,
                self.pixels@.len() == old(self).pixels@.len(),
                self.wf(),
                old(self).wf(),
                forall|px: int, py: int, c: int|
                    0 <= px < old(self).width && 0 <= py < old(self).height && 0 <= c < old(
                        self,
                    ).bytespp ==> #[trigger] self.channel_at(px, py, c) == if c < 3
                        && spts.take(k as int).contains((px, py)) {
                        255u8
                    } else {
                        old(self).channel_at(px, py, c)
                    },
                forall|t: int|
                    old(self).width * old(self).height * old(self).bytespp <= t < old(
                        self,
                    ).pixels@.len() ==> #[trigger] self.pixels@[t] == old(self).pixels@[t],
            decreases pts@.len() - k,
        {
            let p = pts[k];
            let ghost prev = *self;
            let ghost q = spts[k as int];
            let in_frame = p.0 >= 0 && p.1 >= 0 && (p.0 as usize) < self.width && (p.1 as usize)
                < self.height;
            if in_frame {
                self.set_pixel(p.0 as usize, p.1 as usize, 255, 255, 255);
            }
            proof {
                let wd = old(self).width as int;
                let bd = old(self).bytespp as int;
                let ghost bi = (p.1 as int * wd + p.0 as int) * bd;
                assert(q == (p.0 as int, p.1 as int));
                if in_frame {
                    lemma_frame_byte_in_range(
                        wd,
                        old(self).height as int,
                        bd,
                        p.0 as int,
                        p.1 as int,
                        2,
                    );
                    assert(self.pixels@ == prev.pixels@.update(bi, 255u8).update(
                        bi + 1,
                        255u8,
                    ).update(bi + 2, 255u8));
                }
                assert forall|px: int, py: int, c: int|
                    0 <= px < old(self).width && 0 <= py < old(self).height && 0 <= c < old(
                        self,
                    ).bytespp implies #[trigger] self.channel_at(px, py, c) == if c < 3
                    && spts.take(k as int + 1).contains((px, py)) {
                    255u8
                } else {
                    old(self).channel_at(px, py, c)
                } by {
                    lemma_frame_byte_in_range(wd, old(self).height as int, bd, px, py, c);
                    assert(prev.channel_at(px, py, c) == (if c < 3 && spts.take(
                        k as int,
                    ).contains((px, py)) {
                        255u8
                    } else {
                        old(self).channel_at(px, py, c)
                    }));
                    let ti = (py * wd + px) * bd + c;
                    if (px, py) == q {
                        assert(px == p.0 as int && py == p.1 as int);
                        assert(in_frame);
                        assert(spts.take(k as int + 1)[k as int] == q);
                        assert(spts.take(k as int + 1).contains((px, py)));
                        if c >= 3 {
                            assert(ti != bi && ti != bi + 1 && ti != bi + 2);
                            assert(self.channel_at(px, py, c) == prev.channel_at(px, py, c));
                        }
                    } else {
                        if in_frame {
                            if ti == bi {
                                lemma_frame_byte_unique(wd, bd, px, py, c, p.0 as int, p.1 as int, 0);
                                assert(false);
                            }
                            if ti == bi + 1 {
                                lemma_frame_byte_unique(wd, bd, px, py, c, p.0 as int, p.1 as int, 1);
                                assert(false);
                            }
                            if ti == bi + 2 {
                                lemma_frame_byte_unique(wd, bd, px, py, c, p.0 as int, p.1 as int, 2);
                                assert(false);
                            }
                        }
                        assert(self.channel_at(px, py, c) == prev.channel_at(px, py, c));
                        if spts.take(k as int + 1).contains((px, py)) {
                            let m = choose|m: int|
                                #![trigger spts.take(k as int + 1)[m]]
                                0 <= m < k as int + 1 && spts.take(k as int + 1)[m] == (px, py);
                            assert(spts[m] == (px, py));
                            assert(m < k as int);
                            assert(spts.take(k as int)[m] == (px, py));
                            assert(spts.take(k as int).contains((px, py)));
                        }
                        if spts.take(k as int).contains((px, py)) {
                            let m = choose|m: int|
                                #![trigger spts.take(k as int)[m]]
                                0 <= m < k as int && spts.take(k as int)[m] == (px, py);
                            assert(spts.take(k as int + 1)[m] == (px, py));
                            assert(spts.take(k as int + 1).contains((px, py)));
                        }
                    }
                }
                if in_frame {
                    assert forall|t: int|
                        old(self).width * old(self).height * old(self).bytespp <= t < old(
                            self,
                        ).pixels@.len() implies #[trigger] self.pixels@[t] == old(self).pixels@[t] by {
                        assert(bi + 2 < old(self).width * old(self).height * old(self).bytespp);
                        assert(self.pixels@[t] == prev.pixels@[t]);
                    }
                }
            }
            k = k + 1;
        }
        proof {
            assert(spts.take(spts.len() as int) =~= spts);
        }
    }
}

} // verus!

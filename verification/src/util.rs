use vstd::prelude::*;

verus! {

/// A 32-bit packed color: `(alpha << 24) | (red << 16) | (green << 8) | blue`.
pub open spec fn spec_color_from_rgba(r: u8, g: u8, b: u8, a: u8) -> u32 {
    ((a as u32) << 24) | ((r as u32) << 16) | ((g as u32) << 8) | (b as u32)
}

/// The alpha channel: the top byte of a packed color.
pub open spec fn spec_alpha(color: u32) -> u8 {
    ((color & 0xff000000u32) >> 24) as u8
}

/// The red channel of a packed color.
pub open spec fn spec_red(color: u32) -> u8 {
    ((color & 0xff0000u32) >> 16) as u8
}

/// The green channel of a packed color.
pub open spec fn spec_green(color: u32) -> u8 {
    ((color & 0xff00u32) >> 8) as u8
}

/// The blue channel: the bottom byte of a packed color.
pub open spec fn spec_blue(color: u32) -> u8 {
    (color & 0xffu32) as u8
}

/// Pack an opaque color: full alpha, then red, green, blue.
pub fn color_from_rgb(r: u8, g: u8, b: u8) -> (c: u32)
    ensures
        c == spec_color_from_rgba(r, g, b, 255),
{
    255u32 << 24 | (r as u32) << 16 | (g as u32) << 8 | b as u32
}

/// Pack a color with an explicit alpha channel.
pub fn color_from_rgba(r: u8, g: u8, b: u8, a: u8) -> (c: u32)
    ensures
        c == spec_color_from_rgba(r, g, b, a),
{
    (a as u32) << 24 | (r as u32) << 16 | (g as u32) << 8 | b as u32
}

/// Unpack a color into its (alpha, red, green, blue) channels.
pub fn rgba_from_color(color: u32) -> (r: (u8, u8, u8, u8))
    ensures
        r == (spec_alpha(color), spec_red(color), spec_green(color), spec_blue(color)),
{
    (
        ((color & 4278190080) >> 24) as u8,
        ((color & 16711680) >> 16) as u8,
        ((color & 65280) >> 8) as u8,
        (color & 255) as u8,
    )
}

/// Packing four channels and unpacking them returns exactly the channels
/// that went in.
pub proof fn lemma_color_round_trip(r: u8, g: u8, b: u8, a: u8)
    ensures
        spec_alpha(spec_color_from_rgba(r, g, b, a)) == a,
        spec_red(spec_color_from_rgba(r, g, b, a)) == r,
        spec_green(spec_color_from_rgba(r, g, b, a)) == g,
        spec_blue(spec_color_from_rgba(r, g, b, a)) == b,
{
    assert(spec_alpha(spec_color_from_rgba(r, g, b, a)) == a) by (bit_vector);
    assert(spec_red(spec_color_from_rgba(r, g, b, a)) == r) by (bit_vector);
    assert(spec_green(spec_color_from_rgba(r, g, b, a)) == g) by (bit_vector);
    assert(spec_blue(spec_color_from_rgba(r, g, b, a)) == b) by (bit_vector);
}

/// Whether `(x, y)` lies in the closed rectangle from `(x0, y0)` to `(xm, ym)`.
pub fn coord_in_area(x: usize, y: usize, x0: usize, y0: usize, xm: usize, ym: usize) -> (r: bool)
    ensures
        r == (x0 <= x <= xm && y0 <= y <= ym),
{
    x >= x0 && x <= xm && y >= y0 && y <= ym
}


/// The ghost value of an executable point pair.
pub open spec fn point_pair_view(p: (isize, isize)) -> (int, int) {
    (p.0 as int, p.1 as int)
}

/// The trace of the symmetric double-step line rasterizer: from `(x0, y0)`,
/// with fixed deltas `dx >= 0 >= dy`, step directions `sx`/`sy`, running
/// error term `err`, and at most `fuel` points still to emit. Each recursive
/// call mirrors exactly one step of the rasterizer: the point is emitted,
/// then the error term decides which of the two axes move.
pub open spec fn line_seq_rec(
    x0: int,
    y0: int,
    x1: int,
    y1: int,
    dx: int,
    dy: int,
    sx: int,
    sy: int,
    err: int,
    fuel: nat,
) -> Seq<(int, int)>
    decreases fuel,
{
    if fuel == 0 {
        Seq::empty()
    } else if x0 == x1 && y0 == y1 {
        seq![(x0, y0)]
    } else {
        let e2 = 2 * err;
        let x0n = if e2 >= dy { x0 + sx } else { x0 };
        let err1 = if e2 >= dy { err + dy } else { err };
        let y0n = if e2 <= dx { y0 + sy } else { y0 };
        let errn = if e2 <= dx { err1 + dx } else { err1 };
        seq![(x0, y0)] + line_seq_rec(x0n, y0n, x1, y1, dx, dy, sx, sy, errn, (fuel - 1) as nat)
    }
}

/// The integer points of Bresenham's line from `(x0, y0)` to `(x1, y1)`,
/// both endpoints included: the symmetric double-step form with error
/// accumulator `dx + dy`, `dy` negated. The fuel `dx - dy + 1` is an upper
/// bound on the number of points; the rasterizer stops at the endpoint.
pub open spec fn line_points_spec(x0: int, y0: int, x1: int, y1: int) -> Seq<(int, int)> {
    let dx = vstd::math::abs(x1 - x0) as int;
    let dy = -(vstd::math::abs(y1 - y0) as int);
    let sx: int = if x0 < x1 { 1int } else { -1int };
    let sy: int = if y0 < y1 { 1int } else { -1int };
    line_seq_rec(x0, y0, x1, y1, dx, dy, sx, sy, dx + dy, (dx - dy + 1) as nat)
}

/// All points of Bresenham's line from `(x0, y0)` to `(x1, y1)`, inclusive,
/// in drawing order: the first element is the start point, the last is the
/// end point, and every point lies in the bounding box of the two.
pub fn line_points(x0: isize, y0: isize, x1: isize, y1: isize) -> (r: Vec<(isize, isize)>)
    requires
        -0x8000_0000 <= x0 <= 0x7fff_ffff,
        -0x8000_0000 <= y0 <= 0x7fff_ffff,
        -0x8000_0000 <= x1 <= 0x7fff_ffff,
        -0x8000_0000 <= y1 <= 0x7fff_ffff,
    ensures
        r@.len() == line_points_spec(x0 as int, y0 as int, x1 as int, y1 as int).len(),
        forall|k: int|
            0 <= k < r@.len() ==> point_pair_view(#[trigger] r@[k]) == line_points_spec(
                x0 as int,
                y0 as int,
                x1 as int,
                y1 as int,
            )[k],
        r@.len() >= 1,
        r@[0] == (x0, y0),
        r@[r@.len() - 1] == (x1, y1),
        forall|k: int|
            0 <= k < r@.len() ==> vstd::math::min(x0 as int, x1 as int) <= (#[trigger] r@[k]).0
                <= vstd::math::max(x0 as int, x1 as int) && vstd::math::min(y0 as int, y1 as int)
                <= r@[k].1 <= vstd::math::max(y0 as int, y1 as int),
{
    let ghost xg0: int = x0 as int;
    let ghost yg0: int = y0 as int;
    let ghost xg1: int = x1 as int;
    let ghost yg1: int = y1 as int;
    let mut cx: i128 = x0 as i128;
    let mut cy: i128 = y0 as i128;
    let tx: i128 = x1 as i128;
    let ty: i128 = y1 as i128;
    let dx: i128 = if tx >= cx { tx - cx } else { cx - tx };
    let dy: i128 = if ty >= cy { cy - ty } else { ty - cy };
    let sx: i128 = if cx < tx { 1 } else { -1 };
    let sy: i128 = if cy < ty { 1 } else { -1 };
    let mut err: i128 = dx + dy;
    let mut out: Vec<(isize, isize)> = Vec::new();
    let ghost pts = line_points_spec(x0 as int, y0 as int, x1 as int, y1 as int);
    let ghost dxg: int = dx as int;
    let ghost dyg: int = dy as int;
    let ghost sxg: int = sx as int;
    let ghost syg: int = sy as int;
    let ghost mut i: int = 0;
    let ghost mut j: int = 0;
    let ghost mut fuel: int = dxg - dyg + 1;
    proof {
        assert(line_seq_rec(xg0, yg0, xg1, yg1, dxg, dyg, sxg, syg, dxg + dyg, fuel as nat)
            =~= pts.skip(0));
        assert(i == 0 && j == 0);
        assert(err as int == dxg + dyg);
        assert((j + 1) * dxg == dxg) by (nonlinear_arith)
            requires
                j == 0,
        ;
        assert((i + 1) * dyg == dyg) by (nonlinear_arith)
            requires
                i == 0,
        ;
    }
    loop
        invariant_except_break
            -0x8000_0000 <= xg0 <= 0x7fff_ffff,
            -0x8000_0000 <= yg0 <= 0x7fff_ffff,
            -0x8000_0000 <= xg1 <= 0x7fff_ffff,
            -0x8000_0000 <= yg1 <= 0x7fff_ffff,
            xg0 == x0 as int && yg0 == y0 as int && xg1 == x1 as int && yg1 == y1 as int,
            tx as int == xg1 && ty as int == yg1,
            dxg == dx as int && dyg == dy as int && sxg == sx as int && syg == sy as int,
            dxg == vstd::math::abs(xg1 - xg0) as int,
            dyg == -(vstd::math::abs(yg1 - yg0) as int),
            sxg == (if xg0 < xg1 { 1int } else { -1int }),
            syg == (if yg0 < yg1 { 1int } else { -1int }),
            xg1 == (if sxg == 1 { xg0 + dxg } else { xg0 - dxg }),
            yg1 == (if syg == 1 { yg0 - dyg } else { yg0 + dyg }),
            0 <= i <= dxg,
            0 <= j <= -dyg,
            sxg == 1 ==> cx as int == xg0 + i,
            sxg == -1 ==> cx as int == xg0 - i,
            syg == 1 ==> cy as int == yg0 + j,
            syg == -1 ==> cy as int == yg0 - j,
            err as int == (j + 1) * dxg + (i + 1) * dyg,
            fuel >= dxg - dyg + 1 - i - j,
            fuel <= dxg - dyg + 1,
            pts == line_points_spec(xg0, yg0, xg1, yg1),
            out@.len() <= pts.len(),
            forall|k: int|
                0 <= k < out@.len() ==> point_pair_view(#[trigger] out@[k]) == pts[k],
            line_seq_rec(cx as int, cy as int, xg1, yg1, dxg, dyg, sxg, syg, err as int, fuel as nat)
                == pts.skip(out@.len() as int),
            out@.len() == 0 ==> (cx as int == xg0 && cy as int == yg0),
            out@.len() > 0 ==> out@[0] == (x0, y0),
            forall|k: int|
                0 <= k < out@.len() ==> vstd::math::min(xg0, xg1) <= (#[trigger] out@[k]).0
                    <= vstd::math::max(xg0, xg1) && vstd::math::min(yg0, yg1) <= out@[k].1
                    <= vstd::math::max(yg0, yg1),
        ensures
            out@.len() == line_points_spec(x0 as int, y0 as int, x1 as int, y1 as int).len(),
            forall|k: int|
                0 <= k < out@.len() ==> point_pair_view(#[trigger] out@[k]) == line_points_spec(
                    x0 as int,
                    y0 as int,
                    x1 as int,
                    y1 as int,
                )[k],
            out@.len() >= 1,
            out@[0] == (x0, y0),
            out@[out@.len() - 1] == (x1, y1),
            forall|k: int|
                0 <= k < out@.len() ==> vstd::math::min(x0 as int, x1 as int) <= (
                #[trigger] out@[k]).0 <= vstd::math::max(x0 as int, x1 as int) && vstd::math::min(
                    y0 as int,
                    y1 as int,
                ) <= out@[k].1 <= vstd::math::max(y0 as int, y1 as int),
        decreases fuel,
    {
        let ghost n = out@.len() as int;
        let ghost rest = line_seq_rec(
            cx as int,
            cy as int,
            xg1,
            yg1,
            dxg,
            dyg,
            sxg,
            syg,
            err as int,
            fuel as nat,
        );
        proof {
            assert(vstd::math::min(xg0, xg1) <= cx as int <= vstd::math::max(xg0, xg1));
            assert(vstd::math::min(yg0, yg1) <= cy as int <= vstd::math::max(yg0, yg1));
            assert(fuel >= 1);
            assert(rest.len() >= 1);
            assert(n < pts.len());
            assert(rest[0] == (cx as int, cy as int));
            assert(pts[n] == pts.skip(n)[0]);
        }
        out.push((cx as isize, cy as isize));
        proof {
            assert(point_pair_view((cx as isize, cy as isize)) == (cx as int, cy as int));
            assert(out@.len() as int == n + 1);
        }
        if cx == tx && cy == ty {
            proof {
                assert(rest == seq![(cx as int, cy as int)]);
                assert(pts.skip(n).len() == 1);
                assert(out@.len() == pts.len());
                assert(out@[out@.len() - 1] == (x1, y1));
            }
            break;
        }
        let ghost i0 = i;
        let ghost j0 = j;
        let ghost err0: int = err as int;
        let ghost cx0: int = cx as int;
        let ghost cy0: int = cy as int;
        proof {
            assert(err0 <= (1 - dyg) * dxg) by (nonlinear_arith)
                requires
                    err0 == (j0 + 1) * dxg + (i0 + 1) * dyg,
                    0 <= i0 <= dxg,
                    0 <= j0 <= -dyg,
                    dxg >= 0,
                    dyg <= 0,
            ;
            assert(err0 >= (dxg + 1) * dyg) by (nonlinear_arith)
                requires
                    err0 == (j0 + 1) * dxg + (i0 + 1) * dyg,
                    0 <= i0 <= dxg,
                    0 <= j0 <= -dyg,
                    dxg >= 0,
                    dyg <= 0,
            ;
            assert((1 - dyg) * dxg < 0x80000000000000000) by (nonlinear_arith)
                requires
                    0 <= dxg <= 0x200000000,
                    0 <= -dyg <= 0x200000000,
            ;
            assert((dxg + 1) * dyg > -0x80000000000000000) by (nonlinear_arith)
                requires
                    0 <= dxg <= 0x200000000,
                    0 <= -dyg <= 0x200000000,
            ;
        }
        let e2: i128 = 2 * err;
        if e2 >= dy {
            proof {
                if i0 == dxg {
                    assert(cx as int == xg1);
                    assert(cy as int != yg1);
                    assert(j0 < -dyg);
                    assert(2 * ((j0 + 1) * dxg + (dxg + 1) * dyg) < dyg) by (nonlinear_arith)
                        requires
                            0 <= j0,
                            j0 < -dyg,
                            dxg >= 0,
                    ;
                    assert(false);
                }
            }
            err = err + dy;
            cx = cx + sx;
            proof {
                i = i + 1;
            }
        }
        if e2 <= dx {
            proof {
                if j0 == -dyg {
                    assert(cy0 == yg1);
                    assert(cx0 != xg1);
                    assert(i0 < dxg);
                    assert(2 * ((0 - dyg + 1) * dxg + (i0 + 1) * dyg) > dxg) by (nonlinear_arith)
                        requires
                            0 <= i0,
                            i0 < dxg,
                            dyg <= 0,
                    ;
                    assert(false);
                }
            }
            err = err + dx;
            cy = cy + sy;
            proof {
                j = j + 1;
            }
        }
        proof {
            assert(i + j > i0 + j0);
            fuel = fuel - 1;
            assert(err as int == (j + 1) * dxg + (i + 1) * dyg) by (nonlinear_arith)
                requires
                    err0 == (j0 + 1) * dxg + (i0 + 1) * dyg,
                    (i == i0 && err as int == err0 + (if j == j0 {
                        0int
                    } else {
                        dxg
                    })) || (i == i0 + 1 && err as int == err0 + dyg + (if j == j0 {
                        0int
                    } else {
                        dxg
                    })),
                    j == j0 || j == j0 + 1,
            ;
            let newrest = line_seq_rec(
                cx as int,
                cy as int,
                xg1,
                yg1,
                dxg,
                dyg,
                sxg,
                syg,
                err as int,
                fuel as nat,
            );
            assert(rest == seq![(cx0, cy0)] + newrest);
            assert(newrest.len() == pts.skip(n + 1).len());
            assert forall|m: int| 0 <= m < newrest.len() implies newrest[m] == pts.skip(n + 1)[m] by {
                assert((seq![(cx0, cy0)] + newrest)[m + 1] == newrest[m]);
                assert(pts.skip(n)[m + 1] == pts[n + 1 + m]);
                assert(pts.skip(n + 1)[m] == pts[n + 1 + m]);
            }
            assert(newrest =~= pts.skip(n + 1));
        }
    }
    out
}

} // verus!

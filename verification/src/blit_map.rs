use vstd::prelude::*;

use crate::canvas::{lemma_row_index_in_range, Canvas, CanvasError};
use crate::util::{rgba_from_color, spec_alpha, spec_blue, spec_green, spec_red};

verus! {

/// A per-pixel boolean stencil, width/height-tagged and addressed row-major,
/// controlling which source pixels a masked blit copies.
#[derive(Debug)]
pub struct BlitMap {
    pub width: usize,
    pub height: usize,
    pub map: Vec<bool>,
}

fn alpha_nonzero(c: u32) -> (r: bool)
    ensures
        r == (spec_alpha(c) != 0),
{
    proof {
        assert((c & 4278190080u32 > 0) == (((c & 0xff000000u32) >> 24) as u8 != 0)) by (bit_vector);
    }
    c & 4278190080 > 0
}

impl BlitMap {
    /// One mask bit per cell.
    pub open spec fn wf(self) -> bool {
        self.map@.len() == self.width * self.height
    }

    /// Whether `(x, y)` lies within the mask's bounds.
    pub fn bound_check(&self, x: usize, y: usize) -> (r: bool)
        ensures
            r == (x < self.width && y < self.height),
    {
        x < self.width && y < self.height
    }

    /// The mask bit at `(x, y)`, or `CoordinateOutOfBounds` outside bounds.
    pub fn get_bool(&self, x: usize, y: usize) -> (r: Result<bool, CanvasError>)
        requires
            self.wf(),
        ensures
            match r {
                Ok(b) => x < self.width && y < self.height && b == self.map@[y as int * self.width
                    + x as int],
                Err(e) => !(x < self.width && y < self.height) && e
                    == CanvasError::CoordinateOutOfBounds,
            },
    {
        if self.bound_check(x, y) {
            proof {
                lemma_row_index_in_range(self.width as int, self.height as int, x as int, y as int);
                assert(self.map.len() <= usize::MAX);
            }
            Ok(self.map[y * self.width + x])
        } else {
            Err(CanvasError::CoordinateOutOfBounds)
        }
    }

    /// The all-true mask of `canvas`'s size: blitting through it copies every
    /// pixel, exactly as an unmasked draw does.
    pub fn from_canvas(canvas: &Canvas) -> (r: BlitMap)
        requires
            canvas.wf(),
        ensures
            r.width == canvas.width,
            r.height == canvas.height,
            r.wf(),
            forall|i: int| 0 <= i < r.map@.len() ==> r.map@[i],
    {
        let n: usize = canvas.pixels.len();
        let mut map: Vec<bool> = Vec::new();
        let mut i: usize = 0;
        while i < n
            invariant
                i <= n,
                map@.len() == i,
                forall|j: int| 0 <= j < i ==> map@[j],
            decreases n - i,
        {
            map.push(true);
            i = i + 1;
        }
        BlitMap { width: canvas.width, height: canvas.height, map }
    }

    /// The mask that keeps exactly the source pixels whose alpha channel (the
    /// top byte of the packed color) is nonzero.
    pub fn from_canvas_with_alpha(canvas: &Canvas) -> (r: BlitMap)
        requires
            canvas.wf(),
        ensures
            r.width == canvas.width,
            r.height == canvas.height,
            r.wf(),
            forall|i: int|
                0 <= i < r.map@.len() ==> r.map@[i] == (spec_alpha(#[trigger] canvas.pixels@[i])
                    != 0),
    {
        let n: usize = canvas.pixels.len();
        let mut map: Vec<bool> = Vec::new();
        let mut i: usize = 0;
        while i < n
            invariant
                i <= n,
                n == canvas.pixels@.len(),
                map@.len() == i,
                forall|j: int|
                    0 <= j < i ==> map@[j] == (spec_alpha(#[trigger] canvas.pixels@[j]) != 0),
            decreases n - i,
        {
            map.push(alpha_nonzero(canvas.pixels[i]));
            i = i + 1;
        }
        BlitMap { width: canvas.width, height: canvas.height, map }
    }

    /// The mask that keeps exactly the source pixels whose RGB channels
    /// differ from the key color `(r, g, b)` — classic color-key
    /// transparency; alpha is ignored.
    pub fn from_canvas_with_bg_color(canvas: &Canvas, r: u8, g: u8, b: u8) -> (m: BlitMap)
        requires
            canvas.wf(),
        ensures
            m.width == canvas.width,
            m.height == canvas.height,
            m.wf(),
            forall|i: int|
                0 <= i < m.map@.len() ==> m.map@[i] == !(spec_red(#[trigger] canvas.pixels@[i])
                    == r && spec_green(canvas.pixels@[i]) == g && spec_blue(canvas.pixels@[i])
                    == b),
    {
        let n: usize = canvas.pixels.len();
        let mut map: Vec<bool> = Vec::new();
        let mut i: usize = 0;
        while i < n
            invariant
                i <= n,
                n == canvas.pixels@.len(),
                map@.len() == i,
                forall|j: int|
                    0 <= j < i ==> map@[j] == !(spec_red(#[trigger] canvas.pixels@[j]) == r
                        && spec_green(canvas.pixels@[j]) == g && spec_blue(canvas.pixels@[j]) == b),
            decreases n - i,
        {
            let (_, pr, pg, pb) = rgba_from_color(canvas.pixels[i]);
            map.push(pr != r || pg != g || pb != b);
            i = i + 1;
        }
        BlitMap { width: canvas.width, height: canvas.height, map }
    }
}

} // verus!

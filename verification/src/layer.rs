use vstd::prelude::*;

use crate::canvas::lemma_row_index_in_range;

verus! {

/// One RGB pixel of an overlay layer.
#[derive(Eq, PartialEq, Structural, Debug, Copy, Clone)]
pub struct Pixel {
    pub r: u8,
    pub g: u8,
    pub b: u8,
}

/// An overlay grid: per cell either a pixel or nothing (transparent).
#[derive(Debug)]
pub struct Layer {
    pub pixels: Vec<Option<Pixel>>,
    pub width: usize,
    pub height: usize,
}

impl Layer {
    /// One optional pixel per cell.
    pub open spec fn wf(self) -> bool {
        self.pixels@.len() == self.width * self.height
    }

    /// The cell at `(x, y)`.
    pub fn get_pixel(&self, x: usize, y: usize) -> (r: &Option<Pixel>)
        requires
            self.wf(),
            x < self.width,
            y < self.height,
        ensures
            *r == self.pixels@[y as int * self.width + x as int],
    {
        proof {
            lemma_row_index_in_range(self.width as int, self.height as int, x as int, y as int);
            assert(self.pixels.len() <= usize::MAX);
        }
        let index: usize = y * self.width + x;
        &self.pixels[index]
    }

    /// Fill the cell at `(x, y)` with an RGB pixel.
    pub fn set_pixel(&mut self, x: usize, y: usize, r: u8, g: u8, b: u8)
        requires
            old(self).wf(),
            x < old(self).width,
            y < old(self).height,
        ensures
            final(self).width == old(self).width,
            final(self).height == old(self).height,
            final(self).wf(),
            final(self).pixels@ == old(self).pixels@.update(
                y as int * old(self).width + x as int,
                Some(Pixel { r, g, b }),
            ),
    {
        proof {
            lemma_row_index_in_range(self.width as int, self.height as int, x as int, y as int);
            assert(self.pixels.len() <= usize::MAX);
        }
        let index: usize = y * self.width + x;
        self.pixels[index] = Some(Pixel { r, g, b });
    }

    /// Make the cell at `(x, y)` transparent again.
    pub fn unset_pixel(&mut self, x: usize, y: usize)
        requires
            old(self).wf(),
            x < old(self).width,
            y < old(self).height,
        ensures
            final(self).width == old(self).width,
            final(self).height == old(self).height,
            final(self).wf(),
            final(self).pixels@ == old(self).pixels@.update(
                y as int * old(self).width + x as int,
                None::<Pixel>,
            ),
    {
        proof {
            lemma_row_index_in_range(self.width as int, self.height as int, x as int, y as int);
            assert(self.pixels.len() <= usize::MAX);
        }
        let index: usize = y * self.width + x;
        self.pixels[index] = None;
    }
}

impl Clone for Layer {
    /// A clone has the same size and the same cells.
    fn clone(&self) -> (r: Self)
        ensures
            r.width == self.width,
            r.height == self.height,
            r.pixels@ == self.pixels@,
    {
        let mut pixels: Vec<Option<Pixel>> = Vec::new();
        let mut i: usize = 0;
        while i < self.pixels.len()
            invariant
                i <= self.pixels@.len(),
                pixels@ == self.pixels@.take(i as int),
            decreases self.pixels@.len() - i,
        {
            pixels.push(self.pixels[i]);
            i = i + 1;
            proof {
                assert(pixels@ =~= self.pixels@.take(i as int));
            }
        }
        proof {
            assert(pixels@ =~= self.pixels@);
        }
        Layer { pixels, width: self.width, height: self.height }
    }
}

} // verus!

//! The mini-map's light accumulator: per cell it remembers the brightest
//! light sum ever observed there during render-slice extraction.

use vstd::prelude::*;

use crate::grid_index::{flat_index, lemma_flat_index_bounds};

verus! {

/// Accumulated mini-map lighting. Each cell stores the largest channel sum
/// (red + green + blue, at most 765) seen at that cell so far.
pub struct MiniMap {
    pub lighting: Vec<u16>,
    pub map_width: usize,
    pub map_height: usize,
}

/// The channel sum a light value contributes to the accumulator.
pub open spec fn spec_light_sum(light: [u8; 3]) -> int {
    light@[0] + light@[1] + light@[2]
}

impl MiniMap {
    pub open spec fn wf(self) -> bool {
        &&& 1 <= self.map_width
        &&& 1 <= self.map_height
        &&& self.map_width * self.map_height <= usize::MAX
        &&& self.lighting@.len() == self.map_width * self.map_height
    }

    pub open spec fn spec_cell(self, x: int, y: int) -> u16 {
        self.lighting@[flat_index(self.map_width as int, x, y)]
    }

    /// A fresh, fully dark accumulator for a `width` by `height` map.
    pub fn new(width: usize, height: usize) -> (r: MiniMap)
        requires
            1 <= width,
            1 <= height,
            width * height <= usize::MAX,
        ensures
            r.wf(),
            r.map_width == width,
            r.map_height == height,
            forall|i: int| 0 <= i < r.lighting@.len() ==> r.lighting@[i] == 0u16,
    {
        let count = width * height;
        let mut lighting: Vec<u16> = Vec::new();
        let mut i: usize = 0;
        while i < count
            invariant
                i <= count,
                lighting@.len() == i,
                forall|j: int| 0 <= j < i ==> lighting@[j] == 0u16,
            decreases count - i,
        {
            lighting.push(0);
            i += 1;
        }
        MiniMap { lighting, map_width: width, map_height: height }
    }

    /// Folds one observed light value into the accumulator: the cell keeps
    /// the larger of its stored sum and the sum of the new value's channels.
    pub fn update_light_value(&mut self, light: [u8; 3], x: usize, y: usize)
        requires
            old(self).wf(),
            x < old(self).map_width,
            y < old(self).map_height,
        ensures
            final(self).wf(),
            final(self).map_width == old(self).map_width,
            final(self).map_height == old(self).map_height,
            final(self).lighting@ == old(self).lighting@.update(
                flat_index(old(self).map_width as int, x as int, y as int),
                if spec_light_sum(light) > old(self).spec_cell(x as int, y as int)
                    as int { (spec_light_sum(light)) as u16 } else {
                    old(self).spec_cell(x as int, y as int)
                },
            ),
    {
        proof {
            lemma_flat_index_bounds(
                self.map_width as int,
                self.map_height as int,
                x as int,
                y as int,
            );
        }
        let i = y * self.map_width + x;
        let sum: u16 = light[0] as u16 + light[1] as u16 + light[2] as u16;
        let stored = self.lighting[i];
        if sum > stored {
            self.lighting.set(i, sum);
        } else {
            proof {
                assert(self.lighting@.update(i as int, stored) =~= self.lighting@);
            }
        }
    }
}

} // verus!

//! The dimension registry: a fixed-length table of optional tile grids
//! indexed by the closed set of dimension identifiers.

use vstd::prelude::*;

use crate::tile_map::TileMap;

verus! {

/// How many dimensions the registry holds a slot for.
pub const DIMENSION_COUNT: usize = 1;

/// The closed set of dimension identifiers; the final variant only counts
/// them and owns no slot.
#[derive(Clone, Copy, PartialEq, Eq, Structural, Debug)]
pub enum Dimension {
    Overworld,
    TOTAL,
}

/// The registry slot a dimension identifier addresses.
pub open spec fn spec_dimension_index(d: Dimension) -> int {
    match d {
        Dimension::Overworld => 0,
        Dimension::TOTAL => 1,
    }
}

/// The registry slot a dimension identifier addresses.
pub fn dimension_index(d: Dimension) -> (r: usize)
    ensures
        r == spec_dimension_index(d),
{
    match d {
        Dimension::Overworld => 0,
        Dimension::TOTAL => 1,
    }
}

/// A fixed-length store of one optional tile grid per dimension.
pub struct TileMapManager {
    pub tile_maps: Vec<Option<TileMap>>,
}

impl TileMapManager {
    pub open spec fn wf(self) -> bool {
        self.tile_maps@.len() == DIMENSION_COUNT
    }

    /// An empty registry: every dimension's slot is vacant.
    pub fn new() -> (r: TileMapManager)
        ensures
            r.wf(),
            forall|i: int| 0 <= i < DIMENSION_COUNT ==> r.tile_maps@[i] is None,
    {
        let mut tile_maps: Vec<Option<TileMap>> = Vec::new();
        tile_maps.push(None);
        TileMapManager { tile_maps }
    }

    /// The grid of `dimension`, mutably, or nothing when the slot is vacant
    /// or the identifier owns no slot.
    pub fn get_current_map(&mut self, dimension: Dimension) -> (r: Option<&mut TileMap>)
        requires
            old(self).wf(),
        ensures
            final(self).wf(),
            spec_dimension_index(dimension) >= DIMENSION_COUNT ==> r is None,
            spec_dimension_index(dimension) >= DIMENSION_COUNT ==> final(self).tile_maps@ == old(
                self,
            ).tile_maps@,
            spec_dimension_index(dimension) < DIMENSION_COUNT ==> {
                let i = spec_dimension_index(dimension);
                match r {
                    Some(m) => {
                        &&& old(self).tile_maps@[i] == Some(*m)
                        &&& final(self).tile_maps@ == old(self).tile_maps@.update(
                            i,
                            Some(*final(m)),
                        )
                    },
                    None => {
                        &&& old(self).tile_maps@[i] is None
                        &&& final(self).tile_maps@ == old(self).tile_maps@
                    },
                }
            },
    {
        let index = dimension_index(dimension);
        if index >= DIMENSION_COUNT {
            return None;
        }
        proof {
            assert(self.tile_maps@.update(index as int, self.tile_maps@[index as int])
                =~= self.tile_maps@);
        }
        match &mut self.tile_maps[index] {
            Some(m) => Some(m),
            None => None,
        }
    }

    /// The grid of `dimension`, read-only.
    pub fn get_current_map_ref(&self, dimension: Dimension) -> (r: Option<&TileMap>)
        requires
            self.wf(),
        ensures
            spec_dimension_index(dimension) >= DIMENSION_COUNT ==> r is None,
            spec_dimension_index(dimension) < DIMENSION_COUNT ==> match r {
                Some(m) => self.tile_maps@[spec_dimension_index(dimension)] == Some(*m),
                None => self.tile_maps@[spec_dimension_index(dimension)] is None,
            },
    {
        let index = dimension_index(dimension);
        if index >= DIMENSION_COUNT {
            return None;
        }
        match &self.tile_maps[index] {
            Some(m) => Some(m),
            None => None,
        }
    }

    /// Fills the slot of `dimension` with `tile_map`, dropping what it held.
    /// The identifier must own a slot.
    pub fn replace_tile_map(&mut self, dimension: Dimension, tile_map: TileMap)
        requires
            old(self).wf(),
            spec_dimension_index(dimension) < DIMENSION_COUNT,
        ensures
            final(self).wf(),
            final(self).tile_maps@ == old(self).tile_maps@.update(
                spec_dimension_index(dimension),
                Some(tile_map),
            ),
    {
        let index = dimension_index(dimension);
        self.tile_maps.set(index, Some(tile_map));
    }
}

} // verus!

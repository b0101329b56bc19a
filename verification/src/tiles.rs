//! Tile identifiers: material families, solidity, light emission, and the
//! 16-entry auto-tile rule shared by world generation and tile mutation.

use vstd::prelude::*;

verus! {

/// The material families. Each family owns a disjoint set of tile IDs; the
/// first seven participate in auto-tiling, cactus and wood do not.
#[derive(Clone, Copy, PartialEq, Eq, Structural, Debug)]
pub enum Family {
    Grass,
    Dirt,
    Stone,
    Sand,
    SandStone,
    Ice,
    Snow,
    Cactus,
    Wood,
}

pub open spec fn spec_is_grass(id: u32) -> bool {
    (1 <= id && id <= 14) || id == 47
}

pub open spec fn spec_is_dirt(id: u32) -> bool {
    (15 <= id && id <= 29) || id == 46
}

pub open spec fn spec_is_stone(id: u32) -> bool {
    30 <= id && id <= 45
}

pub open spec fn spec_is_sand(id: u32) -> bool {
    (89 <= id && id <= 102) || id == 134
}

pub open spec fn spec_is_sand_stone(id: u32) -> bool {
    (103 <= id && id <= 117) || id == 133
}

pub open spec fn spec_is_ice(id: u32) -> bool {
    (118 <= id && id <= 132) || id == 136
}

pub open spec fn spec_is_snow(id: u32) -> bool {
    (137 <= id && id <= 151) || id == 135
}

pub open spec fn spec_is_cactus(id: u32) -> bool {
    153 <= id && id <= 162
}

pub open spec fn spec_is_wood(id: u32) -> bool {
    163 <= id && id <= 172
}

pub open spec fn spec_in_family(id: u32, family: Family) -> bool {
    match family {
        Family::Grass => spec_is_grass(id),
        Family::Dirt => spec_is_dirt(id),
        Family::Stone => spec_is_stone(id),
        Family::Sand => spec_is_sand(id),
        Family::SandStone => spec_is_sand_stone(id),
        Family::Ice => spec_is_ice(id),
        Family::Snow => spec_is_snow(id),
        Family::Cactus => spec_is_cactus(id),
        Family::Wood => spec_is_wood(id),
    }
}

/// A tile blocks movement and carries a sky-light column exactly when it
/// belongs to one of these families (cactus is the one non-solid family).
pub open spec fn spec_is_solid(id: u32) -> bool {
    spec_is_grass(id) || spec_is_dirt(id) || spec_is_stone(id) || spec_is_sand(id)
        || spec_is_sand_stone(id) || spec_is_ice(id) || spec_is_snow(id) || spec_is_wood(id)
}

/// Whether `id` belongs to a family that takes part in auto-tiling.
pub open spec fn spec_autotile_family(id: u32) -> Option<Family> {
    if spec_is_grass(id) {
        Some(Family::Grass)
    } else if spec_is_dirt(id) {
        Some(Family::Dirt)
    } else if spec_is_stone(id) {
        Some(Family::Stone)
    } else if spec_is_sand(id) {
        Some(Family::Sand)
    } else if spec_is_sand_stone(id) {
        Some(Family::SandStone)
    } else if spec_is_ice(id) {
        Some(Family::Ice)
    } else if spec_is_snow(id) {
        Some(Family::Snow)
    } else {
        None
    }
}

/// The color a light-emitting tile writes into the light grid, if any.
pub open spec fn spec_light_color(id: u32) -> Option<[u8; 3]> {
    if id == 88 {
        Some([255u8, 255u8, 128u8])
    } else if id == 173 {
        Some([200u8, 200u8, 128u8])
    } else {
        None
    }
}

pub open spec fn spec_emits_light(id: u32) -> bool {
    spec_light_color(id) is Some
}

/// The family-relative variant for the fourteen neighbor-emptiness patterns
/// that every auto-tiling family shares (left, right, up, down are "that
/// neighbor is empty"). The two remaining patterns, empty-below-only and
/// no-empty-neighbor, have family-specific entries.
pub open spec fn spec_base_variant(l: bool, r: bool, u: bool, d: bool) -> u32 {
    if l && !r && !u && !d {
        7
    } else if !l && r && !u && !d {
        8
    } else if l && r && !u && !d {
        10
    } else if !l && !r && u && !d {
        1
    } else if !l && !r && u && d {
        5
    } else if l && !r && u && !d {
        2
    } else if l && !r && !u && d {
        4
    } else if l && !r && u && d {
        13
    } else if !l && r && !u && d {
        9
    } else if !l && r && u && !d {
        3
    } else if !l && r && u && d {
        6
    } else if l && r && u && !d {
        11
    } else if l && r && !u && d {
        12
    } else {
        // l && r && u && d: surrounded on all four sides
        14
    }
}

/// The offset a family adds to the shared variant table.
pub open spec fn spec_family_offset(family: Family) -> u32 {
    match family {
        Family::Grass => 0,
        Family::Dirt => 14,
        Family::Stone => 29,
        Family::Sand => 88,
        Family::SandStone => 102,
        Family::Ice => 117,
        Family::Snow => 136,
        Family::Cactus => 0,
        Family::Wood => 0,
    }
}

/// The family-specific entry for the empty-below-only pattern.
pub open spec fn spec_below_variant(family: Family) -> u32 {
    match family {
        Family::Grass => 47,
        Family::Dirt => 46,
        Family::Stone => 45,
        Family::Sand => 134,
        Family::SandStone => 133,
        Family::Ice => 136,
        Family::Snow => 135,
        Family::Cactus => 0,
        Family::Wood => 0,
    }
}

/// The family-specific fallback entry for a cell with no empty neighbor.
pub open spec fn spec_interior_id(family: Family) -> u32 {
    match family {
        Family::Grass => 29,
        Family::Dirt => 29,
        Family::Stone => 44,
        Family::Sand => 117,
        Family::SandStone => 117,
        Family::Ice => 132,
        Family::Snow => 29,
        Family::Cactus => 0,
        Family::Wood => 0,
    }
}

/// The auto-tile rule: which tile ID a cell of family `family` takes when its
/// orthogonal neighbors are empty exactly as `(l, r, u, d)` say.
pub open spec fn spec_auto_tile_id(family: Family, l: bool, r: bool, u: bool, d: bool) -> u32 {
    if !l && !r && !u && d {
        spec_below_variant(family)
    } else if !l && !r && !u && !d {
        spec_interior_id(family)
    } else {
        (spec_family_offset(family) + spec_base_variant(l, r, u, d)) as u32
    }
}

/// The auto-tile tables of all families agree up to each family's offset.
///
/// This is the offset law of auto-tiling: for every neighbor-emptiness
/// pattern other than the two family-specific entries (empty below only,
/// and no empty neighbor), each family's table entry is the shared variant
/// plus the family's own offset.
pub proof fn lemma_auto_tile_offset(family: Family, l: bool, r: bool, u: bool, d: bool)
    requires
        !(!l && !r && !u && d),
        !(!l && !r && !u && !d),
    ensures
        spec_auto_tile_id(family, l, r, u, d) == spec_family_offset(family) + spec_base_variant(
            l,
            r,
            u,
            d,
        ),
{
}

/// Whether `id` belongs to `family`.
pub fn in_family(id: u32, family: Family) -> (r: bool)
    ensures
        r == spec_in_family(id, family),
{
    match family {
        Family::Grass => (1 <= id && id <= 14) || id == 47,
        Family::Dirt => (15 <= id && id <= 29) || id == 46,
        Family::Stone => 30 <= id && id <= 45,
        Family::Sand => (89 <= id && id <= 102) || id == 134,
        Family::SandStone => (103 <= id && id <= 117) || id == 133,
        Family::Ice => (118 <= id && id <= 132) || id == 136,
        Family::Snow => (137 <= id && id <= 151) || id == 135,
        Family::Cactus => 153 <= id && id <= 162,
        Family::Wood => 163 <= id && id <= 172,
    }
}

/// Whether a tile with this ID is solid.
pub fn is_solid(id: u32) -> (r: bool)
    ensures
        r == spec_is_solid(id),
{
    in_family(id, Family::Grass) || in_family(id, Family::Dirt) || in_family(id, Family::Stone)
        || in_family(id, Family::Sand) || in_family(id, Family::SandStone)
        || in_family(id, Family::Ice) || in_family(id, Family::Snow)
        || in_family(id, Family::Wood)
}

/// The auto-tiling family that owns `id`, if any.
pub fn autotile_family(id: u32) -> (r: Option<Family>)
    ensures
        r == spec_autotile_family(id),
{
    if in_family(id, Family::Grass) {
        Some(Family::Grass)
    } else if in_family(id, Family::Dirt) {
        Some(Family::Dirt)
    } else if in_family(id, Family::Stone) {
        Some(Family::Stone)
    } else if in_family(id, Family::Sand) {
        Some(Family::Sand)
    } else if in_family(id, Family::SandStone) {
        Some(Family::SandStone)
    } else if in_family(id, Family::Ice) {
        Some(Family::Ice)
    } else if in_family(id, Family::Snow) {
        Some(Family::Snow)
    } else {
        None
    }
}

/// The color a light-emitting tile contributes, if it emits at all.
pub fn light_color(id: u32) -> (r: Option<[u8; 3]>)
    ensures
        r == spec_light_color(id),
{
    if id == 88 {
        Some([255u8, 255u8, 128u8])
    } else if id == 173 {
        Some([200u8, 200u8, 128u8])
    } else {
        None
    }
}

/// Whether a tile with this ID emits light.
pub fn emits_light(id: u32) -> (r: bool)
    ensures
        r == spec_emits_light(id),
{
    id == 88 || id == 173
}

/// Looks up the auto-tile rule for a family and a neighbor-emptiness pattern.
pub fn auto_tile_id(family: Family, l: bool, r: bool, u: bool, d: bool) -> (id: u32)
    ensures
        id == spec_auto_tile_id(family, l, r, u, d),
{
    if !l && !r && !u && d {
        match family {
            Family::Grass => 47,
            Family::Dirt => 46,
            Family::Stone => 45,
            Family::Sand => 134,
            Family::SandStone => 133,
            Family::Ice => 136,
            Family::Snow => 135,
            Family::Cactus => 0,
            Family::Wood => 0,
        }
    } else if !l && !r && !u && !d {
        match family {
            Family::Grass => 29,
            Family::Dirt => 29,
            Family::Stone => 44,
            Family::Sand => 117,
            Family::SandStone => 117,
            Family::Ice => 132,
            Family::Snow => 29,
            Family::Cactus => 0,
            Family::Wood => 0,
        }
    } else {
        let offset: u32 = match family {
            Family::Grass => 0,
            Family::Dirt => 14,
            Family::Stone => 29,
            Family::Sand => 88,
            Family::SandStone => 102,
            Family::Ice => 117,
            Family::Snow => 136,
            Family::Cactus => 0,
            Family::Wood => 0,
        };
        let variant: u32 = if l && !r && !u && !d {
            7
        } else if !l && r && !u && !d {
            8
        } else if l && r && !u && !d {
            10
        } else if !l && !r && u && !d {
            1
        } else if !l && !r && u && d {
            5
        } else if l && !r && u && !d {
            2
        } else if l && !r && !u && d {
            4
        } else if l && !r && u && d {
            13
        } else if !l && r && !u && d {
            9
        } else if !l && r && u && !d {
            3
        } else if !l && r && u && d {
            6
        } else if l && r && u && !d {
            11
        } else if l && r && !u && d {
            12
        } else {
            14
        };
        offset + variant
    }
}

} // verus!

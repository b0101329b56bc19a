//! The texture-atlas placeholder of the headless build: an atlas of empty
//! tiles, each an eight-by-eight transparent bitmap.

use vstd::prelude::*;

verus! {

/// An atlas of `TEXTURE_COUNT` empty eight-by-eight textures; the host's
/// rendering layer loads real image data in its place.
pub fn get_texture_atlas<const TEXTURE_COUNT: usize>(_path: &str, _tile_size: (u32, u32)) -> (r:
    Vec<[u32; 64]>)
    ensures
        r@.len() == TEXTURE_COUNT,
        forall|i: int| 0 <= i < TEXTURE_COUNT ==> #[trigger] r@[i]@ =~= Seq::new(64, |j: int| 0u32),
{
    let empty: [u32; 64] = [
        0, 0, 0, 0, 0, 0, 0, 0, 0, 0, 0, 0, 0, 0, 0, 0,
        0, 0, 0, 0, 0, 0, 0, 0, 0, 0, 0, 0, 0, 0, 0, 0,
        0, 0, 0, 0, 0, 0, 0, 0, 0, 0, 0, 0, 0, 0, 0, 0,
        0, 0, 0, 0, 0, 0, 0, 0, 0, 0, 0, 0, 0, 0, 0, 0,
    ];
    let mut textures: Vec<[u32; 64]> = Vec::new();
    let mut i: usize = 0;
    while i < TEXTURE_COUNT
        invariant
            i <= TEXTURE_COUNT,
            textures@.len() == i,
            empty@ =~= Seq::new(64, |j: int| 0u32),
            forall|k: int|
                0 <= k < i ==> #[trigger] textures@[k]@ =~= Seq::new(64, |j: int| 0u32),
        decreases TEXTURE_COUNT - i,
    {
        textures.push(empty);
        i += 1;
    }
    textures
}

} // verus!

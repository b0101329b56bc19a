//! Bitmap font rendering into an RGB pixel buffer: each character of a text
//! is blitted from a glyph atlas with per-pixel alpha blending.

use vstd::prelude::*;

verus! {

/// Alpha blending of one channel: the source weighted by the alpha, the
/// destination by the rest, in two-hundred-fifty-fifths.
pub open spec fn spec_blend_channel(dst: u8, src: u8, alpha: u8) -> u8 {
    ((src * alpha + dst * (255 - alpha)) / 255) as u8
}

/// Blends one color channel over a destination channel.
pub fn blend_channel(dst: u8, src: u8, alpha: u8) -> (r: u8)
    ensures
        r == spec_blend_channel(dst, src, alpha),
{
    proof {
        assert(0 <= src * alpha <= 255 * 255 && 0 <= dst * (255 - alpha) <= 255 * 255 && (
        src * alpha + dst * (255 - alpha)) / 255 <= 255) by (nonlinear_arith)
            requires
                0 <= src <= 255,
                0 <= dst <= 255,
                0 <= alpha <= 255,
        ;
    }
    let s = src as u32 * alpha as u32;
    let d = dst as u32 * (255 - alpha) as u32;
    ((s + d) / 255) as u8
}

/// The byte index of channel `ch` of the texel `(px, py)` of character
/// `k`'s glyph rectangle.
pub open spec fn font_target_byte(
    pos_x: int,
    pos_y: int,
    pitch: int,
    spacing: int,
    k: int,
    px: int,
    py: int,
    ch: int,
) -> int {
    3 * (pos_x + px + k * spacing) + (pos_y + py) * pitch + ch
}

/// Whether byte `j` lies inside some glyph rectangle of the first `n_chars`
/// characters.
pub open spec fn spec_font_target(
    n_chars: int,
    pos_x: int,
    pos_y: int,
    pitch: int,
    size: int,
    spacing: int,
    j: int,
) -> bool {
    exists|k: int, px: int, py: int, ch: int|
        0 <= k < n_chars && 0 <= px < size && 0 <= py < size && 0 <= ch < 3 && j
            == #[trigger] font_target_byte(pos_x, pos_y, pitch, spacing, k, px, py, ch)
}

/// Draws `text` into the pixel buffer at `position` using a glyph atlas of
/// `FONT_SIZE` by `FONT_SIZE` glyph bitmaps, one per character code, spaced
/// `FONT_SPACING` pixels apart. Glyph pixels carry alpha in their top byte
/// and are alpha-blended over the buffer; writes that would leave the
/// buffer, and characters without a glyph, are skipped. The buffer keeps
/// its length, every byte outside the text's glyph rectangles keeps its
/// value, and an empty text changes nothing. (What a covered byte becomes
/// is the left-to-right composition of the glyphs' blends, which may
/// overlap when the spacing is tighter than the glyph size; the contract
/// leaves those bytes open.)
pub fn render_font_unifont<const FONT_SIZE: u32, const FONT_SIZE_SQUARE: usize, const FONT_SPACING: usize>(
    atlas: &Vec<[u32; FONT_SIZE_SQUARE]>,
    pixels: &mut Vec<u8>,
    position: (usize, usize),
    _screen_size: (u32, u32),
    pitch: usize,
    text: &str,
)
    requires
        FONT_SIZE <= 64,
        FONT_SIZE * FONT_SIZE <= FONT_SIZE_SQUARE,
    ensures
        final(pixels)@.len() == old(pixels)@.len(),
        text@.len() == 0 ==> final(pixels)@ == old(pixels)@,
        forall|j: int|
            0 <= j < old(pixels)@.len() && !spec_font_target(
                text@.len() as int,
                position.0 as int,
                position.1 as int,
                pitch as int,
                FONT_SIZE as int,
                FONT_SPACING as int,
                j,
            ) ==> final(pixels)@[j] == old(pixels)@[j],
{
    let len = text.unicode_len();
    let mut index: usize = 0;
    while index < len
        invariant
            len == text@.len(),
            index <= len,
            FONT_SIZE <= 64,
            FONT_SIZE * FONT_SIZE <= FONT_SIZE_SQUARE,
            pixels@.len() == old(pixels)@.len(),
            forall|j: int|
                0 <= j < old(pixels)@.len() && !spec_font_target(
                    index as int,
                    position.0 as int,
                    position.1 as int,
                    pitch as int,
                    FONT_SIZE as int,
                    FONT_SPACING as int,
                    j,
                ) ==> pixels@[j] == old(pixels)@[j],
        decreases len - index,
    {
        proof {
            assert forall|j: int|
                0 <= j < old(pixels)@.len() && !spec_font_target(
                    (index + 1) as int,
                    position.0 as int,
                    position.1 as int,
                    pitch as int,
                    FONT_SIZE as int,
                    FONT_SPACING as int,
                    j,
                ) implies pixels@[j] == old(pixels)@[j] by {}
        }
        let ch = text.get_char(index);
        let code: u32 = if ch == ' ' {
            0
        } else {
            ch as u32
        };
        if (code as usize) < atlas.len() {
            let texture = &atlas[code as usize];
            let mut px: u32 = 0;
            while px < FONT_SIZE
                invariant
                    index < text@.len(),
                    px <= FONT_SIZE,
                    FONT_SIZE <= 64,
                    FONT_SIZE * FONT_SIZE <= FONT_SIZE_SQUARE,
                    texture@.len() == FONT_SIZE_SQUARE,
                    pixels@.len() == old(pixels)@.len(),
                    forall|j: int|
                        0 <= j < old(pixels)@.len() && !spec_font_target(
                            (index + 1) as int,
                            position.0 as int,
                            position.1 as int,
                            pitch as int,
                            FONT_SIZE as int,
                            FONT_SPACING as int,
                            j,
                        ) ==> pixels@[j] == old(pixels)@[j],
                decreases FONT_SIZE - px,
            {
                let mut py: u32 = 0;
                while py < FONT_SIZE
                    invariant
                        index < text@.len(),
                        px < FONT_SIZE,
                        py <= FONT_SIZE,
                        FONT_SIZE <= 64,
                        FONT_SIZE * FONT_SIZE <= FONT_SIZE_SQUARE,
                        texture@.len() == FONT_SIZE_SQUARE,
                        pixels@.len() == old(pixels)@.len(),
                        forall|j: int|
                            0 <= j < old(pixels)@.len() && !spec_font_target(
                                (index + 1) as int,
                                position.0 as int,
                                position.1 as int,
                                pitch as int,
                                FONT_SIZE as int,
                                FONT_SPACING as int,
                                j,
                            ) ==> pixels@[j] == old(pixels)@[j],
                    decreases FONT_SIZE - py,
                {
                    proof {
                        assert(0 <= py * FONT_SIZE <= 64 * 64 && px + py * FONT_SIZE < FONT_SIZE
                            * FONT_SIZE && FONT_SIZE * FONT_SIZE <= 64 * 64)
                            by (nonlinear_arith)
                            requires
                                px < FONT_SIZE,
                                py < FONT_SIZE,
                                FONT_SIZE <= 64,
                        ;
                    }
                    let glyph_index = (px + py * FONT_SIZE) as usize;
                    let color = texture[glyph_index];
                    let alpha = ((color >> 24) & 0xFF) as u8;
                    if alpha != 0 {
                        let blue = ((color >> 16) & 0xFF) as u8;
                        let green = ((color >> 8) & 0xFF) as u8;
                        let red = (color & 0xFF) as u8;
                        proof {
                            assert((index as int) * (FONT_SPACING as int) <= 0xFFFF_FFFF_FFFF_FFFF
                                * 0xFFFF_FFFF_FFFF_FFFF) by (nonlinear_arith)
                                requires
                                    0 <= index <= 0xFFFF_FFFF_FFFF_FFFF,
                                    0 <= FONT_SPACING <= 0xFFFF_FFFF_FFFF_FFFF,
                            ;
                        }
                        let col128: u128 = position.0 as u128 + px as u128 + (index as u128)
                            * (FONT_SPACING as u128);
                        let row128: u128 = position.1 as u128 + py as u128;
                        if col128 <= usize::MAX as u128 && row128 <= usize::MAX as u128 {
                            let ghost before = pixels@;
                            let col = col128 as usize;
                            let row = row128 as usize;
                            write_blended(pixels, col, row, pitch, red, green, blue, alpha);
                            proof {
                                assert forall|j: int|
                                    0 <= j < old(pixels)@.len() && !spec_font_target(
                                        (index + 1) as int,
                                        position.0 as int,
                                        position.1 as int,
                                        pitch as int,
                                        FONT_SIZE as int,
                                        FONT_SPACING as int,
                                        j,
                                    ) implies pixels@[j] == old(pixels)@[j] by {
                                    let base = 3 * (col as int) + (row as int) * (pitch as int);
                                    if j == base || j == base + 1 || j == base + 2 {
                                        let ch = j - base;
                                        assert(j == font_target_byte(
                                            position.0 as int,
                                            position.1 as int,
                                            pitch as int,
                                            FONT_SPACING as int,
                                            index as int,
                                            px as int,
                                            py as int,
                                            ch,
                                        ));
                                    } else {
                                        assert(pixels@[j] == before[j]);
                                    }
                                }
                            }
                        }
                    }
                    py += 1;
                }
                px += 1;
            }
        }
        index += 1;
    }
}

/// Blends one RGB pixel into the buffer at `(col, row)` for a row span of
/// `pitch` bytes; out-of-buffer writes are skipped.
fn write_blended(
    pixels: &mut Vec<u8>,
    col: usize,
    row: usize,
    pitch: usize,
    red: u8,
    green: u8,
    blue: u8,
    alpha: u8,
)
    ensures
        final(pixels)@.len() == old(pixels)@.len(),
        forall|j: int|
            0 <= j < old(pixels)@.len() && j != 3 * (col as int) + (row as int) * (pitch as int)
                && j != 3 * (col as int) + (row as int) * (pitch as int) + 1 && j != 3 * (
            col as int) + (row as int) * (pitch as int) + 2 ==> final(pixels)@[j] == old(
                pixels,
            )@[j],
{
    if col > usize::MAX / 3 {
        return ;
    }
    let base = col * 3;
    if pitch != 0 && row > (usize::MAX - base) / pitch {
        return ;
    }
    proof {
        if pitch == 0 {
            assert(row * pitch == 0) by (nonlinear_arith)
                requires
                    pitch == 0,
            ;
        } else {
            assert(row * pitch <= usize::MAX - base) by (nonlinear_arith)
                requires
                    1 <= pitch,
                    0 <= row <= (usize::MAX - base) / (pitch as int),
                    0 <= base,
            ;
        }
    }
    let start = base + row * pitch;
    if start > usize::MAX - 3 {
        return ;
    }
    if start + 3 <= pixels.len() {
        let d0 = pixels[start];
        let d1 = pixels[start + 1];
        let d2 = pixels[start + 2];
        pixels.set(start, blend_channel(d0, red, alpha));
        pixels.set(start + 1, blend_channel(d1, green, alpha));
        pixels.set(start + 2, blend_channel(d2, blue, alpha));
    }
}

} // verus!

//! The BC1 (DXT1) block decoder: two RGB-565 endpoints and a 2-bit index
//! map per 4×4 tile. When the first endpoint word is the larger, the two
//! remaining palette slots interpolate at thirds; otherwise they are the
//! midpoint and transparent black.

use vstd::prelude::*;
use crate::dds::Color4;
use crate::dds_util::{
    blocks_across,
    interp_color_2_opaque,
    interp_color_2_transparent,
    interp_color_3_opaque,
    interp_color_3_transparent,
    spec_blocks_across,
    unpack_dxt_color_565,
};

verus! {

/// The 16-bit color word of endpoint `e`, little-endian at byte `2·e`.
pub open spec fn bc1_color_word(s: Seq<u8>, e: int) -> u16 {
    (s[2 * e] as u16) | ((s[1 + 2 * e] as u16) << 8)
}

/// Color channel `ch` of endpoint `e`, unpacked from RGB-565 with the high
/// bits replicated into the low bits; alpha is 255.
pub open spec fn bc1_base_channel(s: Seq<u8>, e: int, ch: int) -> int {
    let w = bc1_color_word(s, e);
    if ch == 0 {
        ((((w >> 11) & 0x1f) << 3) | ((w >> 11) & 0x1f) >> 2) as int
    } else if ch == 1 {
        ((((w >> 5) & 0x3f) << 2) | ((w >> 5) & 0x3f) >> 4) as int
    } else if ch == 2 {
        (((w & 0x1f) << 3) | (w & 0x1f) >> 2) as int
    } else {
        255
    }
}

/// The 32-bit color index map, little-endian from bytes 4 through 7.
pub open spec fn bc1_color_map(s: Seq<u8>) -> u32 {
    (s[4] as u32) | ((s[5] as u32) << 8) | ((s[6] as u32) << 16) | ((s[7] as u32) << 24)
}

/// The 2-bit color index of pixel `i`.
pub open spec fn bc1_color_sel(s: Seq<u8>, i: int) -> u32 {
    (bc1_color_map(s) >> ((2 * i) as u32)) & 3
}

/// Channel `ch` of pixel `i`: the opaque branch when the first endpoint
/// word is the larger, else the midpoint-and-transparent branch.
pub open spec fn bc1_channel(s: Seq<u8>, i: int, ch: int) -> int {
    let sel = bc1_color_sel(s, i);
    if sel == 0 {
        bc1_base_channel(s, 0, ch)
    } else if sel == 1 {
        bc1_base_channel(s, 1, ch)
    } else if bc1_color_word(s, 0) > bc1_color_word(s, 1) {
        if sel == 2 {
            (2 * bc1_base_channel(s, 0, ch) + bc1_base_channel(s, 1, ch) + 1) / 3
        } else {
            (bc1_base_channel(s, 0, ch) + 2 * bc1_base_channel(s, 1, ch) + 1) / 3
        }
    } else {
        if sel == 2 {
            (bc1_base_channel(s, 0, ch) + bc1_base_channel(s, 1, ch)) / 2
        } else {
            0
        }
    }
}

/// Decodes one 8-byte BC1 block into a row-major 4×4 tile of pixels.
pub fn decode_block(block: &[u8]) -> (r: Vec<Color4>)
    requires
        block@.len() == 8,
    ensures
        r@.len() == 16,
        forall|i: int, ch: int|
            0 <= i < 16 && 0 <= ch < 4 ==> r@[i].components@[ch] as int == bc1_channel(
                block@,
                i,
                ch,
            ),
{
    let w0 = (block[0] as u16) | ((block[1] as u16) << 8);
    let w1 = (block[2] as u16) | ((block[3] as u16) << 8);
    let color_0 = unpack_dxt_color_565(w0);
    let color_1 = unpack_dxt_color_565(w1);
    let color_map: u32 = (block[4] as u32) | ((block[5] as u32) << 8) | ((block[6] as u32) << 16)
        | ((block[7] as u32) << 24);

    let mut out: Vec<Color4> = Vec::new();
    let mut px: usize = 0;
    while px < 16
        invariant
            block@.len() == 8,
            w0 == bc1_color_word(block@, 0),
            w1 == bc1_color_word(block@, 1),
            color_map == bc1_color_map(block@),
            color_0.components@.len() == 4,
            color_1.components@.len() == 4,
            forall|ch: int|
                0 <= ch < 4 ==> color_0.components@[ch] as int == bc1_base_channel(block@, 0, ch),
            forall|ch: int|
                0 <= ch < 4 ==> color_1.components@[ch] as int == bc1_base_channel(block@, 1, ch),
            px <= 16,
            out@.len() == px as int,
            forall|j: int, ch: int|
                0 <= j < px as int && 0 <= ch < 4 ==> out@[j].components@[ch] as int == bc1_channel(
                    block@,
                    j,
                    ch,
                ),
        decreases 16 - px,
    {
        let shift_c = (2 * px) as u32;
        proof {
            assert((color_map >> shift_c) & 3 < 4) by (bit_vector);
        }
        let csel = (color_map >> shift_c) & 3;
        let pixel = if csel == 0 {
            color_0
        } else if csel == 1 {
            color_1
        } else if w0 > w1 {
            if csel == 2 {
                interp_color_2_opaque(color_0, color_1)
            } else {
                interp_color_3_opaque(color_0, color_1)
            }
        } else {
            if csel == 2 {
                interp_color_2_transparent(color_0, color_1)
            } else {
                interp_color_3_transparent(color_0, color_1)
            }
        };
        proof {
            let s = block@;
            let j = px as int;
            if csel >= 2 && !(bc1_color_word(s, 0) > bc1_color_word(s, 1)) && csel == 2 {
                assert((255int + 255) / 2 == 255);
            }
            assert(forall|ch: int|
                0 <= ch < 4 ==> pixel.components@[ch] as int == bc1_channel(s, j, ch));
        }
        out.push(pixel);
        px = px + 1;
    }
    out
}

/// The byte at channel `ch` of pixel `(row, col)` of a decoded BC1 image of
/// width `w`.
pub open spec fn bc1_image_byte(s: Seq<u8>, w: int, row: int, col: int, ch: int) -> int {
    let b = (row / 4) * spec_blocks_across(w) + col / 4;
    bc1_channel(s.subrange(8 * b, 8 * b + 8), (row % 4) * 4 + col % 4, ch)
}

/// Decodes a whole BC1 image: one 8-byte block per 4×4 tile, row-major,
/// then trimmed to `width × height` RGBA8 bytes.
pub fn read_image(data: &[u8], width: usize, height: usize) -> (r: Vec<u8>)
    requires
        width + 3 <= usize::MAX,
        height + 3 <= usize::MAX,
        data@.len() == spec_blocks_across(width as int) * spec_blocks_across(height as int) * 8,
        4 * (width as int) * (height as int) <= usize::MAX,
    ensures
        r@.len() == 4 * (width as int) * (height as int),
        forall|row: int, col: int, ch: int|
            0 <= row < height as int && 0 <= col < width as int && 0 <= ch < 4
                ==> #[trigger] r@[4 * (row * (width as int) + col) + ch] as int == bc1_image_byte(
                data@,
                width as int,
                row,
                col,
                ch,
            ),
{
    let n = data.len();
    let bx = blocks_across(width);
    let by = blocks_across(height);
    proof {
        assert(((bx as int) * (by as int)) * 8 == spec_blocks_across(width as int)
            * spec_blocks_across(height as int) * 8) by (nonlinear_arith)
            requires
                bx as int == spec_blocks_across(width as int) && by as int == spec_blocks_across(
                    height as int,
                ),
        ;
        assert((bx as int) * (by as int) <= ((bx as int) * (by as int)) * 8) by (nonlinear_arith)
            requires
                (bx as int) * (by as int) >= 0,
        ;
    }
    let total = bx * by;
    let mut blocks: Vec<Vec<Color4>> = Vec::new();
    let mut b: usize = 0;
    while b < total
        invariant
            data@.len() == (total as int) * 8,
            data@.len() <= usize::MAX,
            b <= total,
            blocks@.len() == b as int,
            forall|bb: int| 0 <= bb < b as int ==> (#[trigger] blocks@[bb])@.len() == 16,
            forall|bb: int, i: int, ch: int|
                0 <= bb < b as int && 0 <= i < 16 && 0 <= ch < 4
                    ==> #[trigger] blocks@[bb]@[i].components@[ch] as int == bc1_channel(
                    data@.subrange(8 * bb, 8 * bb + 8),
                    i,
                    ch,
                ),
        decreases total - b,
    {
        proof {
            vstd::arithmetic::mul::lemma_mul_inequality(b as int + 1, total as int, 8);
            assert((b as int + 1) * 8 == (b as int) * 8 + 8);
            assert((total as int) * 8 == 8 * (total as int)) by (nonlinear_arith);
        }
        let chunk = vstd::slice::slice_subrange(data, 8 * b, 8 * b + 8);
        let tile = decode_block(chunk);
        blocks.push(tile);
        b = b + 1;
    }
    let out = crate::dds_util::assemble_image(&blocks, bx, by, width, height);
    proof {
        assert forall|row: int, col: int, ch: int|
            0 <= row < height as int && 0 <= col < width as int && 0 <= ch < 4 implies #[trigger] out@[4
            * (row * (width as int) + col) + ch] as int == bc1_image_byte(
            data@,
            width as int,
            row,
            col,
            ch,
        ) by {
            let bxi = bx as int;
            let byi = by as int;
            let row4 = row / 4;
            let col4 = col / 4;
            let blki = row4 * bxi + col4;
            assert(4 * row4 <= row && 4 * col4 <= col);
            assert(row4 <= byi - 1);
            assert(col4 <= bxi - 1);
            assert(blki < bxi * byi && row4 * bxi >= 0) by (nonlinear_arith)
                requires
                    blki == row4 * bxi + col4,
                    0 <= row4 <= byi - 1,
                    0 <= col4 <= bxi - 1,
                    bxi >= 1,
                    byi >= 1,
            ;
            vstd::arithmetic::mul::lemma_mul_inequality(blki + 1, bxi * byi, 8);
            assert((blki + 1) * 8 == 8 * blki + 8) by (nonlinear_arith);
            assert((bxi * byi) * 8 == (total as int) * 8) by (nonlinear_arith)
                requires
                    bxi * byi == total as int,
            ;
        }
    }
    out
}

} // verus!

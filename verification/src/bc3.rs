//! The BC3 (DXT5) block decoder: an 8-byte interpolated-alpha sub-block
//! followed by a BC1-style color sub-block, decoded as its opaque branch.

use vstd::prelude::*;
use crate::dds::Color4;
use crate::dds_util::{blocks_across, interp_color_2_opaque, interp_color_3_opaque, spec_blocks_across, unpack_dxt_color_565};

verus! {

/// The 48-bit alpha index map, little-endian from bytes 2 through 7.
pub open spec fn bc3_alpha_map(s: Seq<u8>) -> u64 {
    (s[2] as u64) | ((s[3] as u64) << 8) | ((s[4] as u64) << 16) | ((s[5] as u64) << 24) | ((
    s[6] as u64) << 32) | ((s[7] as u64) << 40)
}

/// The 3-bit alpha index of pixel `i`.
pub open spec fn bc3_alpha_sel(s: Seq<u8>, i: int) -> u64 {
    (bc3_alpha_map(s) >> ((3 * i) as u64)) & 7
}

/// The alpha ladder entry at index `idx`: the 7-step linear ladder when
/// `alpha_0 > alpha_1`, else the 5-step ladder with explicit 0 and 255.
pub open spec fn bc3_alpha_value(s: Seq<u8>, idx: int) -> int {
    let a0 = s[0] as int;
    let a1 = s[1] as int;
    if a0 > a1 {
        if idx == 0 {
            a0
        } else if idx == 1 {
            a1
        } else if idx == 2 {
            (6 * a0 + 1 * a1 + 3) / 7
        } else if idx == 3 {
            (5 * a0 + 2 * a1 + 3) / 7
        } else if idx == 4 {
            (4 * a0 + 3 * a1 + 3) / 7
        } else if idx == 5 {
            (3 * a0 + 4 * a1 + 3) / 7
        } else if idx == 6 {
            (2 * a0 + 5 * a1 + 3) / 7
        } else {
            (1 * a0 + 6 * a1 + 3) / 7
        }
    } else {
        if idx == 0 {
            a0
        } else if idx == 1 {
            a1
        } else if idx == 2 {
            (4 * a0 + 1 * a1 + 2) / 5
        } else if idx == 3 {
            (3 * a0 + 2 * a1 + 2) / 5
        } else if idx == 4 {
            (2 * a0 + 3 * a1 + 2) / 5
        } else if idx == 5 {
            (1 * a0 + 4 * a1 + 2) / 5
        } else if idx == 6 {
            0
        } else {
            255
        }
    }
}

/// The 16-bit color word of endpoint `e`, little-endian at byte `8 + 2·e`.
pub open spec fn bc3_color_word(s: Seq<u8>, e: int) -> u16 {
    (s[8 + 2 * e] as u16) | ((s[9 + 2 * e] as u16) << 8)
}

/// Color channel `ch` of endpoint `e`, unpacked from RGB-565 with the high
/// bits replicated into the low bits.
pub open spec fn bc3_base_channel(s: Seq<u8>, e: int, ch: int) -> int {
    let w = bc3_color_word(s, e);
    if ch == 0 {
        ((((w >> 11) & 0x1f) << 3) | ((w >> 11) & 0x1f) >> 2) as int
    } else if ch == 1 {
        ((((w >> 5) & 0x3f) << 2) | ((w >> 5) & 0x3f) >> 4) as int
    } else {
        (((w & 0x1f) << 3) | (w & 0x1f) >> 2) as int
    }
}

/// The 32-bit color index map, little-endian from bytes 12 through 15.
pub open spec fn bc3_color_map(s: Seq<u8>) -> u32 {
    (s[12] as u32) | ((s[13] as u32) << 8) | ((s[14] as u32) << 16) | ((s[15] as u32) << 24)
}

/// The 2-bit color index of pixel `i`.
pub open spec fn bc3_color_sel(s: Seq<u8>, i: int) -> u32 {
    (bc3_color_map(s) >> ((2 * i) as u32)) & 3
}

/// Channel `ch` of pixel `i`: the alpha channel follows the alpha ladder;
/// the color channels pick an endpoint or one of the two opaque-branch
/// interpolants.
pub open spec fn bc3_channel(s: Seq<u8>, i: int, ch: int) -> int {
    if ch == 3 {
        bc3_alpha_value(s, bc3_alpha_sel(s, i) as int)
    } else {
        let sel = bc3_color_sel(s, i);
        if sel == 0 {
            bc3_base_channel(s, 0, ch)
        } else if sel == 1 {
            bc3_base_channel(s, 1, ch)
        } else if sel == 2 {
            (2 * bc3_base_channel(s, 0, ch) + bc3_base_channel(s, 1, ch) + 1) / 3
        } else {
            (bc3_base_channel(s, 0, ch) + 2 * bc3_base_channel(s, 1, ch) + 1) / 3
        }
    }
}

/// The byte at channel `ch` of pixel `(row, col)` of a decoded BC3 image of
/// width `w`: the block covering the pixel, decoded, at the pixel's position
/// inside its 4×4 tile.
pub open spec fn bc3_image_byte(s: Seq<u8>, w: int, row: int, col: int, ch: int) -> int {
    let b = (row / 4) * spec_blocks_across(w) + col / 4;
    bc3_channel(s.subrange(16 * b, 16 * b + 16), (row % 4) * 4 + col % 4, ch)
}

/// Decodes a whole BC3 image: one 16-byte block per 4×4 tile, row-major,
/// then trimmed to `width × height` RGBA8 bytes.
pub fn read_image(data: &[u8], width: usize, height: usize) -> (r: Vec<u8>)
    requires
        width + 3 <= usize::MAX,
        height + 3 <= usize::MAX,
        data@.len() == spec_blocks_across(width as int) * spec_blocks_across(height as int) * 16,
        4 * (width as int) * (height as int) <= usize::MAX,
    ensures
        r@.len() == 4 * (width as int) * (height as int),
        forall|row: int, col: int, ch: int|
            0 <= row < height as int && 0 <= col < width as int && 0 <= ch < 4
                ==> #[trigger] r@[4 * (row * (width as int) + col) + ch] as int == bc3_image_byte(
                data@,
                width as int,
                row,
                col,
                ch,
            ),
{
    let n = data.len();
    let bx = blocks_across(width);
    let by = blocks_across(height);
    proof {
        assert(((bx as int) * (by as int)) * 16 == spec_blocks_across(width as int)
            * spec_blocks_across(height as int) * 16) by (nonlinear_arith)
            requires
                bx as int == spec_blocks_across(width as int) && by as int == spec_blocks_across(
                    height as int,
                ),
        ;
        assert((bx as int) * (by as int) <= ((bx as int) * (by as int)) * 16) by (nonlinear_arith)
            requires
                (bx as int) * (by as int) >= 0,
        ;
    }
    let total = bx * by;
    let mut blocks: Vec<Vec<Color4>> = Vec::new();
    let mut b: usize = 0;
    while b < total
        invariant
            data@.len() == (total as int) * 16,
            data@.len() <= usize::MAX,
            b <= total,
            blocks@.len() == b as int,
            forall|bb: int| 0 <= bb < b as int ==> (#[trigger] blocks@[bb])@.len() == 16,
            forall|bb: int, i: int, ch: int|
                0 <= bb < b as int && 0 <= i < 16 && 0 <= ch < 4
                    ==> #[trigger] blocks@[bb]@[i].components@[ch] as int == bc3_channel(
                    data@.subrange(16 * bb, 16 * bb + 16),
                    i,
                    ch,
                ),
        decreases total - b,
    {
        proof {
            vstd::arithmetic::mul::lemma_mul_inequality(b as int + 1, total as int, 16);
            assert((b as int + 1) * 16 == (b as int) * 16 + 16);
            assert((total as int) * 16 == 16 * (total as int)) by (nonlinear_arith);
        }
        let chunk = vstd::slice::slice_subrange(data, 16 * b, 16 * b + 16);
        let tile = decode_block(chunk);
        blocks.push(tile);
        b = b + 1;
    }
    let out = crate::dds_util::assemble_image(&blocks, bx, by, width, height);
    proof {
        assert forall|row: int, col: int, ch: int|
            0 <= row < height as int && 0 <= col < width as int && 0 <= ch < 4 implies #[trigger] out@[4
            * (row * (width as int) + col) + ch] as int == bc3_image_byte(
            data@,
            width as int,
            row,
            col,
            ch,
        ) by {
            let bxi = bx as int;
            let byi = by as int;
            let row4 = row / 4;
            let col4 = col / 4;
            let blki = row4 * bxi + col4;
            assert(4 * row4 <= row && 4 * col4 <= col);
            assert(row4 <= byi - 1);
            assert(col4 <= bxi - 1);
            assert(blki < bxi * byi && row4 * bxi >= 0) by (nonlinear_arith)
                requires
                    blki == row4 * bxi + col4,
                    0 <= row4 <= byi - 1,
                    0 <= col4 <= bxi - 1,
                    bxi >= 1,
                    byi >= 1,
            ;
            vstd::arithmetic::mul::lemma_mul_inequality(blki + 1, bxi * byi, 16);
            assert((blki + 1) * 16 == 16 * blki + 16) by (nonlinear_arith);
            assert((bxi * byi) * 16 == (total as int) * 16) by (nonlinear_arith)
                requires
                    bxi * byi == total as int,
            ;
        }
    }
    out
}

/// Decodes one 16-byte BC3 block into a row-major 4×4 tile of pixels.
pub fn decode_block(block: &[u8]) -> (r: Vec<Color4>)
    requires
        block@.len() == 16,
    ensures
        r@.len() == 16,
        forall|i: int, ch: int|
            0 <= i < 16 && 0 <= ch < 4 ==> r@[i].components@[ch] as int == bc3_channel(
                block@,
                i,
                ch,
            ),
{
    let alpha_0 = block[0];
    let alpha_1 = block[1];
    let alpha_map: u64 = (block[2] as u64) | ((block[3] as u64) << 8) | ((block[4] as u64) << 16)
        | ((block[5] as u64) << 24) | ((block[6] as u64) << 32) | ((block[7] as u64) << 40);
    let w0 = (block[8] as u16) | ((block[9] as u16) << 8);
    let w1 = (block[10] as u16) | ((block[11] as u16) << 8);
    let color_0 = unpack_dxt_color_565(w0);
    let color_1 = unpack_dxt_color_565(w1);
    let color_map: u32 = (block[12] as u32) | ((block[13] as u32) << 8) | ((block[14] as u32)
        << 16) | ((block[15] as u32) << 24);

    let a0 = alpha_0 as u32;
    let a1 = alpha_1 as u32;
    let alpha: Vec<u8> = if alpha_0 > alpha_1 {
        vec![
            alpha_0,
            alpha_1,
            ((6 * a0 + 1 * a1 + 3) / 7) as u8,
            ((5 * a0 + 2 * a1 + 3) / 7) as u8,
            ((4 * a0 + 3 * a1 + 3) / 7) as u8,
            ((3 * a0 + 4 * a1 + 3) / 7) as u8,
            ((2 * a0 + 5 * a1 + 3) / 7) as u8,
            ((1 * a0 + 6 * a1 + 3) / 7) as u8,
        ]
    } else {
        vec![
            alpha_0,
            alpha_1,
            ((4 * a0 + 1 * a1 + 2) / 5) as u8,
            ((3 * a0 + 2 * a1 + 2) / 5) as u8,
            ((2 * a0 + 3 * a1 + 2) / 5) as u8,
            ((1 * a0 + 4 * a1 + 2) / 5) as u8,
            0,
            255,
        ]
    };
    proof {
        assert(forall|idx: int|
            0 <= idx < 8 ==> alpha@[idx] as int == bc3_alpha_value(block@, idx));
    }

    let mut out: Vec<Color4> = Vec::new();
    let mut px: usize = 0;
    while px < 16
        invariant
            block@.len() == 16,
            alpha@.len() == 8,
            forall|idx: int| 0 <= idx < 8 ==> alpha@[idx] as int == bc3_alpha_value(block@, idx),
            alpha_map == bc3_alpha_map(block@),
            color_map == bc3_color_map(block@),
            color_0.components@.len() == 4,
            color_1.components@.len() == 4,
            forall|ch: int|
                0 <= ch < 3 ==> color_0.components@[ch] as int == bc3_base_channel(block@, 0, ch),
            forall|ch: int|
                0 <= ch < 3 ==> color_1.components@[ch] as int == bc3_base_channel(block@, 1, ch),
            px <= 16,
            out@.len() == px as int,
            forall|j: int, ch: int|
                0 <= j < px as int && 0 <= ch < 4 ==> out@[j].components@[ch] as int == bc3_channel(
                    block@,
                    j,
                    ch,
                ),
        decreases 16 - px,
    {
        let shift_a = (3 * px) as u64;
        proof {
            assert((alpha_map >> shift_a) & 7 < 8) by (bit_vector);
        }
        let asel = ((alpha_map >> shift_a) & 7) as usize;
        let a = alpha[asel];
        let c0 = color_0.with_alpha(a);
        let c1 = color_1.with_alpha(a);
        let shift_c = (2 * px) as u32;
        proof {
            assert((color_map >> shift_c) & 3 < 4) by (bit_vector);
        }
        let csel = (color_map >> shift_c) & 3;
        let pixel = if csel == 0 {
            c0
        } else if csel == 1 {
            c1
        } else if csel == 2 {
            interp_color_2_opaque(c0, c1)
        } else {
            interp_color_3_opaque(c0, c1)
        };
        proof {
            let s = block@;
            let j = px as int;
            assert(a as int == bc3_alpha_value(s, bc3_alpha_sel(s, j) as int));
            if csel == 2 {
                assert((2 * (a as int) + (a as int) + 1) / 3 == a as int);
            }
            if csel == 3 {
                assert(((a as int) + 2 * (a as int) + 1) / 3 == a as int);
            }
            assert(forall|ch: int|
                0 <= ch < 4 ==> pixel.components@[ch] as int == bc3_channel(s, j, ch));
        }
        out.push(pixel);
        px = px + 1;
    }
    out
}

} // verus!

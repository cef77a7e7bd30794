//! Color helpers shared by the BC1 and BC3 decoders: RGB-565 unpacking and
//! the fixed interpolation formulas of the DXT palette.

use vstd::prelude::*;
use crate::dds::Color4;

verus! {

/// `(2·a + b + 1) / 3`, the first DXT interpolant.
fn mix_2_1(a: u8, b: u8) -> (r: u8)
    ensures
        r as int == (2 * (a as int) + b as int + 1) / 3,
{
    let v: u32 = (2 * (a as u32) + (b as u32) + 1) / 3;
    v as u8
}

/// `(a + 2·b + 1) / 3`, the second DXT interpolant.
fn mix_1_2(a: u8, b: u8) -> (r: u8)
    ensures
        r as int == ((a as int) + 2 * (b as int) + 1) / 3,
{
    let v: u32 = ((a as u32) + 2 * (b as u32) + 1) / 3;
    v as u8
}

/// `(a + b) / 2`, the midpoint interpolant of the transparent branch.
fn mix_1_1(a: u8, b: u8) -> (r: u8)
    ensures
        r as int == ((a as int) + b as int) / 2,
{
    let v: u32 = ((a as u32) + (b as u32)) / 2;
    v as u8
}

/// Unpacks a u16 color value into an RGBA color: each field is left-aligned
/// into 8 bits and its high bits fill the low bits, so a full field reaches
/// 255. Note that the alpha component is always 255 and it is read as BGR,
/// not RGB.
pub fn unpack_dxt_color_565(color: u16) -> (r: Color4)
    ensures
        r.components@.len() == 4,
        r.components@[0] as u16 == (((color >> 11) & 0x1f) << 3) | ((color >> 11) & 0x1f) >> 2,
        r.components@[1] as u16 == (((color >> 5) & 0x3f) << 2) | ((color >> 5) & 0x3f) >> 4,
        r.components@[2] as u16 == ((color & 0x1f) << 3) | (color & 0x1f) >> 2,
        r.components@[3] == 255,
{
    let red5 = (color >> 11) & 0x1f;
    let green6 = (color >> 5) & 0x3f;
    let blue5 = color & 0x1f;
    let red = (red5 << 3) | (red5 >> 2);
    let green = (green6 << 2) | (green6 >> 4);
    let blue = (blue5 << 3) | (blue5 >> 2);
    proof {
        assert((((color >> 11) & 0x1f) << 3) | ((color >> 11) & 0x1f) >> 2 <= 255) by (bit_vector);
        assert((((color >> 5) & 0x3f) << 2) | ((color >> 5) & 0x3f) >> 4 <= 255) by (bit_vector);
        assert(((color & 0x1f) << 3) | (color & 0x1f) >> 2 <= 255) by (bit_vector);
    }
    let c = Color4 { components: [red as u8, green as u8, blue as u8, 255] };
    proof {
        assert(c.components@ =~= seq![red as u8, green as u8, blue as u8, 255u8]);
    }
    c
}

/// Calculate `color_2` as calculated by `(2 * color_0 + color_1 + 1) / 3`.
pub fn interp_color_2_opaque(color_0: Color4, color_1: Color4) -> (r: Color4)
    ensures
        r.components@.len() == 4,
        forall|i: int|
            0 <= i < 4 ==> r.components@[i] as int == (2 * (color_0.components@[i] as int) + (
            color_1.components@[i] as int) + 1) / 3,
{
    let e0 = mix_2_1(color_0.components[0], color_1.components[0]);
    let e1 = mix_2_1(color_0.components[1], color_1.components[1]);
    let e2 = mix_2_1(color_0.components[2], color_1.components[2]);
    let e3 = mix_2_1(color_0.components[3], color_1.components[3]);
    let c = Color4 { components: [e0, e1, e2, e3] };
    proof {
        assert(c.components@ =~= seq![e0, e1, e2, e3]);
    }
    c
}

/// Calculate `color_3` as calculated by `(color_0 + 2 * color_1 + 1) / 3`.
pub fn interp_color_3_opaque(color_0: Color4, color_1: Color4) -> (r: Color4)
    ensures
        r.components@.len() == 4,
        forall|i: int|
            0 <= i < 4 ==> r.components@[i] as int == ((color_0.components@[i] as int) + 2 * (
            color_1.components@[i] as int) + 1) / 3,
{
    let e0 = mix_1_2(color_0.components[0], color_1.components[0]);
    let e1 = mix_1_2(color_0.components[1], color_1.components[1]);
    let e2 = mix_1_2(color_0.components[2], color_1.components[2]);
    let e3 = mix_1_2(color_0.components[3], color_1.components[3]);
    let c = Color4 { components: [e0, e1, e2, e3] };
    proof {
        assert(c.components@ =~= seq![e0, e1, e2, e3]);
    }
    c
}

/// Calculate `color_2` as calculated by `(color_0 + color_1) / 2`.
pub fn interp_color_2_transparent(color_0: Color4, color_1: Color4) -> (r: Color4)
    ensures
        r.components@.len() == 4,
        forall|i: int|
            0 <= i < 4 ==> r.components@[i] as int == ((color_0.components@[i] as int) + (
            color_1.components@[i] as int)) / 2,
{
    let e0 = mix_1_1(color_0.components[0], color_1.components[0]);
    let e1 = mix_1_1(color_0.components[1], color_1.components[1]);
    let e2 = mix_1_1(color_0.components[2], color_1.components[2]);
    let e3 = mix_1_1(color_0.components[3], color_1.components[3]);
    let c = Color4 { components: [e0, e1, e2, e3] };
    proof {
        assert(c.components@ =~= seq![e0, e1, e2, e3]);
    }
    c
}

/// How many 4-pixel-wide block columns an image of width `w` needs, at
/// least one.
pub open spec fn spec_blocks_across(w: int) -> int {
    if (w + 3) / 4 < 1 {
        1
    } else {
        (w + 3) / 4
    }
}

/// How many block columns an image of the given width needs.
pub fn blocks_across(w: usize) -> (r: usize)
    requires
        w + 3 <= usize::MAX,
    ensures
        r as int == spec_blocks_across(w as int),
        4 * (r as int) >= w as int,
        r >= 1,
{
    let b = (w + 3) / 4;
    if b < 1 {
        1
    } else {
        b
    }
}

/// Tiles decoded 4×4 blocks into a `width × height` RGBA8 buffer, row-major,
/// dropping the padding columns and rows that round the image up to whole
/// blocks. The buffer holds exactly `4·width·height` bytes, and the byte at
/// `4·(row·width + col) + ch` is channel `ch` of the block pixel that covers
/// `(row, col)`.
pub fn assemble_image(
    blocks: &Vec<Vec<Color4>>,
    bx: usize,
    by: usize,
    width: usize,
    height: usize,
) -> (r: Vec<u8>)
    requires
        bx >= 1,
        blocks@.len() == (bx as int) * (by as int),
        width as int <= 4 * (bx as int),
        height as int <= 4 * (by as int),
        4 * (width as int) * (height as int) <= usize::MAX,
        forall|b: int| 0 <= b < blocks@.len() ==> (#[trigger] blocks@[b])@.len() == 16,
    ensures
        r@.len() == 4 * (width as int) * (height as int),
        forall|row: int, col: int, ch: int|
            0 <= row < height as int && 0 <= col < width as int && 0 <= ch < 4
                ==> #[trigger] r@[4 * (row * (width as int) + col) + ch] == blocks@[(row / 4) * (
            bx as int) + col / 4]@[(row % 4) * 4 + col % 4].components@[ch],
{
    let w = width;
    let h = height;
    let mut out: Vec<u8> = Vec::new();
    let mut row: usize = 0;
    while row < h
        invariant
            bx >= 1,
            blocks@.len() == (bx as int) * (by as int),
            w as int <= 4 * (bx as int),
            h as int <= 4 * (by as int),
            4 * (w as int) * (h as int) <= usize::MAX,
            forall|b: int| 0 <= b < blocks@.len() ==> (#[trigger] blocks@[b])@.len() == 16,
            row <= h,
            out@.len() == 4 * ((row as int) * (w as int)),
            forall|rr: int, cc: int, ch: int|
                0 <= rr < row as int && 0 <= cc < w as int && 0 <= ch < 4
                    ==> #[trigger] out@[4 * (rr * (w as int) + cc) + ch] == blocks@[(rr / 4) * (
                bx as int) + cc / 4]@[(rr % 4) * 4 + cc % 4].components@[ch],
        decreases h - row,
    {
        proof {
            vstd::arithmetic::mul::lemma_mul_inequality(row as int + 1, h as int, w as int);
            assert((row as int + 1) * (w as int) == (row as int) * (w as int) + (w as int))
                by (nonlinear_arith);
            assert(4 * (w as int) * (h as int) == 4 * ((h as int) * (w as int)))
                by (nonlinear_arith);
        }
        let mut col: usize = 0;
        while col < w
            invariant
                bx >= 1,
                blocks@.len() == (bx as int) * (by as int),
                w as int <= 4 * (bx as int),
                h as int <= 4 * (by as int),
                row < h,
                forall|b: int| 0 <= b < blocks@.len() ==> (#[trigger] blocks@[b])@.len() == 16,
                col <= w,
                4 * ((row as int) * (w as int)) + 4 * (w as int) <= usize::MAX,
                out@.len() == 4 * ((row as int) * (w as int)) + 4 * (col as int),
                forall|rr: int, cc: int, ch: int|
                    0 <= rr < row as int && 0 <= cc < w as int && 0 <= ch < 4
                        ==> #[trigger] out@[4 * (rr * (w as int) + cc) + ch] == blocks@[(rr / 4) * (
                    bx as int) + cc / 4]@[(rr % 4) * 4 + cc % 4].components@[ch],
                forall|cc: int, ch: int|
                    0 <= cc < col as int && 0 <= ch < 4 ==> #[trigger] out@[4 * ((row as int) * (
                    w as int) + cc) + ch] == blocks@[((row as int) / 4) * (bx as int) + cc
                        / 4]@[((row as int) % 4) * 4 + cc % 4].components@[ch],
            decreases w - col,
        {
            let ghost old_out = out@;
            let ghost wi = w as int;
            let ghost rowi = row as int;
            proof {
                vstd::std_specs::vec::axiom_spec_len(blocks);
                assert((rowi / 4) * (bx as int) + (col as int) / 4 < (bx as int) * (by as int)
                    && (rowi / 4) * (bx as int) <= ((by as int) - 1) * (bx as int))
                    by (nonlinear_arith)
                    requires
                        rowi / 4 <= (by as int) - 1 && (col as int) / 4 <= (bx as int) - 1
                            && bx as int >= 1 && by as int >= 1,
                ;
            }
            let b = (row / 4) * bx + col / 4;
            let p = (row % 4) * 4 + col % 4;
            let blk = &blocks[b];
            let px = blk[p];
            out.push(px.components[0]);
            out.push(px.components[1]);
            out.push(px.components[2]);
            out.push(px.components[3]);
            proof {
                let coli = col as int;
                assert(out@.len() == old_out.len() + 4);
                assert(forall|k: int| 0 <= k < old_out.len() ==> out@[k] == old_out[k]);
                assert(forall|ch: int|
                    0 <= ch < 4 ==> out@[old_out.len() + ch] == px.components@[ch]);
                assert forall|rr: int, cc: int, ch: int|
                    0 <= rr < rowi && 0 <= cc < wi && 0 <= ch < 4 implies #[trigger] out@[4 * (rr
                    * wi + cc) + ch] == blocks@[(rr / 4) * (bx as int) + cc / 4]@[(rr % 4) * 4 + cc
                    % 4].components@[ch] by {
                    vstd::arithmetic::mul::lemma_mul_inequality(rr + 1, rowi, wi);
                    assert((rr + 1) * wi == rr * wi + wi) by (nonlinear_arith);
                    assert(4 * (rr * wi + cc) + ch < old_out.len());
                }
                assert forall|cc: int, ch: int|
                    0 <= cc < coli + 1 && 0 <= ch < 4 implies #[trigger] out@[4 * (rowi * wi + cc)
                    + ch] == blocks@[(rowi / 4) * (bx as int) + cc / 4]@[(rowi % 4) * 4 + cc
                    % 4].components@[ch] by {
                    if cc < coli {
                        assert(4 * (rowi * wi + cc) + ch < old_out.len());
                        assert(out@[4 * (rowi * wi + cc) + ch] == old_out[4 * (rowi * wi + cc)
                            + ch]);
                    } else {
                        assert(4 * (rowi * wi + cc) + ch == old_out.len() + ch);
                        assert(out@[old_out.len() + ch] == px.components@[ch]);
                        assert(b as int == (rowi / 4) * (bx as int) + cc / 4);
                        assert(p as int == (rowi % 4) * 4 + cc % 4);
                    }
                }
            }
            col = col + 1;
        }
        row = row + 1;
    }
    proof {
        assert(4 * ((h as int) * (w as int)) == 4 * (w as int) * (h as int)) by (nonlinear_arith);
    }
    out
}

/// "Calculate" `color_3`, which is just transparent.
#[allow(unused_variables)]
pub fn interp_color_3_transparent(color_0: Color4, color_1: Color4) -> (r: Color4)
    ensures
        r.components@ == seq![0u8, 0u8, 0u8, 0u8],
{
    Color4::transparent()
}

} // verus!

//! The BC7 image decoder: one 16-byte block per 4×4 tile, decoded and tiled
//! into a trimmed `width × height` RGBA8 buffer.

use vstd::prelude::*;
use crate::bc7_blocks::{decode, m137_channel, m45_channel, m6_channel, spec_bc7_mode};
use crate::dds::{Bc7Error, Color4};
use crate::dds_util::{assemble_image, blocks_across, spec_blocks_across};

verus! {

/// Whether a block declares a mode this decoder implements.
pub open spec fn bc7_mode_ok(chunk: Seq<u8>) -> bool {
    let m = spec_bc7_mode(chunk[0]);
    m == 1 || m == 3 || m == 4 || m == 5 || m == 6 || m == 7
}

/// The 16 bytes of the block covering pixel `(row, col)` of an image of
/// width `w`.
pub open spec fn bc7_chunk_at(s: Seq<u8>, w: int, row: int, col: int) -> Seq<u8> {
    let b = (row / 4) * spec_blocks_across(w) + col / 4;
    s.subrange(16 * b, 16 * b + 16)
}

/// Decodes a whole BC7 image. Fails with the first block's error when a
/// block declares no mode or an unimplemented one; otherwise the buffer
/// holds exactly `4·width·height` bytes and every pixel carries its
/// block's decoded value.
pub fn read_image(data: &[u8], width: usize, height: usize) -> (r: Result<Vec<u8>, Bc7Error>)
    requires
        width + 3 <= usize::MAX,
        height + 3 <= usize::MAX,
        data@.len() == spec_blocks_across(width as int) * spec_blocks_across(height as int) * 16,
        4 * (width as int) * (height as int) <= usize::MAX,
    ensures
        ({
            let nb = spec_blocks_across(width as int) * spec_blocks_across(height as int);
            match r {
                Ok(v) => v@.len() == 4 * (width as int) * (height as int) && (forall|b: int|
                    0 <= b < nb ==> bc7_mode_ok(#[trigger] data@.subrange(16 * b, 16 * b + 16)))
                    && (forall|row: int, col: int, ch: int|
                    0 <= row < height as int && 0 <= col < width as int && 0 <= ch < 4 ==> {
                        let chunk = bc7_chunk_at(data@, width as int, row, col);
                        let m = spec_bc7_mode(chunk[0]);
                        let p = (row % 4) * 4 + col % 4;
                        &&& ((m == 1 || m == 3 || m == 7) ==> #[trigger] v@[4 * (row * (
                        width as int) + col) + ch] as int == m137_channel(chunk, m, p, ch))
                        &&& ((m == 4 || m == 5) ==> v@[4 * (row * (width as int) + col) + ch] as int
                            == m45_channel(chunk, m, p, ch))
                        &&& (m == 6 ==> v@[4 * (row * (width as int) + col) + ch] as int
                            == m6_channel(chunk, p, ch))
                    }),
                Err(e) => exists|b: int|
                    0 <= b < nb && !bc7_mode_ok(#[trigger] data@.subrange(16 * b, 16 * b + 16))
                        && {
                        let m = spec_bc7_mode(data@.subrange(16 * b, 16 * b + 16)[0]);
                        (m == 8 && e == Bc7Error::InvalidBc7BlockMode(0)) || ((m == 0 || m == 2)
                            && e == Bc7Error::UnimplementedBc7BlockMode(m as u8))
                    },
            }
        }),
{
    let n = data.len();
    let bx = blocks_across(width);
    let by = blocks_across(height);
    proof {
        assert(((bx as int) * (by as int)) * 16 == spec_blocks_across(width as int)
            * spec_blocks_across(height as int) * 16) by (nonlinear_arith)
            requires
                bx as int == spec_blocks_across(width as int) && by as int == spec_blocks_across(
                    height as int,
                ),
        ;
        assert((bx as int) * (by as int) <= ((bx as int) * (by as int)) * 16) by (nonlinear_arith)
            requires
                (bx as int) * (by as int) >= 0,
        ;
    }
    let total = bx * by;
    let mut blocks: Vec<Vec<Color4>> = Vec::new();
    let mut b: usize = 0;
    while b < total
        invariant
            width + 3 <= usize::MAX,
            height + 3 <= usize::MAX,
            bx as int == spec_blocks_across(width as int),
            by as int == spec_blocks_across(height as int),
            total as int == (bx as int) * (by as int),
            data@.len() == (total as int) * 16,
            data@.len() <= usize::MAX,
            b <= total,
            blocks@.len() == b as int,
            forall|bb: int| 0 <= bb < b as int ==> (#[trigger] blocks@[bb])@.len() == 16,
            forall|bb: int|
                0 <= bb < b as int ==> bc7_mode_ok(
                    #[trigger] data@.subrange(16 * bb, 16 * bb + 16),
                ),
            forall|bb: int, i: int, ch: int|
                0 <= bb < b as int && 0 <= i < 16 && 0 <= ch < 4 ==> {
                    let chunk = data@.subrange(16 * bb, 16 * bb + 16);
                    let m = spec_bc7_mode(chunk[0]);
                    &&& ((m == 1 || m == 3 || m == 7)
                        ==> #[trigger] blocks@[bb]@[i].components@[ch] as int == m137_channel(
                        chunk,
                        m,
                        i,
                        ch,
                    ))
                    &&& ((m == 4 || m == 5) ==> blocks@[bb]@[i].components@[ch] as int
                        == m45_channel(chunk, m, i, ch))
                    &&& (m == 6 ==> blocks@[bb]@[i].components@[ch] as int == m6_channel(
                        chunk,
                        i,
                        ch,
                    ))
                },
        decreases total - b,
    {
        proof {
            vstd::arithmetic::mul::lemma_mul_inequality(b as int + 1, total as int, 16);
            assert((b as int + 1) * 16 == (b as int) * 16 + 16);
            assert((total as int) * 16 == 16 * (total as int)) by (nonlinear_arith);
        }
        let chunk = vstd::slice::slice_subrange(data, 16 * b, 16 * b + 16);
        let tile = match decode(chunk) {
            Ok(t) => t,
            Err(e) => {
                proof {
                    assert(!bc7_mode_ok(data@.subrange(16 * (b as int), 16 * (b as int) + 16)));
                }
                return Err(e);
            },
        };
        blocks.push(tile);
        b = b + 1;
    }
    let out = assemble_image(&blocks, bx, by, width, height);
    proof {
        assert forall|row: int, col: int, ch: int|
            0 <= row < height as int && 0 <= col < width as int && 0 <= ch < 4 implies {
            let chunk = bc7_chunk_at(data@, width as int, row, col);
            let m = spec_bc7_mode(chunk[0]);
            let p = (row % 4) * 4 + col % 4;
            &&& ((m == 1 || m == 3 || m == 7) ==> #[trigger] out@[4 * (row * (width as int) + col)
                + ch] as int == m137_channel(chunk, m, p, ch))
            &&& ((m == 4 || m == 5) ==> out@[4 * (row * (width as int) + col) + ch] as int
                == m45_channel(chunk, m, p, ch))
            &&& (m == 6 ==> out@[4 * (row * (width as int) + col) + ch] as int == m6_channel(
                chunk,
                p,
                ch,
            ))
        } by {
            let bxi = bx as int;
            let byi = by as int;
            let row4 = row / 4;
            let col4 = col / 4;
            let blki = row4 * bxi + col4;
            assert(4 * row4 <= row && 4 * col4 <= col);
            assert(row4 <= byi - 1);
            assert(col4 <= bxi - 1);
            assert(blki < bxi * byi && row4 * bxi >= 0) by (nonlinear_arith)
                requires
                    blki == row4 * bxi + col4,
                    0 <= row4 <= byi - 1,
                    0 <= col4 <= bxi - 1,
                    bxi >= 1,
                    byi >= 1,
            ;
            vstd::arithmetic::mul::lemma_mul_inequality(blki + 1, bxi * byi, 16);
            assert((blki + 1) * 16 == 16 * blki + 16) by (nonlinear_arith);
            assert((bxi * byi) * 16 == (total as int) * 16) by (nonlinear_arith)
                requires
                    bxi * byi == total as int,
            ;
        }
    }
    Ok(out)
}

} // verus!

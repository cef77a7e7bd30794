//! Shared types for the block-compressed texture decoders: an RGBA8 pixel,
//! the decoded-image buffer, the format tags and the decoder errors.

use vstd::prelude::*;

verus! {

/// One RGBA8 pixel.
#[derive(Debug, Copy, Clone)]
pub struct Color4 {
    /// Red, green, blue and alpha, in that order.
    pub components: [u8; 4],
}

impl Default for Color4 {
    /// The transparent black pixel.
    fn default() -> (r: Color4)
        ensures
            r.components@ == seq![0u8, 0u8, 0u8, 0u8],
    {
        let c = Color4 { components: [0, 0, 0, 0] };
        proof {
            assert(c.components@ =~= seq![0u8, 0u8, 0u8, 0u8]);
        }
        c
    }
}

impl Color4 {
    /// The transparent black pixel.
    pub fn transparent() -> (r: Color4)
        ensures
            r.components@ == seq![0u8, 0u8, 0u8, 0u8],
    {
        let c = Color4 { components: [0, 0, 0, 0] };
        proof {
            assert(c.components@ =~= seq![0u8, 0u8, 0u8, 0u8]);
        }
        c
    }

    /// The same color with the alpha channel replaced.
    pub fn with_alpha(&self, alpha: u8) -> (r: Color4)
        ensures
            r.components@ == seq![
                self.components@[0],
                self.components@[1],
                self.components@[2],
                alpha,
            ],
    {
        let c = Color4 {
            components: [self.components[0], self.components[1], self.components[2], alpha],
        };
        proof {
            assert(c.components@ =~= seq![
                self.components@[0],
                self.components@[1],
                self.components@[2],
                alpha,
            ]);
        }
        c
    }
}

/// A decoded image: a row-major pixel buffer and the row width.
pub struct DecodedImage {
    /// The row width.
    pub width: usize,
    /// The pixels, row-major.
    pub data: Vec<Color4>,
}

impl DecodedImage {
    /// The pixel buffer divides evenly into rows.
    pub open spec fn wf(&self) -> bool {
        &&& self.spec_width() >= 1
        &&& (self.data@.len() as int) % self.spec_width() == 0
    }

    /// The row width.
    pub open spec fn spec_width(&self) -> int {
        self.width as int
    }

    /// Wraps a pixel buffer whose length is a multiple of the width.
    pub fn new(width: usize, data: Vec<Color4>) -> (r: DecodedImage)
        requires
            width >= 1,
            (data@.len() as int) % (width as int) == 0,
        ensures
            r.wf(),
            r.spec_width() == width,
            r.data@ == data@,
    {
        DecodedImage { width, data }
    }

    /// The row width.
    pub fn width(&self) -> (r: usize)
        ensures
            r as int == self.spec_width(),
    {
        self.width
    }

    /// The number of rows.
    pub fn height(&self) -> (r: usize)
        requires
            self.wf(),
        ensures
            r as int == (self.data@.len() as int) / self.spec_width(),
    {
        self.data.len() / self.width
    }
}

/// The texture formats a DDS payload can declare.
#[derive(Debug, Copy, Clone, PartialEq, Eq, Structural)]
pub enum DdsFormat {
    /// Uncompressed RGBA8.
    RGBA8,
    /// BC1/DXT1: three-channel color with one-bit alpha.
    BC1,
    /// BC3/DXT5: three-channel color with an interpolated alpha sub-block.
    BC3,
    /// BC6H: three-channel high dynamic range color.
    BC6H,
    /// BC7: three-channel color, alpha channel optional.
    BC7,
}

/// The ways decoding a BC7 block can fail.
#[derive(Debug, Copy, Clone, PartialEq, Eq, Structural)]
pub enum Bc7Error {
    /// The first byte of the block held no set bit, so no mode is declared.
    InvalidBc7BlockMode(u8),
    /// The block declared a mode this decoder does not implement.
    UnimplementedBc7BlockMode(u8),
}

/// The ways decoding an image can fail.
#[derive(Debug, Copy, Clone, PartialEq, Eq, Structural)]
pub enum DdsDecodeError {
    /// A BC7 block was malformed or of an unimplemented mode.
    Bc7Error(Bc7Error),
    /// The declared format has no decoder here.
    UnsupportedFormat(DdsFormat),
}

/// How many bytes one block of the given format holds, for the formats
/// with a decoder here.
pub open spec fn spec_block_bytes(format: DdsFormat) -> int {
    match format {
        DdsFormat::BC1 => 8,
        _ => 16,
    }
}

/// Decodes a block-compressed image of the declared format into a
/// `width × height` RGBA8 buffer. BC1 and BC3 always decode; BC7 fails on a
/// block without a valid, implemented mode; the other formats have no
/// decoder here.
pub fn decode_image(format: DdsFormat, data: &[u8], width: usize, height: usize) -> (r: Result<
    Vec<u8>,
    DdsDecodeError,
>)
    requires
        width + 3 <= usize::MAX,
        height + 3 <= usize::MAX,
        4 * (width as int) * (height as int) <= usize::MAX,
        (format is BC1 || format is BC3 || format is BC7) ==> data@.len()
            == crate::dds_util::spec_blocks_across(width as int)
            * crate::dds_util::spec_blocks_across(height as int) * spec_block_bytes(format),
    ensures
        ({
            let w = width as int;
            let h = height as int;
            match format {
                DdsFormat::BC1 => r matches Ok(v) && v@.len() == 4 * w * h && forall|
                    row: int,
                    col: int,
                    ch: int,
                |
                    0 <= row < h && 0 <= col < w && 0 <= ch < 4 ==> #[trigger] v@[4 * (row * w
                        + col) + ch] as int == crate::bc1::bc1_image_byte(data@, w, row, col, ch),
                DdsFormat::BC3 => r matches Ok(v) && v@.len() == 4 * w * h && forall|
                    row: int,
                    col: int,
                    ch: int,
                |
                    0 <= row < h && 0 <= col < w && 0 <= ch < 4 ==> #[trigger] v@[4 * (row * w
                        + col) + ch] as int == crate::bc3::bc3_image_byte(data@, w, row, col, ch),
                DdsFormat::BC7 => match r {
                    Ok(v) => v@.len() == 4 * w * h && forall|row: int, col: int, ch: int|
                        0 <= row < h && 0 <= col < w && 0 <= ch < 4 ==> {
                            let chunk = crate::bc7::bc7_chunk_at(data@, w, row, col);
                            let m = crate::bc7_blocks::spec_bc7_mode(chunk[0]);
                            let p = (row % 4) * 4 + col % 4;
                            &&& ((m == 1 || m == 3 || m == 7) ==> #[trigger] v@[4 * (row * w + col)
                                + ch] as int == crate::bc7_blocks::m137_channel(chunk, m, p, ch))
                            &&& ((m == 4 || m == 5) ==> v@[4 * (row * w + col) + ch] as int
                                == crate::bc7_blocks::m45_channel(chunk, m, p, ch))
                            &&& (m == 6 ==> v@[4 * (row * w + col) + ch] as int
                                == crate::bc7_blocks::m6_channel(chunk, p, ch))
                        },
                    Err(e) => e matches DdsDecodeError::Bc7Error(inner) && exists|b: int|
                        0 <= b < crate::dds_util::spec_blocks_across(w)
                            * crate::dds_util::spec_blocks_across(h) && !crate::bc7::bc7_mode_ok(
                            #[trigger] data@.subrange(16 * b, 16 * b + 16),
                        ) && {
                            let m = crate::bc7_blocks::spec_bc7_mode(
                                data@.subrange(16 * b, 16 * b + 16)[0],
                            );
                            (m == 8 && inner == Bc7Error::InvalidBc7BlockMode(0)) || ((m == 0 || m
                                == 2) && inner == Bc7Error::UnimplementedBc7BlockMode(m as u8))
                        },
                },
                _ => r == Err::<Vec<u8>, DdsDecodeError>(DdsDecodeError::UnsupportedFormat(format)),
            }
        }),
{
    match format {
        DdsFormat::BC1 => Ok(crate::bc1::read_image(data, width, height)),
        DdsFormat::BC3 => Ok(crate::bc3::read_image(data, width, height)),
        DdsFormat::BC7 => match crate::bc7::read_image(data, width, height) {
            Ok(v) => Ok(v),
            Err(e) => Err(DdsDecodeError::Bc7Error(e)),
        },
        _ => Err(DdsDecodeError::UnsupportedFormat(format)),
    }
}

} // verus!

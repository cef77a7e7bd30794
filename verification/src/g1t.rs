//! The G1T texture container: a fixed header with an ASCII version and a
//! declared total size, per-texture global flags, an offset table, and
//! per-texture headers with nibble-packed fields and a 40-bit flags word.

use vstd::prelude::*;
use crate::bc7::bc7_chunk_at;
use crate::bc7_blocks::{m137_channel, m45_channel, m6_channel, spec_bc7_mode};
use crate::dds::Bc7Error;
use crate::dds_util::spec_blocks_across;
use crate::stream::{SeekFrom, Stream, StreamError, le32_at, read_exact};

verus! {

/// The ways reading a G1T container can fail.
#[derive(Debug, Clone, Copy, PartialEq, Eq, Structural)]
pub enum G1tReadError {
    /// The stream ended early or refused a seek.
    IoError(StreamError),
    /// The magic word named neither byte order of the format.
    InvalidHeaderMagic(u32),
    /// The magic word marked a byte-swapped file, which is recognized but
    /// not decoded here.
    UnsupportedBigEndian,
    /// The version field held something other than four ASCII digits.
    VersionParseError,
    /// The declared total size (first payload) differed from the stream
    /// length (second payload; a length beyond 32 bits is truncated in the
    /// payload, though the comparison itself is exact).
    InvalidTotalSize(u32, u32),
    /// The platform code names no known platform.
    UnknownPlatform(u32),
    /// The extra-size field was over `0xFFFF` or not a multiple of four.
    InvalidExtraSize(u32),
    /// The extended data block declared a length outside the three known
    /// layouts.
    InvalidExtendedDataSize(u32),
    /// A texture declared a mip count of zero.
    NoMipmaps,
    /// The texture's type code has no decoder here.
    UnsupportedTextureType(u8),
    /// The texture declares mip or z-mip levels beyond level 0.
    UnsupportedMipmapCount(u8),
    /// The texture declares more than one frame.
    UnsupportedFrameCount(u32),
    /// A BC7 block of the payload was malformed or of an unimplemented mode.
    DecodeError(Bc7Error),
}

/// The platforms a G1T container can declare.
#[derive(Debug, Copy, Clone, PartialEq, Eq, Structural)]
pub enum Platform {
    /// Sony PlayStation 2
    PlayStation2,
    /// Sony PlayStation 3
    PlayStation3,
    /// Microsoft XBOX 360
    Xbox360,
    /// Nintendo Wii
    Wii,
    /// Nintendo DS
    NintendoDs,
    /// Nintendo 3DS
    Nintendo3ds,
    /// Sony PlayStation Vita
    PlayStationVita,
    /// Android
    Android,
    /// Apple iOS
    Ios,
    /// Nintendo Wii U
    WiiU,
    /// Windows
    Windows,
    /// Sony PlayStation 4
    PlayStation4,
    /// Microsoft XBOX One
    XboxOne,
    /// Nintendo Switch
    Switch,
}

/// The platform each code names: `0x00` through `0x0C`, then `0x10`.
pub open spec fn spec_platform(code: int) -> Option<Platform> {
    if code == 0x00 {
        Some(Platform::PlayStation2)
    } else if code == 0x01 {
        Some(Platform::PlayStation3)
    } else if code == 0x02 {
        Some(Platform::Xbox360)
    } else if code == 0x03 {
        Some(Platform::Wii)
    } else if code == 0x04 {
        Some(Platform::NintendoDs)
    } else if code == 0x05 {
        Some(Platform::Nintendo3ds)
    } else if code == 0x06 {
        Some(Platform::PlayStationVita)
    } else if code == 0x07 {
        Some(Platform::Android)
    } else if code == 0x08 {
        Some(Platform::Ios)
    } else if code == 0x09 {
        Some(Platform::WiiU)
    } else if code == 0x0A {
        Some(Platform::Windows)
    } else if code == 0x0B {
        Some(Platform::PlayStation4)
    } else if code == 0x0C {
        Some(Platform::XboxOne)
    } else if code == 0x10 {
        Some(Platform::Switch)
    } else {
        None
    }
}

impl Platform {
    /// The platform the given code names, if any.
    pub fn from_repr(discriminant: usize) -> (r: Option<Platform>)
        ensures
            r == spec_platform(discriminant as int),
    {
        if discriminant == 0x00 {
            Some(Platform::PlayStation2)
        } else if discriminant == 0x01 {
            Some(Platform::PlayStation3)
        } else if discriminant == 0x02 {
            Some(Platform::Xbox360)
        } else if discriminant == 0x03 {
            Some(Platform::Wii)
        } else if discriminant == 0x04 {
            Some(Platform::NintendoDs)
        } else if discriminant == 0x05 {
            Some(Platform::Nintendo3ds)
        } else if discriminant == 0x06 {
            Some(Platform::PlayStationVita)
        } else if discriminant == 0x07 {
            Some(Platform::Android)
        } else if discriminant == 0x08 {
            Some(Platform::Ios)
        } else if discriminant == 0x09 {
            Some(Platform::WiiU)
        } else if discriminant == 0x0A {
            Some(Platform::Windows)
        } else if discriminant == 0x0B {
            Some(Platform::PlayStation4)
        } else if discriminant == 0x0C {
            Some(Platform::XboxOne)
        } else if discriminant == 0x10 {
            Some(Platform::Switch)
        } else {
            None
        }
    }
}

/// Reports the declared length of a stream by seeking to its end and back.
pub fn stream_len<S: Stream>(stream: &mut S) -> (r: Result<u64, StreamError>)
    requires
        old(stream).inv(),
    ensures
        final(stream).inv(),
        final(stream).contents() == old(stream).contents(),
        final(stream).size() == old(stream).size(),
        final(stream).seek_bound() == old(stream).seek_bound(),
        final(stream).pos() == old(stream).pos(),
        r matches Ok(len) && len as int == old(stream).size(),
{
    proof {
        stream.lemma_inv();
    }
    let old_pos = stream.position();
    let len = match stream.seek(SeekFrom::End(0)) {
        Ok(l) => l,
        Err(e) => {
            proof {
                assert(false);
            }
            return Err(e);
        },
    };
    if old_pos != len {
        match stream.seek(SeekFrom::Start(old_pos)) {
            Ok(_) => {},
            Err(e) => {
                proof {
                    assert(false);
                }
                return Err(e);
            },
        }
    }
    Ok(len)
}

/// The magic word of a little-endian file. Reading the four bytes `GT1G`
/// as a little-endian word gives this value, which spells `G1TG` read
/// big-endian.
pub const MAGIC_LITTLE_ENDIAN: u32 = 0x47315447;

/// The magic word of a byte-swapped (big-endian) file.
pub const MAGIC_BIG_ENDIAN: u32 = 0x47543147;

/// Whether a byte is an ASCII decimal digit.
pub open spec fn is_ascii_digit(b: u8) -> bool {
    0x30 <= b <= 0x39
}

/// The version the four ASCII digit bytes at 4..8 spell. The digits sit in
/// the file least significant first, so byte 7 carries the thousands.
pub open spec fn spec_g1t_version(s: Seq<u8>) -> int {
    (s[7] - 0x30) * 1000 + (s[6] - 0x30) * 100 + (s[5] - 0x30) * 10 + (s[4] - 0x30)
}

/// The fixed part of a G1T header.
#[derive(Debug, Copy, Clone, PartialEq, Eq, Structural)]
pub struct G1tHeader {
    /// The decimal version the ASCII version field spells.
    pub version: u16,
    /// Where the per-texture offset table begins.
    pub header_size: u32,
    /// How many textures the container holds.
    pub texture_count: u32,
    /// The declared platform.
    pub platform: Platform,
    /// The declared extra size, at most `0xFFFF` and a multiple of four.
    pub extra_size: u32,
}

/// The outcome of parsing the 28-byte header and the `texture_count`
/// global-flag words that follow it, from a stream of `size` bytes.
pub open spec fn spec_parse_g1t_header(s: Seq<u8>, size: int) -> Result<
    (G1tHeader, Seq<u32>),
    G1tReadError,
> {
    if s.len() < 28 {
        Err(G1tReadError::IoError(StreamError::ShortRead))
    } else {
        let magic = le32_at(s, 0);
        if magic == MAGIC_BIG_ENDIAN as int {
            Err(G1tReadError::UnsupportedBigEndian)
        } else if magic != MAGIC_LITTLE_ENDIAN as int {
            Err(G1tReadError::InvalidHeaderMagic(magic as u32))
        } else if !(is_ascii_digit(s[4]) && is_ascii_digit(s[5]) && is_ascii_digit(s[6])
            && is_ascii_digit(s[7])) {
            Err(G1tReadError::VersionParseError)
        } else if le32_at(s, 8) != size {
            Err(G1tReadError::InvalidTotalSize(le32_at(s, 8) as u32, size as u32))
        } else if spec_platform(le32_at(s, 20)) is None {
            Err(G1tReadError::UnknownPlatform(le32_at(s, 20) as u32))
        } else if le32_at(s, 24) > 0xFFFF || le32_at(s, 24) % 4 != 0 {
            Err(G1tReadError::InvalidExtraSize(le32_at(s, 24) as u32))
        } else if s.len() < 28 + 4 * le32_at(s, 16) {
            Err(G1tReadError::IoError(StreamError::ShortRead))
        } else {
            Ok(
                (
                    G1tHeader {
                        version: spec_g1t_version(s) as u16,
                        header_size: le32_at(s, 12) as u32,
                        texture_count: le32_at(s, 16) as u32,
                        platform: spec_platform(le32_at(s, 20))->Some_0,
                        extra_size: le32_at(s, 24) as u32,
                    },
                    Seq::new(le32_at(s, 16) as nat, |k: int| le32_at(s, 28 + 4 * k) as u32),
                ),
            )
        }
    }
}

/// The little-endian 32-bit word of `v` at byte `off`.
fn word_at(v: &Vec<u8>, off: usize) -> (r: u32)
    requires
        off + 4 <= v@.len(),
    ensures
        r as int == le32_at(v@, off as int),
{
    proof {
        vstd::std_specs::vec::axiom_spec_len(v);
    }
    let b0 = v[off] as u32;
    let b1 = v[off + 1] as u32;
    let b2 = v[off + 2] as u32;
    let b3 = v[off + 3] as u32;
    b0 + 0x100 * b1 + 0x1_0000 * b2 + 0x100_0000 * b3
}

impl G1tHeader {
    /// Reads and validates the header at the start of the stream, returning
    /// it together with the per-texture global-flag words.
    pub fn read<S: Stream>(reader: &mut S) -> (r: Result<(G1tHeader, Vec<u32>), G1tReadError>)
        requires
            old(reader).inv(),
            old(reader).pos() == 0,
        ensures
            final(reader).inv(),
            final(reader).contents() == old(reader).contents(),
            final(reader).size() == old(reader).size(),
            final(reader).seek_bound() == old(reader).seek_bound(),
            match r {
                Ok((h, gflags)) => spec_parse_g1t_header(old(reader).contents(), old(reader).size())
                    matches Ok(m) && m.0 == h && m.1 == gflags@ && final(reader).pos() == 28 + 4 * (
                h.texture_count as int),
                Err(e) => spec_parse_g1t_header(old(reader).contents(), old(reader).size()) == Err::<
                    (G1tHeader, Seq<u32>),
                    G1tReadError,
                >(e),
            },
    {
        proof {
            reader.lemma_inv();
        }
        let ghost c = old(reader).contents();
        let ghost sz = old(reader).size();
        let ghost bd = old(reader).seek_bound();
        let bytes = match read_exact(reader, 28) {
            Ok(v) => v,
            Err(e) => {
                return Err(G1tReadError::IoError(e));
            },
        };
        proof {
            assert(forall|i: int| 0 <= i < 28 ==> bytes@[i] == c[i]);
        }
        let magic = word_at(&bytes, 0);
        if magic == MAGIC_BIG_ENDIAN {
            return Err(G1tReadError::UnsupportedBigEndian);
        }
        if magic != MAGIC_LITTLE_ENDIAN {
            return Err(G1tReadError::InvalidHeaderMagic(magic));
        }
        let d0 = bytes[4];
        let d1 = bytes[5];
        let d2 = bytes[6];
        let d3 = bytes[7];
        if !(0x30 <= d0 && d0 <= 0x39 && 0x30 <= d1 && d1 <= 0x39 && 0x30 <= d2 && d2 <= 0x39
            && 0x30 <= d3 && d3 <= 0x39) {
            return Err(G1tReadError::VersionParseError);
        }
        let version_32: u32 = ((d3 - 0x30) as u32) * 1000 + ((d2 - 0x30) as u32) * 100 + ((d1
            - 0x30) as u32) * 10 + ((d0 - 0x30) as u32);
        let version = version_32 as u16;
        let total_size = word_at(&bytes, 8);
        let real_file_size = match stream_len(reader) {
            Ok(l) => l,
            Err(e) => {
                return Err(G1tReadError::IoError(e));
            },
        };
        if total_size as u64 != real_file_size {
            return Err(G1tReadError::InvalidTotalSize(total_size, #[verifier::truncate] (real_file_size as u32)));
        }
        let header_size = word_at(&bytes, 12);
        let texture_count = word_at(&bytes, 16);
        let platform_code = word_at(&bytes, 20);
        let platform = match Platform::from_repr(platform_code as usize) {
            Some(p) => p,
            None => {
                return Err(G1tReadError::UnknownPlatform(platform_code));
            },
        };
        let extra_size = word_at(&bytes, 24);
        if extra_size > 0xFFFF || extra_size % 4 != 0 {
            return Err(G1tReadError::InvalidExtraSize(extra_size));
        }
        let mut global_flags: Vec<u32> = Vec::new();
        let mut k: u32 = 0;
        while k < texture_count
            invariant
                c == old(reader).contents(),
                sz == old(reader).size(),
                bd == old(reader).seek_bound(),
                reader.inv(),
                reader.contents() == c,
                reader.size() == sz,
                reader.seek_bound() == bd,
                c.len() >= 28 + 4 * (k as int),
                le32_at(c, 0) == MAGIC_LITTLE_ENDIAN as int,
                is_ascii_digit(c[4]) && is_ascii_digit(c[5]) && is_ascii_digit(c[6])
                    && is_ascii_digit(c[7]),
                le32_at(c, 8) == sz,
                spec_platform(le32_at(c, 20)) is Some,
                le32_at(c, 24) <= 0xFFFF && le32_at(c, 24) % 4 == 0,
                texture_count as int == le32_at(c, 16),
                k <= texture_count,
                reader.pos() == 28 + 4 * (k as int),
                global_flags@.len() == k as int,
                forall|j: int|
                    0 <= j < k as int ==> global_flags@[j] as int == le32_at(c, 28 + 4 * j),
            decreases texture_count - k,
        {
            let word = match crate::stream::read_u32_le(reader) {
                Ok(w) => w,
                Err(e) => {
                    return Err(G1tReadError::IoError(e));
                },
            };
            global_flags.push(word);
            k = k + 1;
        }
        let header = G1tHeader { version, header_size, texture_count, platform, extra_size };
        proof {
            let m = spec_parse_g1t_header(c, sz);
            assert(m is Ok);
            assert(m->Ok_0.0 == header);
            assert(global_flags@ =~= m->Ok_0.1);
        }
        Ok((header, global_flags))
    }
}

/// The flag bit that announces an extended data block after the texture
/// header.
pub const TEXTURE_FLAG_EXTENDED_DATA: u64 = 0x10;

/// The flag bit whose effect on the derived height is recognized but not
/// handled.
pub const TEXTURE_FLAG_DOUBLE_HEIGHT: u64 = 0x01_00_00_00_00;

/// The 40-bit flags word: five bytes of `s` starting at `q`, big-endian.
pub open spec fn spec_flags40(s: Seq<u8>, q: int) -> u64 {
    ((s[q] as u64) << 32) | ((s[q + 1] as u64) << 24) | ((s[q + 2] as u64) << 16) | ((s[q
        + 3] as u64) << 8) | (s[q + 4] as u64)
}

/// One texture's fixed header: packed mip counts, a type code, packed
/// log-2 dimensions, and the 40-bit flags word.
#[derive(Debug, Copy, Clone)]
pub struct G1tTextureHeader {
    /// The z-mip count, from the low nibble of byte 0.
    pub z_mipmaps: u8,
    /// The mip count, from the high nibble of byte 0; at least 1.
    pub mipmaps: u8,
    /// The texture type code.
    pub texture_type: u8,
    /// log2 of the width, from the low nibble of byte 2.
    pub dx: u8,
    /// log2 of the height, from the high nibble of byte 2.
    pub dy: u8,
    /// The 40-bit flags word, assembled big-endian.
    pub flags: u64,
}

/// The outcome of parsing one 8-byte texture header at offset `p` of `s`.
pub open spec fn spec_parse_texture_header(s: Seq<u8>, p: int) -> Result<
    G1tTextureHeader,
    G1tReadError,
> {
    if s.len() < p + 8 {
        Err(G1tReadError::IoError(StreamError::ShortRead))
    } else if s[p] >> 4 == 0 {
        Err(G1tReadError::NoMipmaps)
    } else {
        Ok(
            G1tTextureHeader {
                z_mipmaps: s[p] & 0x0F,
                mipmaps: s[p] >> 4,
                texture_type: s[p + 1],
                dx: s[p + 2] & 0x0F,
                dy: s[p + 2] >> 4,
                flags: spec_flags40(s, p + 3),
            },
        )
    }
}

impl G1tTextureHeader {
    /// Every field a parsed header can hold: the nibbles fit four bits and
    /// the flags word fits forty.
    pub open spec fn wf(&self) -> bool {
        &&& self.z_mipmaps < 16
        &&& 1 <= self.mipmaps < 16
        &&& self.dx < 16
        &&& self.dy < 16
    }

    /// Reads and validates one texture header at the current position.
    pub fn read<S: Stream>(reader: &mut S) -> (r: Result<G1tTextureHeader, G1tReadError>)
        requires
            old(reader).inv(),
        ensures
            final(reader).inv(),
            final(reader).contents() == old(reader).contents(),
            final(reader).size() == old(reader).size(),
            final(reader).seek_bound() == old(reader).seek_bound(),
            match r {
                Ok(h) => spec_parse_texture_header(old(reader).contents(), old(reader).pos())
                    == Ok::<G1tTextureHeader, G1tReadError>(h) && h.wf() && final(reader).pos()
                    == old(reader).pos() + 8,
                Err(e) => spec_parse_texture_header(old(reader).contents(), old(reader).pos())
                    == Err::<G1tTextureHeader, G1tReadError>(e),
            },
    {
        proof {
            reader.lemma_inv();
        }
        let bytes = match read_exact(reader, 8) {
            Ok(v) => v,
            Err(e) => {
                return Err(G1tReadError::IoError(e));
            },
        };
        let packed_mipmaps = bytes[0];
        let texture_type = bytes[1];
        let packed_dimensions = bytes[2];
        let flags: u64 = ((bytes[3] as u64) << 32) | ((bytes[4] as u64) << 24) | ((bytes[5] as u64)
            << 16) | ((bytes[6] as u64) << 8) | (bytes[7] as u64);
        let mipmaps = packed_mipmaps >> 4;
        if mipmaps == 0 {
            return Err(G1tReadError::NoMipmaps);
        }
        let h = G1tTextureHeader {
            z_mipmaps: packed_mipmaps & 0x0F,
            mipmaps,
            texture_type,
            dx: packed_dimensions & 0x0F,
            dy: packed_dimensions >> 4,
            flags,
        };
        proof {
            let b0 = packed_mipmaps;
            let b2 = packed_dimensions;
            assert((b0 & 0x0F) < 16 && (b0 >> 4) < 16 && (b2 & 0x0F) < 16 && (b2 >> 4) < 16)
                by (bit_vector);
        }
        Ok(h)
    }

    /// The width the packed dimensions derive: two to the `dx`.
    pub fn width(&self) -> (r: u32)
        requires
            self.dx < 32,
        ensures
            r == 1u32 << self.dx,
    {
        1u32 << self.dx
    }

    /// The height the packed dimensions derive: two to the `dy`. The
    /// `DOUBLE_HEIGHT` flag is recognized but deliberately not applied.
    pub fn height(&self) -> (r: u32)
        requires
            self.dy < 32,
        ensures
            r == 1u32 << self.dy,
    {
        1u32 << self.dy
    }
}

/// One texture's logical view after parsing: its raw header, its
/// global-flag word, the effective dimensions and frame count after any
/// extended-data overrides, and where its encoded payload begins.
#[derive(Debug, Copy, Clone)]
pub struct TextureRecord {
    /// The raw texture header.
    pub header: G1tTextureHeader,
    /// The texture's word from the global-flags table.
    pub global_flag: u32,
    /// The effective width, after any extended-data override.
    pub width: u32,
    /// The effective height, after any extended-data override.
    pub height: u32,
    /// The frame count, defaulting to 1.
    pub frames: u32,
    /// The absolute position of the encoded payload in the stream.
    pub absolute_data_offset: u64,
}

/// The outcome of parsing one texture whose header sits at `hs + off`:
/// the fixed header, then, when its flags announce one, an extended block
/// whose declared length picks which overrides follow. Seeks succeed only
/// up to `bound`.
pub open spec fn spec_parse_texture(
    s: Seq<u8>,
    bound: int,
    hs: int,
    off: int,
    gflag: u32,
) -> Result<TextureRecord, G1tReadError> {
    let q = hs + off;
    if q > bound {
        Err(G1tReadError::IoError(StreamError::OutOfBounds))
    } else {
        match spec_parse_texture_header(s, q) {
            Err(e) => Err(e),
            Ok(th) => if th.flags & TEXTURE_FLAG_EXTENDED_DATA == 0 {
                Ok(
                    TextureRecord {
                        header: th,
                        global_flag: gflag,
                        width: (1u32 << th.dx),
                        height: (1u32 << th.dy),
                        frames: 1,
                        absolute_data_offset: (q + 8) as u64,
                    },
                )
            } else {
                if s.len() < q + 12 {
                    Err(G1tReadError::IoError(StreamError::ShortRead))
                } else {
                    let el = le32_at(s, q + 8);
                    if !(el == 0x0C || el == 0x10 || el == 0x14) {
                        Err(G1tReadError::InvalidExtendedDataSize(el as u32))
                    } else if s.len() < q + 8 + el {
                        Err(G1tReadError::IoError(StreamError::ShortRead))
                    } else {
                        let f2 = le32_at(s, q + 16) as u32;
                        let fr = ((f2 >> 28) & 0xF) as int + ((f2 >> 12) & 0xF0) as int;
                        Ok(
                            TextureRecord {
                                header: th,
                                global_flag: gflag,
                                width: if el >= 0x10 {
                                    le32_at(s, q + 20) as u32
                                } else {
                                    (1u32 << th.dx)
                                },
                                height: if el >= 0x14 {
                                    le32_at(s, q + 24) as u32
                                } else {
                                    (1u32 << th.dy)
                                },
                                frames: if fr == 0 {
                                    1
                                } else {
                                    fr as u32
                                },
                                absolute_data_offset: (q + 8 + el) as u64,
                            },
                        )
                    }
                }
            },
        }
    }
}

/// The outcome of parsing textures `k` through `texture_count - 1`, each
/// at the offset its table entry at `hs + 4·k` names, paired with its
/// global-flag word.
pub open spec fn spec_parse_textures(
    s: Seq<u8>,
    bound: int,
    hs: int,
    k: int,
    tc: int,
) -> Result<Seq<TextureRecord>, G1tReadError>
    decreases tc - k,
{
    if k >= tc {
        Ok(Seq::empty())
    } else {
        match spec_parse_texture(s, bound, hs, le32_at(s, hs + 4 * k), le32_at(s, 28 + 4 * k)
            as u32) {
            Err(e) => Err(e),
            Ok(t) => match spec_parse_textures(s, bound, hs, k + 1, tc) {
                Err(e) => Err(e),
                Ok(rest) => Ok(seq![t] + rest),
            },
        }
    }
}

/// The outcome of reading a whole container from a stream of `size` bytes
/// whose seeks reach up to `bound`: the validated header, then the offset
/// table at `header_size`, then every texture.
pub open spec fn spec_read_g1t(s: Seq<u8>, size: int, bound: int) -> Result<
    (G1tHeader, Seq<TextureRecord>),
    G1tReadError,
> {
    match spec_parse_g1t_header(s, size) {
        Err(e) => Err(e),
        Ok((h, gflags)) => {
            let hs = h.header_size as int;
            let tc = h.texture_count as int;
            if hs > bound {
                Err(G1tReadError::IoError(StreamError::OutOfBounds))
            } else if 0 < tc && s.len() < hs + 4 * tc {
                Err(G1tReadError::IoError(StreamError::ShortRead))
            } else {
                match spec_parse_textures(s, bound, hs, 0, tc) {
                    Err(e) => Err(e),
                    Ok(ts) => Ok((h, ts)),
                }
            }
        },
    }
}

/// Textures parsed one at a time, each succeeding, amount to a parse of
/// them all.
proof fn lemma_parse_textures_ok(
    s: Seq<u8>,
    bound: int,
    hs: int,
    k: int,
    tc: int,
    ms: Seq<TextureRecord>,
)
    requires
        0 <= k <= tc,
        ms.len() == tc - k,
        forall|j: int|
            0 <= j < tc - k ==> #[trigger] spec_parse_texture(
                s,
                bound,
                hs,
                le32_at(s, hs + 4 * (k + j)),
                le32_at(s, 28 + 4 * (k + j)) as u32,
            ) == Ok::<TextureRecord, G1tReadError>(ms[j]),
    ensures
        spec_parse_textures(s, bound, hs, k, tc) == Ok::<Seq<TextureRecord>, G1tReadError>(ms),
    decreases tc - k,
{
    if k == tc {
        assert(ms =~= Seq::<TextureRecord>::empty());
    } else {
        assert(spec_parse_texture(s, bound, hs, le32_at(s, hs + 4 * (k + 0)), le32_at(
            s,
            28 + 4 * (k + 0),
        ) as u32) == Ok::<TextureRecord, G1tReadError>(ms[0]));
        let tail = ms.drop_first();
        assert forall|j: int| 0 <= j < tc - (k + 1) implies #[trigger] spec_parse_texture(
            s,
            bound,
            hs,
            le32_at(s, hs + 4 * ((k + 1) + j)),
            le32_at(s, 28 + 4 * ((k + 1) + j)) as u32,
        ) == Ok::<TextureRecord, G1tReadError>(tail[j]) by {
            assert(spec_parse_texture(s, bound, hs, le32_at(s, hs + 4 * (k + (j + 1))), le32_at(
                s,
                28 + 4 * (k + (j + 1)),
            ) as u32) == Ok::<TextureRecord, G1tReadError>(ms[j + 1]));
        }
        lemma_parse_textures_ok(s, bound, hs, k + 1, tc, tail);
        assert(ms =~= seq![ms[0]] + tail);
    }
}

/// If the first `j` textures parse and texture `j` fails, the whole
/// container fails with texture `j`'s error.
proof fn lemma_parse_textures_err(
    s: Seq<u8>,
    bound: int,
    hs: int,
    k: int,
    tc: int,
    j: int,
    e: G1tReadError,
)
    requires
        k <= j < tc,
        0 <= k,
        forall|i: int|
            k <= i < j ==> #[trigger] spec_parse_texture(
                s,
                bound,
                hs,
                le32_at(s, hs + 4 * i),
                le32_at(s, 28 + 4 * i) as u32,
            ) is Ok,
        spec_parse_texture(s, bound, hs, le32_at(s, hs + 4 * j), le32_at(s, 28 + 4 * j) as u32)
            == Err::<TextureRecord, G1tReadError>(e),
    ensures
        spec_parse_textures(s, bound, hs, k, tc) == Err::<Seq<TextureRecord>, G1tReadError>(e),
    decreases j - k,
{
    if k < j {
        lemma_parse_textures_err(s, bound, hs, k + 1, tc, j, e);
    }
}

/// Parses one texture whose header sits at `hs + off`, pairing it with its
/// global-flag word, and leaves the stream at the texture's payload.
fn read_texture_record<S: Stream>(reader: &mut S, hs: u32, off: u32, gflag: u32) -> (r: Result<
    TextureRecord,
    G1tReadError,
>)
    requires
        old(reader).inv(),
    ensures
        final(reader).inv(),
        final(reader).contents() == old(reader).contents(),
        final(reader).size() == old(reader).size(),
        final(reader).seek_bound() == old(reader).seek_bound(),
        match r {
            Ok(rec) => spec_parse_texture(
                old(reader).contents(),
                old(reader).seek_bound(),
                hs as int,
                off as int,
                gflag,
            ) == Ok::<TextureRecord, G1tReadError>(rec),
            Err(e) => spec_parse_texture(
                old(reader).contents(),
                old(reader).seek_bound(),
                hs as int,
                off as int,
                gflag,
            ) == Err::<TextureRecord, G1tReadError>(e),
        },
{
    let ghost c = old(reader).contents();
    let ghost bd = old(reader).seek_bound();
    let q: u64 = (hs as u64) + (off as u64);
    match reader.seek(SeekFrom::Start(q)) {
        Ok(_) => {},
        Err(e) => {
            return Err(G1tReadError::IoError(e));
        },
    }
    let th = match G1tTextureHeader::read(reader) {
        Ok(h) => h,
        Err(e) => {
            return Err(e);
        },
    };
    if th.flags & TEXTURE_FLAG_EXTENDED_DATA != 0 {
        let el = match crate::stream::read_u32_le(reader) {
            Ok(v) => v,
            Err(e) => {
                return Err(G1tReadError::IoError(e));
            },
        };
        if !(el == 0x0C || el == 0x10 || el == 0x14) {
            return Err(G1tReadError::InvalidExtendedDataSize(el));
        }
        let _depth = match crate::stream::read_u32_le(reader) {
            Ok(v) => v,
            Err(e) => {
                return Err(G1tReadError::IoError(e));
            },
        };
        let texture_flags_2 = match crate::stream::read_u32_le(reader) {
            Ok(v) => v,
            Err(e) => {
                return Err(G1tReadError::IoError(e));
            },
        };
        proof {
            let f2 = texture_flags_2;
            assert((f2 >> 28) & 0xF < 16 && (f2 >> 12) & 0xF0 <= 240) by (bit_vector);
        }
        let frames_from_flags = ((texture_flags_2 >> 28) & 0xF) + ((texture_flags_2 >> 12) & 0xF0);
        let frames = if frames_from_flags == 0 {
            1
        } else {
            frames_from_flags
        };
        let width: u32 = if el >= 0x10 {
            match crate::stream::read_u32_le(reader) {
                Ok(v) => v,
                Err(e) => {
                    return Err(G1tReadError::IoError(e));
                },
            }
        } else {
            th.width()
        };
        let height: u32 = if el >= 0x14 {
            match crate::stream::read_u32_le(reader) {
                Ok(v) => v,
                Err(e) => {
                    return Err(G1tReadError::IoError(e));
                },
            }
        } else {
            th.height()
        };
        let data_offset = reader.position();
        Ok(
            TextureRecord {
                header: th,
                global_flag: gflag,
                width,
                height,
                frames,
                absolute_data_offset: data_offset,
            },
        )
    } else {
        let data_offset = reader.position();
        Ok(
            TextureRecord {
                header: th,
                global_flag: gflag,
                width: th.width(),
                height: th.height(),
                frames: 1,
                absolute_data_offset: data_offset,
            },
        )
    }
}

/// Reads a whole container from a stream positioned at its start: the
/// validated header and global flags, the offset table at `header_size`,
/// and one record per texture with any extended-data overrides applied.
pub fn read_g1t<S: Stream>(reader: &mut S) -> (r: Result<
    (G1tHeader, Vec<TextureRecord>),
    G1tReadError,
>)
    requires
        old(reader).inv(),
        old(reader).pos() == 0,
    ensures
        final(reader).inv(),
        final(reader).contents() == old(reader).contents(),
        final(reader).size() == old(reader).size(),
        final(reader).seek_bound() == old(reader).seek_bound(),
        match r {
            Ok((h, ts)) => spec_read_g1t(
                old(reader).contents(),
                old(reader).size(),
                old(reader).seek_bound(),
            ) matches Ok(m) && m.0 == h && m.1 == ts@,
            Err(e) => spec_read_g1t(
                old(reader).contents(),
                old(reader).size(),
                old(reader).seek_bound(),
            ) == Err::<(G1tHeader, Seq<TextureRecord>), G1tReadError>(e),
        },
{
    let ghost c = old(reader).contents();
    let ghost sz = old(reader).size();
    let ghost bd = old(reader).seek_bound();
    let (header, global_flags) = match G1tHeader::read(reader) {
        Ok(hg) => hg,
        Err(e) => {
            return Err(e);
        },
    };
    let hs = header.header_size;
    let tc = header.texture_count;
    match reader.seek(SeekFrom::Start(hs as u64)) {
        Ok(_) => {},
        Err(e) => {
            return Err(G1tReadError::IoError(e));
        },
    }
    let mut offsets: Vec<u32> = Vec::new();
    let mut k: u32 = 0;
    while k < tc
        invariant
            c == old(reader).contents(),
            sz == old(reader).size(),
            bd == old(reader).seek_bound(),
            reader.inv(),
            reader.contents() == c,
            reader.size() == sz,
            reader.seek_bound() == bd,
            spec_parse_g1t_header(c, sz) matches Ok(m) && m.0 == header,
            hs == header.header_size,
            tc == header.texture_count,
            hs as int <= bd,
            k <= tc,
            k > 0 ==> c.len() >= hs + 4 * (k as int),
            reader.pos() == hs + 4 * (k as int),
            offsets@.len() == k as int,
            forall|j: int| 0 <= j < k as int ==> offsets@[j] as int == le32_at(c, hs + 4 * j),
        decreases tc - k,
    {
        let word = match crate::stream::read_u32_le(reader) {
            Ok(w) => w,
            Err(e) => {
                return Err(G1tReadError::IoError(e));
            },
        };
        offsets.push(word);
        k = k + 1;
    }
    proof {
        assert(!(0 < tc && c.len() < hs + 4 * (tc as int)));
    }
    let mut records: Vec<TextureRecord> = Vec::new();
    let mut t: u32 = 0;
    while t < tc
        invariant
            c == old(reader).contents(),
            sz == old(reader).size(),
            bd == old(reader).seek_bound(),
            reader.inv(),
            reader.contents() == c,
            reader.size() == sz,
            reader.seek_bound() == bd,
            spec_parse_g1t_header(c, sz) matches Ok(m) && m.0 == header && forall|j: int|
                0 <= j < m.1.len() ==> m.1[j] as int == le32_at(c, 28 + 4 * j),
            hs == header.header_size,
            tc == header.texture_count,
            hs as int <= bd,
            !(0 < tc && c.len() < hs + 4 * (tc as int)),
            offsets@.len() == tc as int,
            forall|j: int| 0 <= j < tc as int ==> offsets@[j] as int == le32_at(c, hs + 4 * j),
            global_flags@.len() == tc as int,
            forall|j: int|
                0 <= j < tc as int ==> global_flags@[j] as int == le32_at(c, 28 + 4 * j),
            t <= tc,
            records@.len() == t as int,
            forall|j: int|
                0 <= j < t as int ==> spec_parse_texture(
                    c,
                    bd,
                    hs as int,
                    le32_at(c, hs + 4 * j),
                    le32_at(c, 28 + 4 * j) as u32,
                ) == Ok::<TextureRecord, G1tReadError>(#[trigger] records@[j]),
        decreases tc - t,
    {
        let off = offsets[t as usize];
        let gflag = global_flags[t as usize];
        let record = match read_texture_record(reader, hs, off, gflag) {
            Ok(rec) => rec,
            Err(e) => {
                proof {
                    assert forall|i: int| 0 <= i < t as int implies #[trigger] spec_parse_texture(
                        c,
                        bd,
                        hs as int,
                        le32_at(c, hs + 4 * i),
                        le32_at(c, 28 + 4 * i) as u32,
                    ) is Ok by {
                        assert(spec_parse_texture(
                            c,
                            bd,
                            hs as int,
                            le32_at(c, hs + 4 * i),
                            le32_at(c, 28 + 4 * i) as u32,
                        ) == Ok::<TextureRecord, G1tReadError>(records@[i]));
                    }
                    lemma_parse_textures_err(c, bd, hs as int, 0, tc as int, t as int, e);
                }
                return Err(e);
            },
        };
        records.push(record);
        t = t + 1;
    }
    proof {
        lemma_parse_textures_ok(c, bd, hs as int, 0, tc as int, records@);
    }
    Ok((header, records))
}

/// The number of bytes one block of the texture's format holds.
pub open spec fn spec_tex_block_bytes(t: u8) -> int {
    if t == 0x59 {
        8
    } else {
        16
    }
}

/// The encoded payload size of a texture: whole 4×4 blocks covering its
/// effective dimensions.
pub open spec fn spec_tex_encoded_size(tex: TextureRecord) -> int {
    spec_blocks_across(tex.width as int) * spec_blocks_across(tex.height as int)
        * spec_tex_block_bytes(tex.header.texture_type)
}

/// The reason reading a texture's image fails before its payload decodes,
/// if any: an unsupported type, mip, or frame declaration, then a payload
/// window the stream cannot serve.
pub open spec fn spec_read_image_err(s: Seq<u8>, bound: int, tex: TextureRecord) -> Option<
    G1tReadError,
> {
    let t = tex.header.texture_type;
    if !(t == 0x59 || t == 0x5B || t == 0x5F) {
        Some(G1tReadError::UnsupportedTextureType(t))
    } else if tex.header.mipmaps > 1 {
        Some(G1tReadError::UnsupportedMipmapCount(tex.header.mipmaps))
    } else if tex.header.z_mipmaps > 1 {
        Some(G1tReadError::UnsupportedMipmapCount(tex.header.z_mipmaps))
    } else if tex.frames > 1 {
        Some(G1tReadError::UnsupportedFrameCount(tex.frames))
    } else if tex.absolute_data_offset > bound {
        Some(G1tReadError::IoError(StreamError::OutOfBounds))
    } else if s.len() < tex.absolute_data_offset + spec_tex_encoded_size(tex) {
        Some(G1tReadError::IoError(StreamError::ShortRead))
    } else {
        None
    }
}

/// Reads and decodes one texture's payload into a `width × height` RGBA8
/// buffer: the stream is seeked to the texture's absolute offset, exactly
/// one block per 4×4 tile is read, and the blocks are decoded by the
/// texture's type and trimmed to the effective dimensions.
pub fn read_g1t_image<S: Stream>(reader: &mut S, tex: &TextureRecord) -> (r: Result<
    Vec<u8>,
    G1tReadError,
>)
    requires
        old(reader).inv(),
        tex.width + 3 <= usize::MAX,
        tex.height + 3 <= usize::MAX,
        4 * (tex.width as int) * (tex.height as int) <= usize::MAX,
    ensures
        final(reader).inv(),
        final(reader).contents() == old(reader).contents(),
        final(reader).size() == old(reader).size(),
        final(reader).seek_bound() == old(reader).seek_bound(),
        ({
            let s = old(reader).contents();
            let bd = old(reader).seek_bound();
            let t = tex.header.texture_type;
            let w = tex.width as int;
            let h = tex.height as int;
            let off = tex.absolute_data_offset as int;
            let enc = spec_tex_encoded_size(*tex);
            let payload = s.subrange(off, off + enc);
            match r {
                Ok(v) => spec_read_image_err(s, bd, *tex) is None && v@.len() == 4 * w * h && (t
                    == 0x59 ==> forall|row: int, col: int, ch: int|
                    0 <= row < h && 0 <= col < w && 0 <= ch < 4 ==> #[trigger] v@[4 * (row * w
                        + col) + ch] as int == crate::bc1::bc1_image_byte(payload, w, row, col, ch))
                    && (t == 0x5B ==> forall|row: int, col: int, ch: int|
                    0 <= row < h && 0 <= col < w && 0 <= ch < 4 ==> #[trigger] v@[4 * (row * w
                        + col) + ch] as int == crate::bc3::bc3_image_byte(payload, w, row, col, ch))
                    && (t == 0x5F ==> (forall|b: int|
                    0 <= b < spec_blocks_across(w) * spec_blocks_across(h)
                        ==> crate::bc7::bc7_mode_ok(#[trigger] payload.subrange(16 * b, 16 * b + 16)))
                    && (forall|row: int, col: int, ch: int|
                    0 <= row < h && 0 <= col < w && 0 <= ch < 4 ==> {
                        let chunk = bc7_chunk_at(payload, w, row, col);
                        let m = spec_bc7_mode(chunk[0]);
                        let p = (row % 4) * 4 + col % 4;
                        &&& ((m == 1 || m == 3 || m == 7) ==> #[trigger] v@[4 * (row * w + col)
                            + ch] as int == m137_channel(chunk, m, p, ch))
                        &&& ((m == 4 || m == 5) ==> v@[4 * (row * w + col) + ch] as int
                            == m45_channel(chunk, m, p, ch))
                        &&& (m == 6 ==> v@[4 * (row * w + col) + ch] as int == m6_channel(
                            chunk,
                            p,
                            ch,
                        ))
                    })),
                Err(e) => spec_read_image_err(s, bd, *tex) == Some(e) || (spec_read_image_err(
                    s,
                    bd,
                    *tex,
                ) is None && t == 0x5F && (e matches G1tReadError::DecodeError(inner) && exists|
                    b: int,
                |
                    0 <= b < spec_blocks_across(w) * spec_blocks_across(h)
                        && !crate::bc7::bc7_mode_ok(#[trigger] payload.subrange(16 * b, 16 * b + 16))
                        && {
                        let m = spec_bc7_mode(payload.subrange(16 * b, 16 * b + 16)[0]);
                        (m == 8 && inner == Bc7Error::InvalidBc7BlockMode(0)) || ((m == 0 || m == 2)
                            && inner == Bc7Error::UnimplementedBc7BlockMode(m as u8))
                    })),
            }
        }),
{
    proof {
        reader.lemma_inv();
    }
    let ghost c = old(reader).contents();
    let ttype = tex.header.texture_type;
    if !(ttype == 0x59 || ttype == 0x5B || ttype == 0x5F) {
        return Err(G1tReadError::UnsupportedTextureType(ttype));
    }
    if tex.header.mipmaps > 1 {
        return Err(G1tReadError::UnsupportedMipmapCount(tex.header.mipmaps));
    }
    if tex.header.z_mipmaps > 1 {
        return Err(G1tReadError::UnsupportedMipmapCount(tex.header.z_mipmaps));
    }
    if tex.frames > 1 {
        return Err(G1tReadError::UnsupportedFrameCount(tex.frames));
    }
    let block_bytes: usize = if ttype == 0x59 {
        8
    } else {
        16
    };
    let w = tex.width as usize;
    let h = tex.height as usize;
    let bx = crate::dds_util::blocks_across(w);
    let by = crate::dds_util::blocks_across(h);
    proof {
        assert(bx as int <= 0x4000_0000);
        assert(by as int <= 0x4000_0000);
        assert((bx as int) * (by as int) <= 0x1000_0000_0000_0000) by (nonlinear_arith)
            requires
                0 <= bx as int <= 0x4000_0000 && 0 <= by as int <= 0x4000_0000,
        ;
    }
    let bxby: u128 = (bx as u128) * (by as u128);
    proof {
        assert((bxby as int) * (block_bytes as int) <= (bxby as int) * 16) by (nonlinear_arith)
            requires
                0 <= bxby as int && block_bytes as int <= 16,
        ;
    }
    let enc128: u128 = bxby * (block_bytes as u128);
    proof {
        assert(enc128 as int == spec_tex_encoded_size(*tex)) by (nonlinear_arith)
            requires
                enc128 as int == ((bx as int) * (by as int)) * (block_bytes as int),
                bx as int == spec_blocks_across(tex.width as int),
                by as int == spec_blocks_across(tex.height as int),
                block_bytes as int == spec_tex_block_bytes(tex.header.texture_type),
        ;
    }
    match reader.seek(SeekFrom::Start(tex.absolute_data_offset)) {
        Ok(_) => {},
        Err(e) => {
            return Err(G1tReadError::IoError(e));
        },
    }
    if enc128 > usize::MAX as u128 {
        proof {
            reader.lemma_inv();
        }
        return Err(G1tReadError::IoError(StreamError::ShortRead));
    }
    let enc = enc128 as usize;
    proof {
        assert(enc128 <= usize::MAX as u128);
        assert(enc as int == enc128 as int);
        assert(enc as int == spec_tex_encoded_size(*tex));
    }
    let data = match read_exact(reader, enc) {
        Ok(v) => v,
        Err(e) => {
            return Err(G1tReadError::IoError(e));
        },
    };
    let ghost off = tex.absolute_data_offset as int;
    proof {
        assert(data@.len() == spec_tex_encoded_size(*tex));
        assert(spec_tex_encoded_size(*tex) > 0) by (nonlinear_arith)
            requires
                spec_blocks_across(tex.width as int) >= 1,
                spec_blocks_across(tex.height as int) >= 1,
                spec_tex_block_bytes(tex.header.texture_type) >= 8,
        ;
        assert(off + spec_tex_encoded_size(*tex) <= c.len());
        assert(data@ =~= c.subrange(off, off + spec_tex_encoded_size(*tex)));
    }
    if ttype == 0x59 {
        Ok(crate::bc1::read_image(data.as_slice(), w, h))
    } else if ttype == 0x5B {
        Ok(crate::bc3::read_image(data.as_slice(), w, h))
    } else {
        match crate::bc7::read_image(data.as_slice(), w, h) {
            Ok(v) => Ok(v),
            Err(e) => Err(G1tReadError::DecodeError(e)),
        }
    }
}

} // verus!

//! Tests for the G1T header and texture-header parsers.

use gust_assets::g1t::{read_g1t, read_g1t_image, G1tHeader, G1tReadError, G1tTextureHeader, Platform, TextureRecord, stream_len};
use gust_assets::stream::{ByteCursor, Stream, StreamError};

/// A 28-byte header plus `flags.len()` global-flag words. The magic bytes
/// are `GT1G`; the version field spells its digits least significant first.
fn build_header(total_size: u32, header_size: u32, platform: u32, extra: u32, flags: &[u32]) -> Vec<u8> {
    let mut out = Vec::new();
    out.extend_from_slice(&[0x47, 0x54, 0x31, 0x47]);
    out.extend_from_slice(&[0x34, 0x36, 0x30, 0x30]); // version "0064"
    out.extend_from_slice(&total_size.to_le_bytes());
    out.extend_from_slice(&header_size.to_le_bytes());
    out.extend_from_slice(&(flags.len() as u32).to_le_bytes());
    out.extend_from_slice(&platform.to_le_bytes());
    out.extend_from_slice(&extra.to_le_bytes());
    for f in flags {
        out.extend_from_slice(&f.to_le_bytes());
    }
    out
}

#[test]
fn g1t_header_parses() {
    let bytes = build_header(28, 28, 0x0A, 0, &[]);
    let mut cursor = ByteCursor::new(bytes);
    let (header, flags) = G1tHeader::read(&mut cursor).unwrap();
    assert_eq!(header.version, 64);
    assert_eq!(header.header_size, 28);
    assert_eq!(header.texture_count, 0);
    assert_eq!(header.platform, Platform::Windows);
    assert_eq!(header.extra_size, 0);
    assert!(flags.is_empty());
}

#[test]
fn g1t_header_reads_global_flags() {
    let bytes = build_header(36, 36, 0x0A, 4, &[1, 3]);
    let mut cursor = ByteCursor::new(bytes);
    let (header, flags) = G1tHeader::read(&mut cursor).unwrap();
    assert_eq!(header.texture_count, 2);
    assert_eq!(flags, vec![1, 3]);
}

#[test]
fn g1t_rejects_wrong_total_size() {
    let bytes = build_header(999, 28, 0x0A, 0, &[]);
    let mut cursor = ByteCursor::new(bytes);
    let err = G1tHeader::read(&mut cursor).unwrap_err();
    assert_eq!(err, G1tReadError::InvalidTotalSize(999, 28));
}

#[test]
fn g1t_rejects_bad_magic() {
    let mut bytes = build_header(28, 28, 0x0A, 0, &[]);
    bytes[0] = 0x00;
    let mut cursor = ByteCursor::new(bytes);
    let err = G1tHeader::read(&mut cursor).unwrap_err();
    assert!(matches!(err, G1tReadError::InvalidHeaderMagic(_)));
}

#[test]
fn g1t_recognizes_big_endian_magic() {
    let mut bytes = build_header(28, 28, 0x0A, 0, &[]);
    bytes[0..4].copy_from_slice(&[0x47, 0x31, 0x54, 0x47]);
    let mut cursor = ByteCursor::new(bytes);
    let err = G1tHeader::read(&mut cursor).unwrap_err();
    assert_eq!(err, G1tReadError::UnsupportedBigEndian);
}

#[test]
fn g1t_rejects_bad_version_digit() {
    let mut bytes = build_header(28, 28, 0x0A, 0, &[]);
    bytes[4] = 0x41;
    let mut cursor = ByteCursor::new(bytes);
    let err = G1tHeader::read(&mut cursor).unwrap_err();
    assert_eq!(err, G1tReadError::VersionParseError);
}

#[test]
fn g1t_rejects_unknown_platform() {
    let bytes = build_header(28, 28, 0x0D, 0, &[]);
    let mut cursor = ByteCursor::new(bytes);
    let err = G1tHeader::read(&mut cursor).unwrap_err();
    assert_eq!(err, G1tReadError::UnknownPlatform(0x0D));
}

#[test]
fn g1t_rejects_bad_extra_size() {
    let bytes = build_header(28, 28, 0x0A, 3, &[]);
    let mut cursor = ByteCursor::new(bytes);
    let err = G1tHeader::read(&mut cursor).unwrap_err();
    assert_eq!(err, G1tReadError::InvalidExtraSize(3));
}

#[test]
fn g1t_rejects_short_stream() {
    let mut cursor = ByteCursor::new(vec![0u8; 10]);
    let err = G1tHeader::read(&mut cursor).unwrap_err();
    assert_eq!(err, G1tReadError::IoError(StreamError::ShortRead));
}

#[test]
fn g1t_texture_header_unpacks_fields() {
    // one mip, type 0x5F, 64x64, extended-data flag set in the last byte
    let bytes = vec![0x10, 0x5F, 0x66, 0x00, 0x00, 0x00, 0x00, 0x10];
    let mut cursor = ByteCursor::new(bytes);
    let header = G1tTextureHeader::read(&mut cursor).unwrap();
    assert_eq!(header.mipmaps, 1);
    assert_eq!(header.z_mipmaps, 0);
    assert_eq!(header.texture_type, 0x5F);
    assert_eq!(header.width(), 64);
    assert_eq!(header.height(), 64);
    assert_eq!(header.flags, gust_assets::g1t::TEXTURE_FLAG_EXTENDED_DATA);
}

#[test]
fn g1t_texture_header_rejects_zero_mipmaps() {
    let bytes = vec![0x00, 0x5F, 0x66, 0x00, 0x00, 0x00, 0x00, 0x00];
    let mut cursor = ByteCursor::new(bytes);
    let err = G1tTextureHeader::read(&mut cursor).unwrap_err();
    assert_eq!(err, G1tReadError::NoMipmaps);
}

#[test]
fn stream_len_preserves_position() {
    let mut cursor = ByteCursor::new(vec![1, 2, 3, 4, 5]);
    let len = stream_len(&mut cursor).unwrap();
    assert_eq!(len, 5);
    assert_eq!(cursor.position(), 0);
}

/// A mode-6 BC7 block whose endpoints all dequantize to (1, 1, 1, 255):
/// alpha endpoints 127 with both p-bits set.
fn opaque_mode6_block() -> [u8; 16] {
    let mut block = [0u8; 16];
    block[0] = 0x40;
    // alpha endpoints at bits 49..63, both 127; p-bits at 63 and 64
    for k in 0..14 {
        block[(49 + k) / 8] |= 1 << ((49 + k) % 8);
    }
    block[63 / 8] |= 1 << (63 % 8);
    block[64 / 8] |= 1 << (64 % 8);
    block
}

/// A container with one texture: `header_size = 32`, one offset-table word,
/// the 8-byte texture header, an optional extended block, and the payload.
fn build_container(texture_header: &[u8], extended: &[u8], payload: &[u8]) -> Vec<u8> {
    let body_len = 36 + texture_header.len() + extended.len() + payload.len();
    let mut out = build_header(body_len as u32, 32, 0x0A, 0, &[0]);
    out.extend_from_slice(&4u32.to_le_bytes()); // offset table: texture at 32 + 4
    out.extend_from_slice(texture_header);
    out.extend_from_slice(extended);
    out.extend_from_slice(payload);
    out
}

/// A 64×64 BC7 texture with no extended data decodes to a 16384-byte
/// buffer, all pixels opaque, when every block's endpoints agree.
#[test]
fn g1t_bc7_texture_decodes() {
    let mut payload = Vec::new();
    for _ in 0..256 {
        payload.extend_from_slice(&opaque_mode6_block());
    }
    let bytes = build_container(&[0x10, 0x5F, 0x66, 0, 0, 0, 0, 0], &[], &payload);
    let mut cursor = ByteCursor::new(bytes.clone());
    let (header, textures) = read_g1t(&mut cursor).unwrap();
    assert_eq!(header.texture_count, 1);
    assert_eq!(textures.len(), 1);
    let tex = &textures[0];
    assert_eq!(tex.width, 64);
    assert_eq!(tex.height, 64);
    assert_eq!(tex.frames, 1);
    assert_eq!(tex.absolute_data_offset, 44);

    let image = read_g1t_image(&mut cursor, tex).unwrap();
    assert_eq!(image.len(), 4 * 64 * 64);
    for px in image.chunks(4) {
        assert_eq!(px, [1, 1, 1, 255]);
    }
}

/// An extended block of length 0x14 overrides width and height; the
/// decoded buffer then has `4·100·60` bytes.
#[test]
fn g1t_extended_data_overrides_dimensions() {
    let mut ext = Vec::new();
    ext.extend_from_slice(&0x14u32.to_le_bytes());
    ext.extend_from_slice(&1u32.to_le_bytes()); // depth
    ext.extend_from_slice(&0u32.to_le_bytes()); // second flag word: one frame
    ext.extend_from_slice(&100u32.to_le_bytes());
    ext.extend_from_slice(&60u32.to_le_bytes());
    let mut payload = Vec::new();
    for _ in 0..(25 * 15) {
        payload.extend_from_slice(&opaque_mode6_block());
    }
    let bytes = build_container(&[0x10, 0x5F, 0x66, 0, 0, 0, 0, 0x10], &ext, &payload);
    let mut cursor = ByteCursor::new(bytes.clone());
    let (_, textures) = read_g1t(&mut cursor).unwrap();
    let tex = &textures[0];
    assert_eq!(tex.width, 100);
    assert_eq!(tex.height, 60);
    assert_eq!(tex.frames, 1);
    assert_eq!(tex.absolute_data_offset, 64);

    let image = read_g1t_image(&mut cursor, tex).unwrap();
    assert_eq!(image.len(), 24000);
}

/// An extended block of a length outside the three known layouts is
/// rejected.
#[test]
fn g1t_rejects_bad_extended_data_size() {
    let mut ext = Vec::new();
    ext.extend_from_slice(&0x08u32.to_le_bytes());
    let bytes = build_container(&[0x10, 0x5F, 0x66, 0, 0, 0, 0, 0x10], &ext, &[]);
    let mut cursor = ByteCursor::new(bytes);
    let err = read_g1t(&mut cursor).unwrap_err();
    assert_eq!(err, G1tReadError::InvalidExtendedDataSize(8));
}

/// The frame count comes from the second extended flag word and rejects
/// multi-frame textures at the read path.
#[test]
fn g1t_multi_frame_rejected() {
    let mut ext = Vec::new();
    ext.extend_from_slice(&0x0Cu32.to_le_bytes());
    ext.extend_from_slice(&1u32.to_le_bytes());
    ext.extend_from_slice(&0x2000_0000u32.to_le_bytes()); // frames = 2
    let bytes = build_container(&[0x10, 0x5F, 0x66, 0, 0, 0, 0, 0x10], &ext, &[]);
    let mut cursor = ByteCursor::new(bytes.clone());
    let (_, textures) = read_g1t(&mut cursor).unwrap();
    assert_eq!(textures[0].frames, 2);
    let err = read_g1t_image(&mut cursor, &textures[0]).unwrap_err();
    assert_eq!(err, G1tReadError::UnsupportedFrameCount(2));
}

/// The read path rejects type codes without a decoder, extra mip levels,
/// and short payloads.
#[test]
fn g1t_read_image_rejections() {
    let make = |texture_type: u8, mipmaps: u8| TextureRecord {
        header: G1tTextureHeader {
            z_mipmaps: 0,
            mipmaps,
            texture_type,
            dx: 2,
            dy: 2,
            flags: 0,
        },
        global_flag: 0,
        width: 4,
        height: 4,
        frames: 1,
        absolute_data_offset: 0,
    };
    let mut cursor = ByteCursor::new(vec![0u8; 8]);
    let err = read_g1t_image(&mut cursor, &make(0x42, 1)).unwrap_err();
    assert_eq!(err, G1tReadError::UnsupportedTextureType(0x42));

    let err = read_g1t_image(&mut cursor, &make(0x5F, 2)).unwrap_err();
    assert_eq!(err, G1tReadError::UnsupportedMipmapCount(2));

    // a 4x4 BC7 texture needs 16 payload bytes; only 8 are there
    let err = read_g1t_image(&mut cursor, &make(0x5F, 1)).unwrap_err();
    assert_eq!(err, G1tReadError::IoError(StreamError::ShortRead));

    // a 4x4 BC1 texture needs exactly those 8 bytes, which decode
    let image = read_g1t_image(&mut cursor, &make(0x59, 1)).unwrap();
    assert_eq!(image.len(), 64);
}

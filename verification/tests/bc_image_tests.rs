//! Tests for the BC1 and BC3 decoders, the color helpers and the image
//! dispatch.

use gust_assets::bc1;
use gust_assets::bc3;
use gust_assets::bc7;
use gust_assets::dds::{decode_image, DdsDecodeError, DdsFormat};
use gust_assets::dds_util::unpack_dxt_color_565;

/// A BC3 block with `alpha_0 = 255`, `alpha_1 = 0`, pixels 0..8 walking the
/// whole alpha ladder, and a solid-red color sub-block: a full 565 field
/// unpacks to 255 because the high bits refill the low bits.
#[test]
fn bc3_solid_red_with_alpha_ladder() {
    let mut block = [0u8; 16];
    block[0] = 255;
    block[1] = 0;
    let mut alpha_map: u64 = 0;
    for i in 0..8u64 {
        alpha_map |= i << (3 * i);
    }
    block[2..8].copy_from_slice(&alpha_map.to_le_bytes()[0..6]);
    // both color endpoints pure red (0xF800), all indices 0
    block[8..10].copy_from_slice(&0xF800u16.to_le_bytes());
    block[10..12].copy_from_slice(&0xF800u16.to_le_bytes());

    let tile = bc3::decode_block(&block);
    assert_eq!(tile.len(), 16);
    let ladder = [255u8, 0, 219, 182, 146, 109, 73, 36];
    for i in 0..16 {
        let expected_alpha = if i < 8 { ladder[i] } else { ladder[0] };
        assert_eq!(tile[i].components, [255, 0, 0, expected_alpha]);
    }
}

/// BC1's opaque branch interpolates at thirds; the transparent branch uses
/// the midpoint and transparent black.
#[test]
fn bc1_palette_branches() {
    // opaque branch: c0 = 0xF800 > c1 = 0, indices 0,1,2,3 for pixels 0..4
    let mut block = [0u8; 8];
    block[0..2].copy_from_slice(&0xF800u16.to_le_bytes());
    block[2..4].copy_from_slice(&0u16.to_le_bytes());
    block[4] = 0b11100100;
    let tile = bc1::decode_block(&block);
    assert_eq!(tile[0].components, [255, 0, 0, 255]);
    assert_eq!(tile[1].components, [0, 0, 0, 255]);
    assert_eq!(tile[2].components, [170, 0, 0, 255]);
    assert_eq!(tile[3].components, [85, 0, 0, 255]);

    // transparent branch: c0 == c1, index 3 is transparent black
    let mut block = [0u8; 8];
    block[0..2].copy_from_slice(&0xF800u16.to_le_bytes());
    block[2..4].copy_from_slice(&0xF800u16.to_le_bytes());
    block[4] = 0b00001100;
    let tile = bc1::decode_block(&block);
    assert_eq!(tile[0].components, [255, 0, 0, 255]);
    assert_eq!(tile[1].components, [0, 0, 0, 0]);
    assert_eq!(tile[2].components, [255, 0, 0, 255]);
}

#[test]
fn unpack_565_extremes() {
    assert_eq!(unpack_dxt_color_565(0xFFFF).components, [255, 255, 255, 255]);
    assert_eq!(unpack_dxt_color_565(0x0000).components, [0, 0, 0, 255]);
    // pure green: six bits set in the middle field
    assert_eq!(unpack_dxt_color_565(0x07E0).components, [0, 255, 0, 255]);
    // a lone low bit replicates into the low bits: 00001_000 | 000_00
    assert_eq!(unpack_dxt_color_565(0x0800).components, [8, 0, 0, 255]);
}

/// Trimming: a 6×5 BC3 image spans 2×2 blocks but keeps only
/// `4·6·5 = 120` bytes.
#[test]
fn bc3_image_trims_padding() {
    let data = vec![0u8; 4 * 16];
    let image = bc3::read_image(&data, 6, 5);
    assert_eq!(image.len(), 120);
    for b in &image {
        assert_eq!(*b, 0);
    }
}

/// A single all-gradient mode-6 block as a 4×4 BC7 image has
/// `4·4·4 = 64` bytes.
#[test]
fn bc7_image_single_block() {
    let mut data = vec![0u8; 16];
    data[0] = 0x40;
    let image = bc7::read_image(&data, 4, 4).unwrap();
    assert_eq!(image.len(), 64);
}

/// A BC7 image fails on the first block without a declared mode.
#[test]
fn bc7_image_reports_bad_block() {
    let data = vec![0u8; 16];
    let err = bc7::read_image(&data, 4, 4).unwrap_err();
    assert_eq!(
        err,
        gust_assets::dds::Bc7Error::InvalidBc7BlockMode(0)
    );
}

#[test]
fn decode_image_dispatches() {
    let bc1_data = vec![0u8; 8];
    let out = decode_image(DdsFormat::BC1, &bc1_data, 4, 4).unwrap();
    assert_eq!(out.len(), 64);

    let bc3_data = vec![0u8; 16];
    let out = decode_image(DdsFormat::BC3, &bc3_data, 4, 4).unwrap();
    assert_eq!(out.len(), 64);

    let err = decode_image(DdsFormat::RGBA8, &[], 4, 4).unwrap_err();
    assert_eq!(err, DdsDecodeError::UnsupportedFormat(DdsFormat::RGBA8));

    let err = decode_image(DdsFormat::BC6H, &[], 4, 4).unwrap_err();
    assert_eq!(err, DdsDecodeError::UnsupportedFormat(DdsFormat::BC6H));
}

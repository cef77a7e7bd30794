//! Tests for the BC7 block decoder.

use gust_assets::bc7_blocks::decode;
use gust_assets::dds::Bc7Error;

/// Writes `len` bits of `val` into the block at bit `off`, LSB-first.
fn set_bits(data: &mut [u8; 16], off: usize, len: usize, val: u64) {
    for k in 0..len {
        if (val >> k) & 1 == 1 {
            data[(off + k) / 8] |= 1 << ((off + k) % 8);
        }
    }
}

#[test]
fn bc7_zero_first_byte_is_invalid_mode() {
    let data = [0u8; 16];
    let err = decode(&data).unwrap_err();
    assert_eq!(err, Bc7Error::InvalidBc7BlockMode(0x00));
}

#[test]
fn bc7_mode_0_is_unimplemented() {
    let mut data = [0u8; 16];
    data[0] = 0x01;
    let err = decode(&data).unwrap_err();
    assert_eq!(err, Bc7Error::UnimplementedBc7BlockMode(0));
}

#[test]
fn bc7_mode_2_is_unimplemented() {
    let mut data = [0u8; 16];
    data[0] = 0x04;
    let err = decode(&data).unwrap_err();
    assert_eq!(err, Bc7Error::UnimplementedBc7BlockMode(2));
}

/// A mode-6 block interpolating from near-black to white: pixel 0 carries
/// weight index 0, pixel 15 weight index 15, pixel 8 weight index 8, whose
/// channel value is `((64 - w)·l + w·h + 32) >> 6` with `w = 34`.
///
/// The p-bits are shared per endpoint across all four components, so the
/// low endpoint cannot be exactly `(0, 0, 0, 255)`: with both p-bits set it
/// dequantizes to `(1, 1, 1, 255)`.
#[test]
fn bc7_mode6_gradient() {
    let mut data = [0u8; 16];
    // mode prefix: six zeroes then a one
    set_bits(&mut data, 6, 1, 1);
    // endpoints, component-major: (r0, r1, g0, g1, b0, b1, a0, a1)
    let raws: [u64; 8] = [0, 127, 0, 127, 0, 127, 127, 127];
    for (t, raw) in raws.iter().enumerate() {
        set_bits(&mut data, 7 + 7 * t, 7, *raw);
    }
    // both p-bits set
    set_bits(&mut data, 63, 1, 1);
    set_bits(&mut data, 64, 1, 1);
    // weight indices: pixel 0 (3 bits, short) = 0; pixel i at 64 + 4i
    set_bits(&mut data, 64 + 4 * 8, 4, 8);
    set_bits(&mut data, 64 + 4 * 15, 4, 15);

    let block = decode(&data).unwrap();
    assert_eq!(block.len(), 16);
    assert_eq!(block[0].components, [1, 1, 1, 255]);
    assert_eq!(block[15].components, [255, 255, 255, 255]);
    let w: u32 = 34;
    let mid = (((64 - w) * 1 + w * 255 + 32) >> 6) as u8;
    assert_eq!(block[8].components, [mid, mid, mid, 255]);
}

/// An all-zero mode-1 block: both subsets interpolate between zero
/// endpoints, and the missing alpha channel is opaque.
#[test]
fn bc7_mode1_zero_block_is_opaque_black() {
    let mut data = [0u8; 16];
    data[0] = 0x02;
    let block = decode(&data).unwrap();
    assert_eq!(block.len(), 16);
    for px in &block {
        assert_eq!(px.components, [0, 0, 0, 255]);
    }
}

/// An all-zero mode-5 block decodes to transparent black without error.
#[test]
fn bc7_mode5_zero_block_decodes() {
    let mut data = [0u8; 16];
    data[0] = 0x20;
    let block = decode(&data).unwrap();
    assert_eq!(block.len(), 16);
    for px in &block {
        assert_eq!(px.components, [0, 0, 0, 0]);
    }
}

/// An all-zero mode-4 block decodes without error.
#[test]
fn bc7_mode4_zero_block_decodes() {
    let mut data = [0u8; 16];
    data[0] = 0x10;
    let block = decode(&data).unwrap();
    assert_eq!(block.len(), 16);
}

/// A mode-3 block whose endpoints all dequantize to the same value is a
/// solid tile of that value.
#[test]
fn bc7_mode3_solid_color() {
    let mut data = [0u8; 16];
    // mode prefix: three zeroes then a one
    set_bits(&mut data, 3, 1, 1);
    // partition 0; endpoints: all four red components 0x7f, all else 0
    for e in 0..4 {
        set_bits(&mut data, 10 + 7 * e, 7, 0x7f);
    }
    // all four p-bits set, so red dequantizes to 255
    for p in 0..4 {
        set_bits(&mut data, 94 + p, 1, 1);
    }
    let block = decode(&data).unwrap();
    for px in &block {
        assert_eq!(px.components[0], 255);
        assert_eq!(px.components[3], 255);
    }
}

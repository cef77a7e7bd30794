//! The BC7 block decoder: one 16-byte block becomes a 4×4 RGBA8 tile.
//!
//! A block is a 128-bit little-endian stream, emitted LSB-first within each
//! byte. The mode is the position of the lowest set bit of byte 0; modes
//! 1, 3 and 7 share a two-subset partitioned path, 4 and 5 a single-subset
//! component-rotated path, and 6 a full-precision path. Modes 0 and 2 are
//! reported as unimplemented.

use vstd::prelude::*;
use crate::bc7_tables::{PARTITION2, TABLE_ANCHOR_INDEX_SECOND_SUBSET, WEIGHTS2, WEIGHTS3, WEIGHTS4, anchor_entry, partition2_entry};
use crate::dds::{Bc7Error, Color4};

verus! {

/// Bit `i` of the block, LSB-first within each byte.
pub open spec fn blk_bit(s: Seq<u8>, i: int) -> u32 {
    ((s[i / 8] as u32) >> ((i % 8) as u32)) & 1
}

/// The value of the `len` bits starting at bit `off`, little-endian.
pub open spec fn blk_bits(s: Seq<u8>, off: int, len: int) -> int
    decreases len,
{
    if len <= 0 {
        0
    } else {
        blk_bit(s, off) + 2 * blk_bits(s, off + 1, len - 1)
    }
}

/// Two to the power `n` (1 for non-positive `n`).
pub open spec fn pow2i(n: int) -> int
    decreases n,
{
    if n <= 0 {
        1
    } else {
        2 * pow2i(n - 1)
    }
}

proof fn lemma_pow2i_pos(n: int)
    ensures
        pow2i(n) >= 1,
    decreases n,
{
    if n > 0 {
        lemma_pow2i_pos(n - 1);
    }
}

proof fn lemma_pow2i_increases(a: int, b: int)
    requires
        a <= b,
    ensures
        pow2i(a) <= pow2i(b),
    decreases b - a,
{
    if a < b {
        lemma_pow2i_increases(a, b - 1);
        lemma_pow2i_pos(b - 1);
    }
}

proof fn lemma_blk_bit_is_binary(s: Seq<u8>, i: int)
    ensures
        blk_bit(s, i) == 0 || blk_bit(s, i) == 1,
{
    let b = s[i / 8] as u32;
    let r = ((i % 8) as u32);
    assert(r < 8);
    assert(((b >> r) & 1) == 0 || ((b >> r) & 1) == 1) by (bit_vector);
}

/// Appending one bit at the top adds it with weight two to the count so far.
proof fn lemma_blk_bits_snoc(s: Seq<u8>, off: int, n: int)
    requires
        n >= 0,
    ensures
        blk_bits(s, off, n + 1) == blk_bits(s, off, n) + blk_bit(s, off + n) * pow2i(n),
    decreases n,
{
    reveal_with_fuel(blk_bits, 3);
    if n == 0 {
    } else {
        lemma_blk_bits_snoc(s, off + 1, n - 1);
        assert(2 * (blk_bit(s, off + n) * pow2i(n - 1)) == blk_bit(s, off + n) * pow2i(n))
            by (nonlinear_arith)
            requires
                pow2i(n) == 2 * pow2i(n - 1),
        ;
    }
}

/// A field of `n` bits is bounded by two to the `n`.
proof fn lemma_blk_bits_bound(s: Seq<u8>, off: int, n: int)
    ensures
        0 <= blk_bits(s, off, n) < pow2i(n),
    decreases n,
{
    if n <= 0 {
    } else {
        lemma_blk_bits_bound(s, off + 1, n - 1);
        lemma_blk_bit_is_binary(s, off);
    }
}

/// `pow2i` agrees with a 32-bit left shift of one for small exponents.
proof fn lemma_shift_pow2(n: u32)
    requires
        n <= 16,
    ensures
        (1u32 << n) as int == pow2i(n as int),
    decreases n,
{
    if n == 0 {
        assert((1u32 << 0u32) == 1) by (bit_vector);
    } else {
        let m = (n - 1) as u32;
        lemma_shift_pow2(m);
        assert(1 <= n <= 16 && m == n - 1 ==> (1u32 << n) == 2 * (1u32 << m)) by (bit_vector);
    }
}

/// The value of `pow2i` at 32.
proof fn lemma_pow2i_32()
    ensures
        pow2i(32) == 0x1_0000_0000,
{
    reveal_with_fuel(pow2i, 34);
}

/// The interpolation weight of index `w` at the given index width.
pub open spec fn spec_weight(bits: int, w: int) -> int {
    if bits == 2 {
        WEIGHTS2@[w] as int
    } else if bits == 3 {
        WEIGHTS3@[w] as int
    } else {
        WEIGHTS4@[w] as int
    }
}

/// The shared interpolation formula `((64 - w)·l + w·h + 32) >> 6`, with `wt`
/// already looked up in the weight table.
pub open spec fn spec_interp(l: int, h: int, wt: int) -> int {
    (l * (64 - wt) + h * wt + 32) / 64
}

/// Reads `codesize` bits from the block at the bit cursor, LSB-first, and
/// advances the cursor.
pub fn read_bits32(data: &[u8], bit_offset: &mut usize, codesize: usize) -> (r: u32)
    requires
        data@.len() == 16,
        *old(bit_offset) + codesize <= 128,
        codesize <= 32,
    ensures
        *final(bit_offset) == *old(bit_offset) + codesize,
        r as int == blk_bits(data@, *old(bit_offset) as int, codesize as int),
{
    let ghost start = *old(bit_offset) as int;
    let mut acc: u64 = 0;
    let mut p: u64 = 1;
    let mut k: usize = 0;
    while k < codesize
        invariant
            data@.len() == 16,
            start == *old(bit_offset) as int,
            start + codesize <= 128,
            codesize <= 32,
            k <= codesize,
            *bit_offset == start + k,
            p as int == pow2i(k as int),
            acc as int == blk_bits(data@, start, k as int),
            acc < p,
        decreases codesize - k,
    {
        proof {
            lemma_pow2i_increases(k as int, 32);
            lemma_pow2i_32();
        }
        let off = *bit_offset;
        proof {
            assert(off >> 3 == off / 8) by (bit_vector);
            assert(off & 7 == off % 8) by (bit_vector);
            assert(off / 8 < 16);
        }
        let byte = data[off >> 3];
        let rem = (off & 7) as u32;
        let bit: u32 = ((byte as u32) >> rem) & 1;
        proof {
            let b32 = byte as u32;
            assert(rem < 8 ==> ((b32 >> rem) & 1) <= 1) by (bit_vector);
            assert(bit as int == blk_bit(data@, start + k));
            lemma_blk_bits_snoc(data@, start, k as int);
            if bit == 1 {
                assert(blk_bit(data@, start + k) * pow2i(k as int) == pow2i(k as int))
                    by (nonlinear_arith)
                    requires
                        blk_bit(data@, start + k) == 1,
                ;
            } else {
                assert(blk_bit(data@, start + k) * pow2i(k as int) == 0) by (nonlinear_arith)
                    requires
                        blk_bit(data@, start + k) == 0,
                ;
            }
        }
        if bit == 1 {
            acc = acc + p;
        }
        p = p * 2;
        *bit_offset = off + 1;
        k = k + 1;
    }
    proof {
        lemma_blk_bits_bound(data@, start, codesize as int);
        lemma_pow2i_increases(codesize as int, 32);
        lemma_pow2i_32();
    }
    acc as u32
}

/// Left-aligns a `val_bits`-wide value into 8 bits and fills the low bits
/// with its own high bits.
pub open spec fn spec_dequant(v: u32, val_bits: u32) -> int
    recommends
        4 <= val_bits <= 8,
        v < pow2i(val_bits as int),
{
    ((v << (8 - val_bits) as u32) | ((v << (8 - val_bits) as u32) >> val_bits)) as int
}

/// Dequantizes an endpoint component without a p-bit.
pub fn bc7_dequant(val: u8, val_bits: u32) -> (r: u8)
    requires
        4 <= val_bits <= 8,
        (val as int) < pow2i(val_bits as int),
    ensures
        r as int == spec_dequant(val as u32, val_bits),
{
    let v = val as u32;
    proof {
        lemma_shift_pow2(val_bits);
        assert(v < (1u32 << val_bits));
        assert(4 <= val_bits <= 8 && v < (1u32 << val_bits) ==> ((v << (8 - val_bits) as u32) | ((
        v << (8 - val_bits) as u32) >> val_bits)) <= 255) by (bit_vector);
    }
    let shifted = v << (8 - val_bits);
    let out = shifted | (shifted >> val_bits);
    out as u8
}

/// Appends the p-bit below a `val_bits`-wide value, left-aligns the result
/// into 8 bits and fills the low bits with its own high bits.
pub open spec fn spec_dequant_pbit(v: u32, pbit: u32, val_bits: u32) -> int
    recommends
        4 <= val_bits <= 7,
        v < pow2i(val_bits as int),
        pbit <= 1,
{
    let vv = (v << 1) | pbit;
    ((vv << (7 - val_bits) as u32) | ((vv << (7 - val_bits) as u32) >> (val_bits + 1)
        as u32)) as int
}

/// Dequantizes an endpoint component with its p-bit.
pub fn bc7_dequant_with_pbit(val: u8, pbit: u32, val_bits: u32) -> (r: u8)
    requires
        4 <= val_bits <= 7,
        (val as int) < pow2i(val_bits as int),
        pbit <= 1,
    ensures
        r as int == spec_dequant_pbit(val as u32, pbit, val_bits),
{
    let v = val as u32;
    proof {
        lemma_shift_pow2(val_bits);
        assert(v < (1u32 << val_bits));
        assert(4 <= val_bits <= 7 && v < (1u32 << val_bits) && pbit <= 1 ==> ((((v << 1) | pbit)
            << (7 - val_bits) as u32) | ((((v << 1) | pbit) << (7 - val_bits) as u32) >> (val_bits
            + 1) as u32)) <= 255) by (bit_vector);
    }
    let vv = (v << 1) | pbit;
    let shifted = vv << (7 - val_bits);
    let out = shifted | (shifted >> (val_bits + 1));
    out as u8
}

/// Interpolates one component with a 2-bit weight index.
pub fn bc7_interp2(l: u8, h: u8, w: usize) -> (r: u8)
    requires
        w < 4,
    ensures
        r as int == spec_interp(l as int, h as int, spec_weight(2, w as int)),
{
    let wt = WEIGHTS2[w] as u32;
    proof {
        assert(WEIGHTS2@[w as int] <= 64);
        assert((l as int) * (64 - wt as int) + (h as int) * (wt as int) <= 255 * 64)
            by (nonlinear_arith)
            requires
                l <= 255 && h <= 255 && wt <= 64,
        ;
        assert((l as int) * (64 - wt as int) >= 0 && (h as int) * (wt as int) >= 0)
            by (nonlinear_arith)
            requires
                l <= 255 && h <= 255 && wt <= 64,
        ;
    }
    let sum: u32 = (l as u32) * (64 - wt) + (h as u32) * wt + 32;
    let out = sum >> 6;
    proof {
        assert(sum >> 6 == sum / 64) by (bit_vector);
    }
    out as u8
}

/// Interpolates one component with a 3-bit weight index.
pub fn bc7_interp3(l: u8, h: u8, w: usize) -> (r: u8)
    requires
        w < 8,
    ensures
        r as int == spec_interp(l as int, h as int, spec_weight(3, w as int)),
{
    let wt = WEIGHTS3[w] as u32;
    proof {
        assert(WEIGHTS3@[w as int] <= 64);
        assert((l as int) * (64 - wt as int) + (h as int) * (wt as int) <= 255 * 64)
            by (nonlinear_arith)
            requires
                l <= 255 && h <= 255 && wt <= 64,
        ;
        assert((l as int) * (64 - wt as int) >= 0 && (h as int) * (wt as int) >= 0)
            by (nonlinear_arith)
            requires
                l <= 255 && h <= 255 && wt <= 64,
        ;
    }
    let sum: u32 = (l as u32) * (64 - wt) + (h as u32) * wt + 32;
    let out = sum >> 6;
    proof {
        assert(sum >> 6 == sum / 64) by (bit_vector);
    }
    out as u8
}

/// Interpolates one component with a 4-bit weight index.
pub fn bc7_interp4(l: u8, h: u8, w: usize) -> (r: u8)
    requires
        w < 16,
    ensures
        r as int == spec_interp(l as int, h as int, spec_weight(4, w as int)),
{
    let wt = WEIGHTS4[w] as u32;
    proof {
        assert(WEIGHTS4@[w as int] <= 64);
        assert((l as int) * (64 - wt as int) + (h as int) * (wt as int) <= 255 * 64)
            by (nonlinear_arith)
            requires
                l <= 255 && h <= 255 && wt <= 64,
        ;
        assert((l as int) * (64 - wt as int) >= 0 && (h as int) * (wt as int) >= 0)
            by (nonlinear_arith)
            requires
                l <= 255 && h <= 255 && wt <= 64,
        ;
    }
    let sum: u32 = (l as u32) * (64 - wt) + (h as u32) * wt + 32;
    let out = sum >> 6;
    proof {
        assert(sum >> 6 == sum / 64) by (bit_vector);
    }
    out as u8
}

/// Interpolates one component at the given weight-index width.
pub fn bc7_interp(l: u8, h: u8, w: usize, bits: usize) -> (r: u8)
    requires
        bits == 2 || bits == 3 || bits == 4,
        w < pow2i(bits as int),
    ensures
        r as int == spec_interp(l as int, h as int, spec_weight(bits as int, w as int)),
{
    proof {
        reveal_with_fuel(pow2i, 6);
    }
    if bits == 2 {
        bc7_interp2(l, h, w)
    } else if bits == 3 {
        bc7_interp3(l, h, w)
    } else {
        bc7_interp4(l, h, w)
    }
}

/// Mode 6 layout: after the 7-bit mode prefix come eight 7-bit endpoint
/// components, component-major; `t` is the flat index `c * 2 + e`.
pub open spec fn m6_raw_endpoint(s: Seq<u8>, t: int) -> int {
    blk_bits(s, 7 + 7 * t, 7)
}

/// Mode 6: the per-endpoint p-bits sit at bits 63 and 64.
pub open spec fn m6_pbit(s: Seq<u8>, e: int) -> int {
    blk_bits(s, 63 + e, 1)
}

/// Mode 6: endpoint `e` of channel `c`, dequantized with its p-bit.
pub open spec fn m6_endpoint(s: Seq<u8>, e: int, c: int) -> int {
    spec_dequant_pbit(m6_raw_endpoint(s, c * 2 + e) as u32, m6_pbit(s, e) as u32, 7)
}

/// Mode 6: the 4-bit weight indices start at bit 65, the first one short by
/// one bit.
pub open spec fn m6_weight(s: Seq<u8>, i: int) -> int {
    if i == 0 {
        blk_bits(s, 65, 3)
    } else {
        blk_bits(s, 64 + 4 * i, 4)
    }
}

/// Mode 6: channel `c` of pixel `i`.
pub open spec fn m6_channel(s: Seq<u8>, i: int, c: int) -> int {
    spec_interp(m6_endpoint(s, 0, c), m6_endpoint(s, 1, c), spec_weight(4, m6_weight(s, i)))
}

/// Decodes a mode-6 block: two 7-bit endpoints per component with
/// per-endpoint p-bits, and 16 four-bit weight indices. Consumes exactly
/// 128 bits.
pub fn decode_mode_6(data: &[u8], bit_offset: &mut usize) -> (r: Vec<Color4>)
    requires
        data@.len() == 16,
        *old(bit_offset) == 0,
    ensures
        *final(bit_offset) == 128,
        r@.len() == 16,
        forall|i: int, c: int|
            0 <= i < 16 && 0 <= c < 4 ==> r@[i].components@[c] as int == m6_channel(data@, i, c),
{
    let _mode_bits = read_bits32(data, bit_offset, 7);
    let mut raw: Vec<u8> = Vec::new();
    let mut t: usize = 0;
    while t < 8
        invariant
            data@.len() == 16,
            t <= 8,
            *bit_offset == 7 + 7 * t,
            raw@.len() == t as int,
            forall|j: int|
                0 <= j < t as int ==> raw@[j] as int == m6_raw_endpoint(data@, j) && raw@[j] < 128,
        decreases 8 - t,
    {
        let v = read_bits32(data, bit_offset, 7);
        proof {
            lemma_blk_bits_bound(data@, 7 + 7 * t, 7);
            reveal_with_fuel(pow2i, 8);
        }
        raw.push(v as u8);
        t = t + 1;
    }
    let p0 = read_bits32(data, bit_offset, 1);
    let p1 = read_bits32(data, bit_offset, 1);
    proof {
        lemma_blk_bits_bound(data@, 63, 1);
        lemma_blk_bits_bound(data@, 64, 1);
        reveal_with_fuel(pow2i, 8);
    }
    let mut ep: Vec<u8> = Vec::new();
    let mut t2: usize = 0;
    while t2 < 8
        invariant
            data@.len() == 16,
            t2 <= 8,
            raw@.len() == 8,
            forall|j: int|
                0 <= j < 8 ==> raw@[j] as int == m6_raw_endpoint(data@, j) && raw@[j] < 128,
            p0 as int == m6_pbit(data@, 0),
            p1 as int == m6_pbit(data@, 1),
            p0 <= 1,
            p1 <= 1,
            ep@.len() == t2 as int,
            forall|j: int|
                0 <= j < t2 as int ==> ep@[j] as int == m6_endpoint(data@, j % 2, j / 2),
        decreases 8 - t2,
    {
        let pb = if t2 % 2 == 0 {
            p0
        } else {
            p1
        };
        proof {
            reveal_with_fuel(pow2i, 8);
        }
        let d = bc7_dequant_with_pbit(raw[t2], pb, 7);
        proof {
            assert(t2 as int % 2 == (if t2 % 2 == 0 { 0int } else { 1int }));
            assert((t2 / 2) as int == t2 as int / 2);
            assert((t2 as int / 2) * 2 + (t2 as int % 2) == t2 as int);
        }
        ep.push(d);
        t2 = t2 + 1;
    }
    let mut w: Vec<u8> = Vec::new();
    let mut i: usize = 0;
    while i < 16
        invariant
            data@.len() == 16,
            i <= 16,
            *bit_offset == (if i == 0 { 65int } else { 64 + 4 * (i as int) }),
            w@.len() == i as int,
            forall|j: int|
                0 <= j < i as int ==> w@[j] as int == m6_weight(data@, j) && w@[j] < 16,
        decreases 16 - i,
    {
        let bits: usize = if i == 0 {
            3
        } else {
            4
        };
        let v = read_bits32(data, bit_offset, bits);
        proof {
            if i == 0 {
                lemma_blk_bits_bound(data@, 65, 3);
                lemma_pow2i_increases(3, 4);
            } else {
                lemma_blk_bits_bound(data@, 64 + 4 * (i as int), 4);
            }
            reveal_with_fuel(pow2i, 8);
        }
        w.push(v as u8);
        i = i + 1;
    }
    let mut ret: Vec<Color4> = Vec::new();
    let mut px: usize = 0;
    while px < 16
        invariant
            data@.len() == 16,
            px <= 16,
            ep@.len() == 8,
            forall|j: int| 0 <= j < 8 ==> ep@[j] as int == m6_endpoint(data@, j % 2, j / 2),
            w@.len() == 16,
            forall|j: int| 0 <= j < 16 ==> w@[j] as int == m6_weight(data@, j) && w@[j] < 16,
            ret@.len() == px as int,
            forall|j: int, c: int|
                0 <= j < px as int && 0 <= c < 4 ==> ret@[j].components@[c] as int == m6_channel(
                    data@,
                    j,
                    c,
                ),
        decreases 16 - px,
    {
        let wi = w[px] as usize;
        proof {
            reveal_with_fuel(pow2i, 6);
        }
        let r0 = bc7_interp4(ep[0], ep[1], wi);
        let g0 = bc7_interp4(ep[2], ep[3], wi);
        let b0 = bc7_interp4(ep[4], ep[5], wi);
        let a0 = bc7_interp4(ep[6], ep[7], wi);
        let col = Color4 { components: [r0, g0, b0, a0] };
        proof {
            assert(col.components@ =~= seq![r0, g0, b0, a0]);
        }
        ret.push(col);
        px = px + 1;
    }
    ret
}

/// Modes 1/3/7: the number of interpolated components (alpha joins in mode 7).
pub open spec fn m137_comps(m: int) -> int {
    if m == 7 {
        4
    } else {
        3
    }
}

/// Modes 1/3/7: the weight-index width.
pub open spec fn m137_wb(m: int) -> int {
    if m == 1 {
        3
    } else {
        2
    }
}

/// Modes 1/3/7: the endpoint-component width.
pub open spec fn m137_eb(m: int) -> int {
    if m == 1 {
        6
    } else if m == 3 {
        7
    } else {
        5
    }
}

/// Modes 1/3/7: how many p-bits follow the endpoints (mode 1 shares one per
/// endpoint pair).
pub open spec fn m137_pbn(m: int) -> int {
    if m == 1 {
        2
    } else {
        4
    }
}

/// Modes 1/3/7: the 6-bit partition index follows the mode prefix.
pub open spec fn m137_part(s: Seq<u8>, m: int) -> int {
    blk_bits(s, m + 1, 6)
}

/// Modes 1/3/7: where the endpoint fields begin.
pub open spec fn m137_ep_base(m: int) -> int {
    m + 7
}

/// Modes 1/3/7: raw endpoint component at flat index `t = c * 4 + e`,
/// component-major then endpoint-major.
pub open spec fn m137_raw(s: Seq<u8>, m: int, t: int) -> int {
    blk_bits(s, m137_ep_base(m) + t * m137_eb(m), m137_eb(m))
}

/// Modes 1/3/7: where the p-bits begin.
pub open spec fn m137_pb_base(m: int) -> int {
    m137_ep_base(m) + m137_comps(m) * 4 * m137_eb(m)
}

/// Modes 1/3/7: the `p`-th p-bit.
pub open spec fn m137_pbit(s: Seq<u8>, m: int, p: int) -> int {
    blk_bits(s, m137_pb_base(m) + p, 1)
}

/// Modes 1/3/7: where the weight indices begin.
pub open spec fn m137_w_base(m: int) -> int {
    m137_pb_base(m) + m137_pbn(m)
}

/// Modes 1/3/7: the anchor position of the partition's second subset.
pub open spec fn m137_anchor(s: Seq<u8>, m: int) -> int {
    TABLE_ANCHOR_INDEX_SECOND_SUBSET@[m137_part(s, m)] as int
}

/// Modes 1/3/7: the weight index of pixel `i`; position 0 and the anchor
/// position are stored one bit short.
pub open spec fn m137_weight(s: Seq<u8>, m: int, i: int) -> int {
    let wb = m137_wb(m);
    let a = m137_anchor(s, m);
    let base = m137_w_base(m);
    if i == 0 {
        blk_bits(s, base, wb - 1)
    } else if i < a {
        blk_bits(s, base + i * wb - 1, wb)
    } else if i == a {
        blk_bits(s, base + i * wb - 1, wb - 1)
    } else {
        blk_bits(s, base + i * wb - 2, wb)
    }
}

/// Modes 1/3/7: the p-bit endpoint `e` dequantizes with.
pub open spec fn m137_pbit_for(s: Seq<u8>, m: int, e: int) -> int {
    m137_pbit(s, m, if m == 1 { e / 2 } else { e })
}

/// Modes 1/3/7: endpoint `e` of channel `c`, dequantized; the missing alpha
/// channel is opaque.
pub open spec fn m137_endpoint(s: Seq<u8>, m: int, e: int, c: int) -> int {
    if c == 3 && m137_comps(m) == 3 {
        255
    } else {
        spec_dequant_pbit(
            m137_raw(s, m, c * 4 + e) as u32,
            m137_pbit_for(s, m, e) as u32,
            m137_eb(m) as u32,
        )
    }
}

/// Modes 1/3/7: which subset pixel `i` belongs to.
pub open spec fn m137_subset(s: Seq<u8>, m: int, i: int) -> int {
    PARTITION2@[m137_part(s, m) * 16 + i] as int
}

/// Modes 1/3/7: channel `c` of pixel `i`.
pub open spec fn m137_channel(s: Seq<u8>, m: int, i: int, c: int) -> int {
    if c == 3 && m137_comps(m) == 3 {
        255
    } else {
        let ss = m137_subset(s, m, i);
        spec_interp(
            m137_endpoint(s, m, ss * 2, c),
            m137_endpoint(s, m, ss * 2 + 1, c),
            spec_weight(m137_wb(m), m137_weight(s, m, i)),
        )
    }
}

/// The concrete field offsets of modes 1, 3 and 7.
proof fn lemma_m137_layout(m: int)
    requires
        m == 1 || m == 3 || m == 7,
    ensures
        m137_pb_base(m) == (if m == 1 {
            80int
        } else {
            94int
        }),
        m137_w_base(m) == (if m == 1 {
            82int
        } else {
            98int
        }),
        m137_w_base(m) + 16 * m137_wb(m) - 2 == 128,
{
    let cc = m137_comps(m);
    let ee = m137_eb(m);
    assert(cc * 4 * ee == (if m == 1 {
        72int
    } else if m == 3 {
        84int
    } else {
        80int
    })) by (nonlinear_arith)
        requires
            (m == 1 ==> cc == 3 && ee == 6),
            (m == 3 ==> cc == 3 && ee == 7),
            (m == 7 ==> cc == 4 && ee == 5),
            m == 1 || m == 3 || m == 7,
    ;
}

/// Decodes a two-subset partitioned block of mode 1, 3 or 7. Consumes
/// exactly 128 bits.
#[verifier::rlimit(100)]
pub fn decode_mode_1_3_7(data: &[u8], mode: u8, bit_offset: &mut usize) -> (r: Vec<Color4>)
    requires
        data@.len() == 16,
        *old(bit_offset) == 0,
        mode == 1 || mode == 3 || mode == 7,
    ensures
        *final(bit_offset) == 128,
        r@.len() == 16,
        forall|i: int, c: int|
            0 <= i < 16 && 0 <= c < 4 ==> r@[i].components@[c] as int == m137_channel(
                data@,
                mode as int,
                i,
                c,
            ),
{
    let ghost m = mode as int;
    let comps: usize = if mode == 7 {
        4
    } else {
        3
    };
    let weight_bits: usize = if mode == 1 {
        3
    } else {
        2
    };
    let endpoint_bits: usize = match mode {
        1 => 6,
        3 => 7,
        _ => 5,
    };
    let pbits_count: usize = if mode == 1 {
        2
    } else {
        4
    };
    let _mode_bits = read_bits32(data, bit_offset, (mode + 1) as usize);
    let part = read_bits32(data, bit_offset, 6) as usize;
    proof {
        lemma_blk_bits_bound(data@, m + 1, 6);
        reveal_with_fuel(pow2i, 8);
        assert(part < 64);
    }
    let mut raw: Vec<u8> = Vec::new();
    let mut t: usize = 0;
    while t < comps * 4
        invariant
            data@.len() == 16,
            m == mode as int,
            mode == 1 || mode == 3 || mode == 7,
            comps as int == m137_comps(m),
            endpoint_bits as int == m137_eb(m),
            t <= comps * 4,
            *bit_offset == m137_ep_base(m) + (t as int) * m137_eb(m),
            raw@.len() == t as int,
            forall|j: int|
                0 <= j < t as int ==> raw@[j] as int == m137_raw(data@, m, j) && (raw@[j] as int)
                    < pow2i(m137_eb(m)),
        decreases comps * 4 - t,
    {
        proof {
            lemma_m137_layout(m);
            let eb = m137_eb(m);
            assert((t as int) * eb + eb == (t as int + 1) * eb) by (nonlinear_arith);
            assert((t as int + 1) * eb <= (comps * 4) as int * eb) by (nonlinear_arith)
                requires
                    t as int + 1 <= (comps * 4) as int && eb >= 0,
            ;
        }
        let v = read_bits32(data, bit_offset, endpoint_bits);
        proof {
            lemma_blk_bits_bound(data@, m137_ep_base(m) + (t as int) * m137_eb(m), m137_eb(m));
            reveal_with_fuel(pow2i, 9);
        }
        raw.push(v as u8);
        t = t + 1;
    }
    proof {
        lemma_m137_layout(m);
        let eb = m137_eb(m);
        assert(((comps * 4) as int) * eb == m137_comps(m) * 4 * m137_eb(m)) by (nonlinear_arith)
            requires
                (comps * 4) as int == m137_comps(m) * 4 && eb == m137_eb(m),
        ;
    }
    let mut pbits: Vec<u32> = Vec::new();
    let mut p: usize = 0;
    while p < pbits_count
        invariant
            data@.len() == 16,
            m == mode as int,
            mode == 1 || mode == 3 || mode == 7,
            pbits_count as int == m137_pbn(m),
            p <= pbits_count,
            *bit_offset == m137_pb_base(m) + p as int,
            pbits@.len() == p as int,
            forall|j: int|
                0 <= j < p as int ==> pbits@[j] as int == m137_pbit(data@, m, j) && pbits@[j] <= 1,
        decreases pbits_count - p,
    {
        proof {
            lemma_m137_layout(m);
        }
        let v = read_bits32(data, bit_offset, 1);
        proof {
            lemma_blk_bits_bound(data@, m137_pb_base(m) + p as int, 1);
            reveal_with_fuel(pow2i, 9);
        }
        pbits.push(v);
        p = p + 1;
    }
    let anchor = anchor_entry(part) as usize;
    let mut weights: Vec<u8> = Vec::new();
    let mut i: usize = 0;
    while i < 16
        invariant
            data@.len() == 16,
            m == mode as int,
            mode == 1 || mode == 3 || mode == 7,
            weight_bits as int == m137_wb(m),
            part as int == m137_part(data@, m),
            anchor as int == m137_anchor(data@, m),
            1 <= anchor <= 15,
            i <= 16,
            *bit_offset == (if i == 0 {
                m137_w_base(m)
            } else if i as int <= anchor as int {
                m137_w_base(m) + (i as int) * m137_wb(m) - 1
            } else {
                m137_w_base(m) + (i as int) * m137_wb(m) - 2
            }),
            weights@.len() == i as int,
            forall|j: int|
                0 <= j < i as int ==> weights@[j] as int == m137_weight(data@, m, j) && (
                weights@[j] as int) < pow2i(m137_wb(m)),
        decreases 16 - i,
    {
        let bits: usize = if i == 0 || i == anchor {
            weight_bits - 1
        } else {
            weight_bits
        };
        proof {
            lemma_m137_layout(m);
            let wb = m137_wb(m);
            assert((i as int) * wb + wb == (i as int + 1) * wb) by (nonlinear_arith);
            assert((i as int + 1) * wb <= 16 * wb) by (nonlinear_arith)
                requires
                    i as int + 1 <= 16 && wb >= 0,
            ;
            assert((i as int) * wb <= 15 * wb) by (nonlinear_arith)
                requires
                    i as int <= 15 && wb >= 0,
            ;
            if i != 0 && i < anchor {
                assert((i as int + 1) * wb <= 15 * wb) by (nonlinear_arith)
                    requires
                        i as int + 1 <= 15 && wb >= 0,
                ;
            }
        }
        let v = read_bits32(data, bit_offset, bits);
        proof {
            let wb = m137_wb(m);
            let a = m137_anchor(data@, m);
            let base = m137_w_base(m);
            if i == 0 {
                lemma_blk_bits_bound(data@, base, wb - 1);
                lemma_pow2i_increases(wb - 1, wb);
            } else if (i as int) < a {
                lemma_blk_bits_bound(data@, base + (i as int) * wb - 1, wb);
            } else if i as int == a {
                lemma_blk_bits_bound(data@, base + (i as int) * wb - 1, wb - 1);
                lemma_pow2i_increases(wb - 1, wb);
            } else {
                lemma_blk_bits_bound(data@, base + (i as int) * wb - 2, wb);
            }
            reveal_with_fuel(pow2i, 9);
        }
        weights.push(v as u8);
        i = i + 1;
    }
    let mut ep: Vec<u8> = Vec::new();
    let mut t2: usize = 0;
    while t2 < 16
        invariant
            data@.len() == 16,
            m == mode as int,
            mode == 1 || mode == 3 || mode == 7,
            comps as int == m137_comps(m),
            endpoint_bits as int == m137_eb(m),
            pbits_count as int == m137_pbn(m),
            raw@.len() == comps * 4,
            forall|j: int|
                0 <= j < comps * 4 ==> raw@[j] as int == m137_raw(data@, m, j) && (raw@[j] as int)
                    < pow2i(m137_eb(m)),
            pbits@.len() == pbits_count as int,
            forall|j: int|
                0 <= j < pbits_count as int ==> pbits@[j] as int == m137_pbit(data@, m, j)
                    && pbits@[j] <= 1,
            t2 <= 16,
            ep@.len() == t2 as int,
            forall|j: int|
                0 <= j < t2 as int ==> ep@[j] as int == m137_endpoint(data@, m, j % 4, j / 4),
        decreases 16 - t2,
    {
        let c = t2 / 4;
        let e = t2 % 4;
        let d: u8 = if c == 3 && comps == 3 {
            255
        } else {
            let pidx = if mode == 1 {
                e / 2
            } else {
                e
            };
            proof {
                reveal_with_fuel(pow2i, 9);
            }
            bc7_dequant_with_pbit(raw[c * 4 + e], pbits[pidx], endpoint_bits as u32)
        };
        proof {
            assert(t2 as int % 4 == e as int && t2 as int / 4 == c as int);
        }
        ep.push(d);
        t2 = t2 + 1;
    }
    let mut ret: Vec<Color4> = Vec::new();
    let mut px: usize = 0;
    while px < 16
        invariant
            data@.len() == 16,
            m == mode as int,
            mode == 1 || mode == 3 || mode == 7,
            comps as int == m137_comps(m),
            weight_bits as int == m137_wb(m),
            part as int == m137_part(data@, m),
            part < 64,
            ep@.len() == 16,
            forall|j: int|
                0 <= j < 16 ==> ep@[j] as int == m137_endpoint(data@, m, j % 4, j / 4),
            weights@.len() == 16,
            forall|j: int|
                0 <= j < 16 ==> weights@[j] as int == m137_weight(data@, m, j) && (
                weights@[j] as int) < pow2i(m137_wb(m)),
            px <= 16,
            ret@.len() == px as int,
            forall|j: int, c: int|
                0 <= j < px as int && 0 <= c < 4 ==> ret@[j].components@[c] as int == m137_channel(
                    data@,
                    m,
                    j,
                    c,
                ),
        decreases 16 - px,
    {
        let ss = partition2_entry(part * 16 + px) as usize;
        proof {
            assert(ss as int == m137_subset(data@, m, px as int));
        }
        let wi = weights[px] as usize;
        let c0 = bc7_interp(ep[ss * 2], ep[ss * 2 + 1], wi, weight_bits);
        let c1 = bc7_interp(ep[4 + ss * 2], ep[4 + ss * 2 + 1], wi, weight_bits);
        let c2 = bc7_interp(ep[8 + ss * 2], ep[8 + ss * 2 + 1], wi, weight_bits);
        let c3: u8 = if comps == 3 {
            255
        } else {
            bc7_interp(ep[12 + ss * 2], ep[12 + ss * 2 + 1], wi, weight_bits)
        };
        let col = Color4 { components: [c0, c1, c2, c3] };
        proof {
            assert(col.components@ =~= seq![c0, c1, c2, c3]);
        }
        ret.push(col);
        px = px + 1;
    }
    ret
}

/// Modes 4/5: the color-endpoint width.
pub open spec fn m45_ceb(m: int) -> int {
    if m == 4 {
        5
    } else {
        7
    }
}

/// Modes 4/5: the alpha-endpoint width.
pub open spec fn m45_aeb(m: int) -> int {
    if m == 4 {
        6
    } else {
        8
    }
}

/// Modes 4/5: the 2-bit component rotation follows the mode prefix.
pub open spec fn m45_rot(s: Seq<u8>, m: int) -> int {
    blk_bits(s, m + 1, 2)
}

/// Mode 4's one-bit index-mode selector at bit 7; mode 5 has none and
/// behaves as zero.
pub open spec fn m45_index_mode(s: Seq<u8>, m: int) -> int {
    if m == 4 {
        blk_bits(s, 7, 1)
    } else {
        0
    }
}

/// Modes 4/5: raw endpoint component at flat index `t = c * 2 + e`: the six
/// color fields come first, then the two alpha fields, all starting at bit 8.
pub open spec fn m45_raw(s: Seq<u8>, m: int, t: int) -> int {
    if t < 6 {
        blk_bits(s, 8 + t * m45_ceb(m), m45_ceb(m))
    } else {
        blk_bits(s, 8 + 6 * m45_ceb(m) + (t - 6) * m45_aeb(m), m45_aeb(m))
    }
}

/// Modes 4/5: endpoint `e` of channel `c`, dequantized without a p-bit.
pub open spec fn m45_endpoint(s: Seq<u8>, m: int, e: int, c: int) -> int {
    if c == 3 {
        spec_dequant(m45_raw(s, m, 6 + e) as u32, m45_aeb(m) as u32)
    } else {
        spec_dequant(m45_raw(s, m, c * 2 + e) as u32, m45_ceb(m) as u32)
    }
}

/// The index width of weight plane `p` (0 = color, 1 = alpha): mode 4 gives
/// three bits to one plane by the selector, mode 5 two bits to both.
pub open spec fn m45_wbits(m: int, idx: int, p: int) -> int {
    if m == 4 && ((p == 0 && idx == 1) || (p == 1 && idx == 0)) {
        3
    } else {
        2
    }
}

/// Modes 4/5: where the weight planes begin.
pub open spec fn m45_w_base(m: int) -> int {
    if m == 4 {
        50
    } else {
        66
    }
}

/// Modes 4/5: the `i`-th index of the plane read first — the plane the
/// selector names — stored one bit short at position 0.
pub open spec fn m45_first_weight(s: Seq<u8>, m: int, i: int) -> int {
    let idx = m45_index_mode(s, m);
    let fw = m45_wbits(m, idx, idx);
    let base = m45_w_base(m);
    if i == 0 {
        blk_bits(s, base, fw - 1)
    } else {
        blk_bits(s, base + i * fw - 1, fw)
    }
}

/// Modes 4/5: the `i`-th index of the plane read second, stored one bit
/// short at position 0.
pub open spec fn m45_second_weight(s: Seq<u8>, m: int, i: int) -> int {
    let idx = m45_index_mode(s, m);
    let fw = m45_wbits(m, idx, idx);
    let sw = m45_wbits(m, idx, 1 - idx);
    let base = m45_w_base(m) + 16 * fw - 1;
    if i == 0 {
        blk_bits(s, base, sw - 1)
    } else {
        blk_bits(s, base + i * sw - 1, sw)
    }
}

/// Modes 4/5: the color-plane index of pixel `i`.
pub open spec fn m45_color_weight(s: Seq<u8>, m: int, i: int) -> int {
    if m45_index_mode(s, m) == 0 {
        m45_first_weight(s, m, i)
    } else {
        m45_second_weight(s, m, i)
    }
}

/// Modes 4/5: the alpha-plane index of pixel `i`.
pub open spec fn m45_alpha_weight(s: Seq<u8>, m: int, i: int) -> int {
    if m45_index_mode(s, m) == 0 {
        m45_second_weight(s, m, i)
    } else {
        m45_first_weight(s, m, i)
    }
}

/// Modes 4/5: channel `c` of pixel `i` before the component rotation: color
/// channels interpolate by the color plane, alpha by the alpha plane.
pub open spec fn m45_pre_channel(s: Seq<u8>, m: int, i: int, c: int) -> int {
    let idx = m45_index_mode(s, m);
    if c == 3 {
        spec_interp(
            m45_endpoint(s, m, 0, 3),
            m45_endpoint(s, m, 1, 3),
            spec_weight(m45_wbits(m, idx, 1), m45_alpha_weight(s, m, i)),
        )
    } else {
        spec_interp(
            m45_endpoint(s, m, 0, c),
            m45_endpoint(s, m, 1, c),
            spec_weight(m45_wbits(m, idx, 0), m45_color_weight(s, m, i)),
        )
    }
}

/// Modes 4/5: channel `c` of pixel `i`: a nonzero rotation swaps channel 3
/// with channel `rot - 1` in every pixel.
pub open spec fn m45_channel(s: Seq<u8>, m: int, i: int, c: int) -> int {
    let rot = m45_rot(s, m);
    if rot == 0 {
        m45_pre_channel(s, m, i, c)
    } else if c == 3 {
        m45_pre_channel(s, m, i, rot - 1)
    } else if c == rot - 1 {
        m45_pre_channel(s, m, i, 3)
    } else {
        m45_pre_channel(s, m, i, c)
    }
}

/// Decodes a single-subset component-rotated block of mode 4 or 5: two
/// endpoints at color/alpha precisions, two weight planes whose index widths
/// the mode-4 selector bit can swap, and a 2-bit component rotation.
/// Consumes exactly 128 bits.
#[verifier::rlimit(100)]
pub fn decode_mode_4_5(data: &[u8], mode: u8, bit_offset: &mut usize) -> (r: Vec<Color4>)
    requires
        data@.len() == 16,
        *old(bit_offset) == 0,
        mode == 4 || mode == 5,
    ensures
        *final(bit_offset) == 128,
        r@.len() == 16,
        forall|i: int, c: int|
            0 <= i < 16 && 0 <= c < 4 ==> r@[i].components@[c] as int == m45_channel(
                data@,
                mode as int,
                i,
                c,
            ),
{
    let ghost m = mode as int;
    let color_eb: u32 = if mode == 4 {
        5
    } else {
        7
    };
    let alpha_eb: u32 = if mode == 4 {
        6
    } else {
        8
    };
    let _mode_bits = read_bits32(data, bit_offset, (mode + 1) as usize);
    let comp_rot_raw = read_bits32(data, bit_offset, 2);
    proof {
        lemma_blk_bits_bound(data@, m + 1, 2);
        reveal_with_fuel(pow2i, 3);
    }
    let comp_rot = comp_rot_raw as usize;
    let index_mode: usize = if mode == 4 {
        let ib = read_bits32(data, bit_offset, 1);
        proof {
            lemma_blk_bits_bound(data@, 7, 1);
            reveal_with_fuel(pow2i, 3);
        }
        ib as usize
    } else {
        0
    };
    proof {
        assert(comp_rot as int == m45_rot(data@, m));
        assert(index_mode as int == m45_index_mode(data@, m));
        assert(*bit_offset == 8);
        reveal_with_fuel(pow2i, 10);
    }
    let r0 = read_bits32(data, bit_offset, color_eb as usize);
    proof {
        lemma_blk_bits_bound(data@, 8, m45_ceb(m));
    }
    let d0 = bc7_dequant(r0 as u8, color_eb);
    let r1 = read_bits32(data, bit_offset, color_eb as usize);
    proof {
        lemma_blk_bits_bound(data@, 8 + m45_ceb(m), m45_ceb(m));
    }
    let d1 = bc7_dequant(r1 as u8, color_eb);
    let g0 = read_bits32(data, bit_offset, color_eb as usize);
    proof {
        lemma_blk_bits_bound(data@, 8 + 2 * m45_ceb(m), m45_ceb(m));
    }
    let d2 = bc7_dequant(g0 as u8, color_eb);
    let g1 = read_bits32(data, bit_offset, color_eb as usize);
    proof {
        lemma_blk_bits_bound(data@, 8 + 3 * m45_ceb(m), m45_ceb(m));
    }
    let d3 = bc7_dequant(g1 as u8, color_eb);
    let b0 = read_bits32(data, bit_offset, color_eb as usize);
    proof {
        lemma_blk_bits_bound(data@, 8 + 4 * m45_ceb(m), m45_ceb(m));
    }
    let d4 = bc7_dequant(b0 as u8, color_eb);
    let b1 = read_bits32(data, bit_offset, color_eb as usize);
    proof {
        lemma_blk_bits_bound(data@, 8 + 5 * m45_ceb(m), m45_ceb(m));
    }
    let d5 = bc7_dequant(b1 as u8, color_eb);
    let a0 = read_bits32(data, bit_offset, alpha_eb as usize);
    proof {
        lemma_blk_bits_bound(data@, 8 + 6 * m45_ceb(m), m45_aeb(m));
    }
    let d6 = bc7_dequant(a0 as u8, alpha_eb);
    let a1 = read_bits32(data, bit_offset, alpha_eb as usize);
    proof {
        lemma_blk_bits_bound(data@, 8 + 6 * m45_ceb(m) + m45_aeb(m), m45_aeb(m));
    }
    let d7 = bc7_dequant(a1 as u8, alpha_eb);
    let mut ep: Vec<u8> = Vec::new();
    ep.push(d0);
    ep.push(d1);
    ep.push(d2);
    ep.push(d3);
    ep.push(d4);
    ep.push(d5);
    ep.push(d6);
    ep.push(d7);
    proof {
        assert(ep@ =~= seq![d0, d1, d2, d3, d4, d5, d6, d7]);
        assert(forall|t: int|
            0 <= t < 6 ==> #[trigger] ep@[t] as int == m45_endpoint(data@, m, t % 2, t / 2));
        assert(ep@[6] as int == m45_endpoint(data@, m, 0, 3));
        assert(ep@[7] as int == m45_endpoint(data@, m, 1, 3));
    }
    let wbits0: usize = if index_mode == 1 && mode == 4 {
        3
    } else {
        2
    };
    let wbits1: usize = if index_mode == 0 && mode == 4 {
        3
    } else {
        2
    };
    let first_width: usize = if index_mode == 0 {
        wbits0
    } else {
        wbits1
    };
    let second_width: usize = if index_mode == 0 {
        wbits1
    } else {
        wbits0
    };
    let ghost wbase1 = *bit_offset as int;
    proof {
        assert(wbase1 == m45_w_base(m));
        assert(wbits0 as int == m45_wbits(m, index_mode as int, 0));
        assert(wbits1 as int == m45_wbits(m, index_mode as int, 1));
        assert(first_width as int == m45_wbits(m, index_mode as int, index_mode as int));
        assert(second_width as int == m45_wbits(m, index_mode as int, 1 - index_mode as int));
    }
    let mut first_plane: Vec<u8> = Vec::new();
    let mut i: usize = 0;
    while i < 16
        invariant
            data@.len() == 16,
            m == mode as int,
            mode == 4 || mode == 5,
            index_mode as int == m45_index_mode(data@, m),
            2 <= first_width <= 3,
            2 <= second_width <= 3,
            first_width as int == m45_wbits(m, index_mode as int, index_mode as int),
            wbase1 == m45_w_base(m),
            wbase1 + 16 * first_width + 16 * second_width - 2 == 128,
            i <= 16,
            *bit_offset == (if i == 0 {
                wbase1
            } else {
                wbase1 + (i as int) * first_width - 1
            }),
            first_plane@.len() == i as int,
            forall|j: int|
                0 <= j < i as int ==> #[trigger] first_plane@[j] as int == m45_first_weight(
                    data@,
                    m,
                    j,
                ) && (first_plane@[j] as int) < pow2i(first_width as int),
        decreases 16 - i,
    {
        let bits: usize = if i == 0 {
            first_width - 1
        } else {
            first_width
        };
        proof {
            let fw = first_width as int;
            assert((i as int) * fw + fw == (i as int + 1) * fw) by (nonlinear_arith);
            assert((i as int + 1) * fw <= 16 * fw) by (nonlinear_arith)
                requires
                    i as int + 1 <= 16 && fw >= 0,
            ;
        }
        let v = read_bits32(data, bit_offset, bits);
        proof {
            if i == 0 {
                lemma_blk_bits_bound(data@, wbase1, first_width - 1);
                lemma_pow2i_increases(first_width - 1, first_width as int);
            } else {
                lemma_blk_bits_bound(
                    data@,
                    wbase1 + (i as int) * first_width - 1,
                    first_width as int,
                );
            }
            reveal_with_fuel(pow2i, 9);
        }
        first_plane.push(v as u8);
        i = i + 1;
    }
    let ghost wbase2 = *bit_offset as int;
    let mut second_plane: Vec<u8> = Vec::new();
    let mut i2: usize = 0;
    while i2 < 16
        invariant
            data@.len() == 16,
            m == mode as int,
            mode == 4 || mode == 5,
            index_mode as int == m45_index_mode(data@, m),
            2 <= second_width <= 3,
            first_width as int == m45_wbits(m, index_mode as int, index_mode as int),
            second_width as int == m45_wbits(m, index_mode as int, 1 - index_mode as int),
            wbase2 == m45_w_base(m) + 16 * (first_width as int) - 1,
            wbase2 + 16 * second_width - 1 == 128,
            i2 <= 16,
            *bit_offset == (if i2 == 0 {
                wbase2
            } else {
                wbase2 + (i2 as int) * second_width - 1
            }),
            second_plane@.len() == i2 as int,
            forall|j: int|
                0 <= j < i2 as int ==> #[trigger] second_plane@[j] as int == m45_second_weight(
                    data@,
                    m,
                    j,
                ) && (second_plane@[j] as int) < pow2i(second_width as int),
        decreases 16 - i2,
    {
        let bits: usize = if i2 == 0 {
            second_width - 1
        } else {
            second_width
        };
        proof {
            let sw = second_width as int;
            assert((i2 as int) * sw + sw == (i2 as int + 1) * sw) by (nonlinear_arith);
            assert((i2 as int + 1) * sw <= 16 * sw) by (nonlinear_arith)
                requires
                    i2 as int + 1 <= 16 && sw >= 0,
            ;
        }
        let v = read_bits32(data, bit_offset, bits);
        proof {
            if i2 == 0 {
                lemma_blk_bits_bound(data@, wbase2, second_width - 1);
                lemma_pow2i_increases(second_width - 1, second_width as int);
            } else {
                lemma_blk_bits_bound(
                    data@,
                    wbase2 + (i2 as int) * second_width - 1,
                    second_width as int,
                );
            }
            reveal_with_fuel(pow2i, 9);
        }
        second_plane.push(v as u8);
        i2 = i2 + 1;
    }
    let mut ret: Vec<Color4> = Vec::new();
    let mut px: usize = 0;
    while px < 16
        invariant
            data@.len() == 16,
            m == mode as int,
            mode == 4 || mode == 5,
            index_mode as int == m45_index_mode(data@, m),
            comp_rot as int == m45_rot(data@, m),
            comp_rot < 4,
            ep@.len() == 8,
            forall|t: int|
                0 <= t < 6 ==> #[trigger] ep@[t] as int == m45_endpoint(data@, m, t % 2, t / 2),
            ep@[6] as int == m45_endpoint(data@, m, 0, 3),
            ep@[7] as int == m45_endpoint(data@, m, 1, 3),
            2 <= wbits0 <= 3,
            2 <= wbits1 <= 3,
            wbits0 as int == m45_wbits(m, index_mode as int, 0),
            wbits1 as int == m45_wbits(m, index_mode as int, 1),
            index_mode <= 1,
            first_plane@.len() == 16,
            forall|j: int|
                0 <= j < 16 ==> #[trigger] first_plane@[j] as int == m45_first_weight(data@, m, j)
                    && (first_plane@[j] as int) < pow2i(first_width as int),
            second_plane@.len() == 16,
            forall|j: int|
                0 <= j < 16 ==> #[trigger] second_plane@[j] as int == m45_second_weight(
                    data@,
                    m,
                    j,
                ) && (second_plane@[j] as int) < pow2i(second_width as int),
            first_width == (if index_mode == 0 {
                wbits0
            } else {
                wbits1
            }),
            second_width == (if index_mode == 0 {
                wbits1
            } else {
                wbits0
            }),
            px <= 16,
            ret@.len() == px as int,
            forall|j: int, c: int|
                0 <= j < px as int && 0 <= c < 4 ==> #[trigger] ret@[j].components@[c] as int
                    == m45_channel(data@, m, j, c),
        decreases 16 - px,
    {
        let cidx: usize = if index_mode == 0 {
            first_plane[px] as usize
        } else {
            second_plane[px] as usize
        };
        let aidx: usize = if index_mode == 0 {
            second_plane[px] as usize
        } else {
            first_plane[px] as usize
        };
        proof {
            assert(cidx as int == m45_color_weight(data@, m, px as int));
            assert(aidx as int == m45_alpha_weight(data@, m, px as int));
        }
        let c0 = bc7_interp(ep[0], ep[1], cidx, wbits0);
        let c1 = bc7_interp(ep[2], ep[3], cidx, wbits0);
        let c2 = bc7_interp(ep[4], ep[5], cidx, wbits0);
        let a = bc7_interp(ep[6], ep[7], aidx, wbits1);
        proof {
            assert(c0 as int == m45_pre_channel(data@, m, px as int, 0));
            assert(c1 as int == m45_pre_channel(data@, m, px as int, 1));
            assert(c2 as int == m45_pre_channel(data@, m, px as int, 2));
            assert(a as int == m45_pre_channel(data@, m, px as int, 3));
        }
        let col = if comp_rot == 1 {
            Color4 { components: [a, c1, c2, c0] }
        } else if comp_rot == 2 {
            Color4 { components: [c0, a, c2, c1] }
        } else if comp_rot == 3 {
            Color4 { components: [c0, c1, a, c2] }
        } else {
            Color4 { components: [c0, c1, c2, a] }
        };
        proof {
            if comp_rot == 1 {
                assert(col.components@ =~= seq![a, c1, c2, c0]);
            } else if comp_rot == 2 {
                assert(col.components@ =~= seq![c0, a, c2, c1]);
            } else if comp_rot == 3 {
                assert(col.components@ =~= seq![c0, c1, a, c2]);
            } else {
                assert(col.components@ =~= seq![c0, c1, c2, a]);
            }
            assert(forall|c: int|
                0 <= c < 4 ==> col.components@[c] as int == m45_channel(data@, m, px as int, c));
        }
        ret.push(col);
        px = px + 1;
    }
    ret
}

/// The mode a block declares: the position of the lowest set bit of its
/// first byte, or 8 when no bit is set.
pub open spec fn spec_bc7_mode(b: u8) -> int {
    if b & 1 != 0 {
        0
    } else if b & 2 != 0 {
        1
    } else if b & 4 != 0 {
        2
    } else if b & 8 != 0 {
        3
    } else if b & 16 != 0 {
        4
    } else if b & 32 != 0 {
        5
    } else if b & 64 != 0 {
        6
    } else if b & 128 != 0 {
        7
    } else {
        8
    }
}

/// Decodes one 16-byte BC7 block into a row-major 4×4 tile of pixels.
/// Blocks of modes 0 and 2 are unimplemented; a block whose first byte is
/// zero declares no mode at all.
pub fn decode(data: &[u8]) -> (r: Result<Vec<Color4>, Bc7Error>)
    requires
        data@.len() == 16,
    ensures
        ({
            let m = spec_bc7_mode(data@[0]);
            match r {
                Ok(blk) => (m == 1 || m == 3 || m == 4 || m == 5 || m == 6 || m == 7)
                    && blk@.len() == 16 && ((m == 1 || m == 3 || m == 7) ==> forall|i: int, c: int|
                    0 <= i < 16 && 0 <= c < 4 ==> blk@[i].components@[c] as int == m137_channel(
                        data@,
                        m,
                        i,
                        c,
                    )) && ((m == 4 || m == 5) ==> forall|i: int, c: int|
                    0 <= i < 16 && 0 <= c < 4 ==> blk@[i].components@[c] as int == m45_channel(
                        data@,
                        m,
                        i,
                        c,
                    )) && (m == 6 ==> forall|i: int, c: int|
                    0 <= i < 16 && 0 <= c < 4 ==> blk@[i].components@[c] as int == m6_channel(
                        data@,
                        i,
                        c,
                    )),
                Err(e) => (m == 8 && e == Bc7Error::InvalidBc7BlockMode(0) && data@[0] == 0) || ((m
                    == 0 || m == 2) && e == Bc7Error::UnimplementedBc7BlockMode(m as u8)),
            }
        }),
{
    let b = data[0];
    let mode: u8 = if b & 1 != 0 {
        0
    } else if b & 2 != 0 {
        1
    } else if b & 4 != 0 {
        2
    } else if b & 8 != 0 {
        3
    } else if b & 16 != 0 {
        4
    } else if b & 32 != 0 {
        5
    } else if b & 64 != 0 {
        6
    } else if b & 128 != 0 {
        7
    } else {
        8
    };
    if mode == 8 {
        proof {
            assert(b & 1 == 0 && b & 2 == 0 && b & 4 == 0 && b & 8 == 0 && b & 16 == 0 && b & 32
                == 0 && b & 64 == 0 && b & 128 == 0 ==> b == 0) by (bit_vector);
        }
        return Err(Bc7Error::InvalidBc7BlockMode(b));
    }
    if mode == 0 || mode == 2 {
        return Err(Bc7Error::UnimplementedBc7BlockMode(mode));
    }
    let mut bit_offset: usize = 0;
    if mode == 1 || mode == 3 || mode == 7 {
        Ok(decode_mode_1_3_7(data, mode, &mut bit_offset))
    } else if mode == 4 || mode == 5 {
        Ok(decode_mode_4_5(data, mode, &mut bit_offset))
    } else {
        Ok(decode_mode_6(data, &mut bit_offset))
    }
}

} // verus!

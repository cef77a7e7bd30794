//! Tests for the forward-only, counter-based XOR reader.

use gust_assets::stream::ByteCursor;
use gust_assets::xor_forward::XorReader;

#[test]
fn utils_read_text() {
    let cursor = ByteCursor::new(b"Hello, world!".to_vec());
    let mut reader = XorReader::new(cursor, &[0x12, 0x34, 0x56, 0x78]);
    let buf = reader.read(13);
    assert_eq!(
        buf,
        vec![0x5a, 0x51, 0x3a, 0x14, 0x7d, 0x18, 0x76, 0x0f, 0x7d, 0x46, 0x3a, 0x1c, 0x33]
    );
}

/// Tests that the reader can correctly `read` chunks that are not divisible
/// by the key length.
#[test]
fn utils_read_text_unaligned_chunks() {
    let cursor = ByteCursor::new(b"Hello, world!".to_vec());
    let mut reader = XorReader::new(cursor, &[0x12, 0x34, 0x56, 0x78]);

    let mut buf: Vec<u8> = Vec::new();
    let chunk = reader.read(3);
    assert_eq!(chunk.len(), 3);
    buf.extend_from_slice(&chunk);
    let chunk = reader.read(5);
    assert_eq!(chunk.len(), 5);
    buf.extend_from_slice(&chunk);
    let chunk = reader.read(2);
    assert_eq!(chunk.len(), 2);
    buf.extend_from_slice(&chunk);
    let chunk = reader.read(3);
    assert_eq!(chunk.len(), 3);
    buf.extend_from_slice(&chunk);

    assert_eq!(
        buf,
        vec![0x5a, 0x51, 0x3a, 0x14, 0x7d, 0x18, 0x76, 0x0f, 0x7d, 0x46, 0x3a, 0x1c, 0x33]
    );
}

/// A short read past the end of the data yields only what the data holds,
/// and the counter keeps the keystream aligned for it.
#[test]
fn utils_read_past_end_is_short() {
    let cursor = ByteCursor::new(b"Hi".to_vec());
    let mut reader = XorReader::new(cursor, &[0x01, 0x02]);
    let buf = reader.read(5);
    assert_eq!(buf, vec![b'H' ^ 0x01, b'i' ^ 0x02]);
    let buf = reader.read(1);
    assert_eq!(buf.len(), 0);
}

//! Tests for the seekable, position-based XOR reader.

use gust_assets::stream::{ByteCursor, SeekFrom, Stream};
use gust_assets::xor_reader::XorReader;

const EXPECTED: [u8; 13] = [
    0x5a, 0x51, 0x3a, 0x14, 0x7d, 0x18, 0x76, 0x0f, 0x7d, 0x46, 0x3a, 0x1c, 0x33,
];

#[test]
fn xor_reader_read_text() {
    let cursor = ByteCursor::new(b"Hello, world!".to_vec());
    let mut reader = XorReader::new(cursor, &[0x12, 0x34, 0x56, 0x78]);
    let buf = reader.read(13);
    assert_eq!(buf, EXPECTED.to_vec());
}

/// Tests that the reader can correctly `read` chunks that are not divisible
/// by the key length.
#[test]
fn xor_reader_read_text_unaligned_chunks() {
    let cursor = ByteCursor::new(b"Hello, world!".to_vec());
    let mut reader = XorReader::new(cursor, &[0x12, 0x34, 0x56, 0x78]);

    let mut buf: Vec<u8> = Vec::new();
    let chunk = reader.read(3);
    assert_eq!(chunk.len(), 3);
    buf.extend_from_slice(&chunk);
    let chunk = reader.read(5);
    assert_eq!(chunk.len(), 5);
    buf.extend_from_slice(&chunk);
    let chunk = reader.read(2);
    assert_eq!(chunk.len(), 2);
    buf.extend_from_slice(&chunk);
    let chunk = reader.read(3);
    assert_eq!(chunk.len(), 3);
    buf.extend_from_slice(&chunk);

    assert_eq!(buf, EXPECTED.to_vec());
}

/// Tests that the reader can correctly `seek` around and still correctly
/// decrypt the data.
#[test]
fn read_text_unaligned_chunks_seek() {
    let cursor = ByteCursor::new(b"Hello, world!".to_vec());
    let mut reader = XorReader::new(cursor, &[0x12, 0x34, 0x56, 0x78]);

    let mut buf = vec![0u8; 13];

    let sought_to = reader.seek(SeekFrom::Start(3)).unwrap();
    assert_eq!(sought_to, 3);
    let chunk = reader.read(5);
    assert_eq!(chunk.len(), 5);
    buf[3..8].copy_from_slice(&chunk);

    let sought_to = reader.seek(SeekFrom::End(-3)).unwrap();
    assert_eq!(sought_to, 10);
    let chunk = reader.read(3);
    assert_eq!(chunk.len(), 3);
    buf[10..13].copy_from_slice(&chunk);

    let sought_to = reader.seek(SeekFrom::Current(-13)).unwrap();
    assert_eq!(sought_to, 0);
    let chunk = reader.read(3);
    assert_eq!(chunk.len(), 3);
    buf[0..3].copy_from_slice(&chunk);

    let sought_to = reader.seek(SeekFrom::Current(5)).unwrap();
    assert_eq!(sought_to, 8);
    let chunk = reader.read(2);
    assert_eq!(chunk.len(), 2);
    buf[8..10].copy_from_slice(&chunk);

    assert_eq!(buf, EXPECTED.to_vec());
}

/// Ensure a reader that doesn't start at position 0 is still correctly
/// decrypted.
#[test]
fn read_text_unaligned_chunks_nonzero_start() {
    let mut cursor = ByteCursor::new(b"Hello, world!".to_vec());
    cursor.seek(SeekFrom::Start(6)).unwrap();

    let mut reader = XorReader::new(cursor, &[0x12, 0x34, 0x56, 0x78]);
    reader.seek(SeekFrom::Start(0)).unwrap();

    let buf = reader.read(13);
    assert_eq!(buf, EXPECTED.to_vec());
}

/// Decrypting an encrypting reader gives the plaintext back, whatever the
/// chunking and however the reads interleave with seeks.
#[test]
fn xor_reader_round_trip() {
    let plain = b"The quick brown fox jumps over!".to_vec();
    let key = [0x07u8, 0x01, 0xff, 0x83, 0x19];
    let enc = XorReader::new(ByteCursor::new(plain.clone()), &key);
    let mut dec = XorReader::new(enc, &key);

    let mut buf: Vec<u8> = Vec::new();
    let chunk = dec.read(4);
    buf.extend_from_slice(&chunk);
    let chunk = dec.read(9);
    buf.extend_from_slice(&chunk);
    let chunk = dec.read(100);
    buf.extend_from_slice(&chunk);
    assert_eq!(buf, plain);

    dec.seek(SeekFrom::Start(10)).unwrap();
    let chunk = dec.read(5);
    assert_eq!(chunk, plain[10..15].to_vec());
}

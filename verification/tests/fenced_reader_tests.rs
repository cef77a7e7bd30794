//! Tests for the fenced reader: a `[start, end)` window over a stream.

use gust_assets::fenced_reader::FencedReader;
use gust_assets::stream::{read_exact, ByteCursor, SeekFrom, Stream};

/// Returns a fence over the middle of a buffer.
fn get_buffer() -> FencedReader<ByteCursor> {
    let mut cursor = ByteCursor::new(b"__Hello, world!__".to_vec());
    cursor.seek(SeekFrom::Start(2)).unwrap();
    FencedReader::take(cursor, 13).unwrap()
}

#[test]
fn read_entire_buffer() {
    let mut reader = get_buffer();
    let buf = reader.read(13);
    assert_eq!(buf, b"Hello, world!".to_vec());
}

#[test]
fn read_past_end() {
    let mut reader = get_buffer();
    let result = read_exact(&mut reader, 14);
    assert!(result.is_err());
}

#[test]
fn seek_to_end_and_read() {
    let mut reader = get_buffer();
    reader.seek(SeekFrom::End(0)).unwrap();
    let result = read_exact(&mut reader, 1);
    assert!(result.is_err());
}

#[test]
fn seek_inside_buffer_forwards_from_start() {
    let mut reader = get_buffer();
    reader.seek(SeekFrom::Start(7)).unwrap();
    let buf = reader.read(6);
    assert_eq!(buf, b"world!".to_vec());
}

#[test]
fn seek_inside_buffer_backwards_from_end() {
    let mut reader = get_buffer();
    reader.seek(SeekFrom::End(-6)).unwrap();
    let buf = reader.read(6);
    assert_eq!(buf, b"world!".to_vec());
}

#[test]
fn seek_inside_buffer_forwards_from_current() {
    let mut reader = get_buffer();
    reader.seek(SeekFrom::Current(7)).unwrap();
    let buf = reader.read(6);
    assert_eq!(buf, b"world!".to_vec());
}

#[test]
fn seek_inside_buffer_backwards_from_current() {
    let mut reader = get_buffer();
    reader.seek(SeekFrom::End(0)).unwrap();
    reader.seek(SeekFrom::Current(-6)).unwrap();
    let buf = reader.read(6);
    assert_eq!(buf, b"world!".to_vec());
}

#[test]
fn seek_outside_buffer_forwards_from_start() {
    let mut reader = get_buffer();
    let result = reader.seek(SeekFrom::Start(14));
    assert!(result.is_err());
}

#[test]
fn seek_outside_buffer_backwards_from_end() {
    let mut reader = get_buffer();
    let result = reader.seek(SeekFrom::End(-14));
    assert!(result.is_err());
}

#[test]
fn seek_outside_buffer_forwards_from_current() {
    let mut reader = get_buffer();
    let result = reader.seek(SeekFrom::Current(14));
    assert!(result.is_err());
}

#[test]
fn seek_outside_buffer_backwards_from_current() {
    let mut reader = get_buffer();
    let result = reader.seek(SeekFrom::Current(-14));
    assert!(result.is_err());
}

#[test]
fn seek_response_is_correct() {
    let mut reader = get_buffer();
    assert_eq!(
        reader.seek(SeekFrom::Start(0)).unwrap(),
        0,
        "seeking to start must return 0"
    );
    assert_eq!(reader.seek(SeekFrom::End(0)).unwrap(), 13);
}

/// A seek one past the end fails; a seek exactly to the end succeeds and
/// the next read returns no bytes.
#[test]
fn seek_boundary_is_exact() {
    let mut reader = get_buffer();
    assert!(reader.seek(SeekFrom::Start(14)).is_err());
    assert_eq!(reader.seek(SeekFrom::Start(13)).unwrap(), 13);
    let buf = reader.read(1);
    assert_eq!(buf.len(), 0);
}

/// The window never shows bytes outside `[start, end)`: position 0 is the
/// window start, and reading the whole window returns exactly its contents.
#[test]
fn window_shows_only_its_bytes() {
    let mut reader = get_buffer();
    reader.seek(SeekFrom::Start(0)).unwrap();
    let buf = reader.read(100);
    assert_eq!(buf, b"Hello, world!".to_vec());
}

/// A fence reaching past the end of the data reads short but still reports
/// its declared size.
#[test]
fn window_past_data_reads_short() {
    let cursor = ByteCursor::new(b"abc".to_vec());
    let mut reader = FencedReader::take(cursor, 10).unwrap();
    assert_eq!(reader.seek(SeekFrom::End(0)).unwrap(), 10);
    reader.seek(SeekFrom::Start(0)).unwrap();
    let buf = reader.read(10);
    assert_eq!(buf, b"abc".to_vec());
}

//! Tests for the PAK index parser and the per-entry payload readers.

use gust_assets::common::GameVersion;
use gust_assets::pak::{GustPak, PakReadError};
use gust_assets::stream::{ByteCursor, Stream, StreamError};

/// XORs `data` with `key` repeated from its start.
fn xor_tile(data: &[u8], key: &[u8]) -> Vec<u8> {
    data.iter()
        .enumerate()
        .map(|(i, b)| b ^ key[i % key.len()])
        .collect()
}

/// The 16-byte PAK header.
fn header(file_count: u32) -> Vec<u8> {
    let mut out = Vec::new();
    out.extend_from_slice(&0x20000u32.to_le_bytes());
    out.extend_from_slice(&file_count.to_le_bytes());
    out.extend_from_slice(&16u32.to_le_bytes());
    out.extend_from_slice(&0u32.to_le_bytes());
    out
}

/// A 128-byte name buffer holding a NUL-terminated name.
fn name_buffer(name: &str) -> Vec<u8> {
    let mut buf = vec![0u8; 128];
    buf[..name.len()].copy_from_slice(name.as_bytes());
    buf
}

/// An A24 archive with one 13-byte file named `hello.txt`, its file key all
/// zeroes, so the effective keystream is the archive key itself.
fn a24_archive() -> Vec<u8> {
    let archive_key = b"fyrixtT9AhA4v0cFahgMcgVwxFrry42A";
    let mut file = header(1);
    file.extend_from_slice(&xor_tile(&name_buffer("hello.txt"), archive_key));
    file.extend_from_slice(&13u32.to_le_bytes());
    file.extend_from_slice(&[0u8; 32]);
    file.extend_from_slice(&0u32.to_le_bytes());
    file.extend_from_slice(&0u64.to_le_bytes());
    file.extend_from_slice(&0u64.to_le_bytes());
    file.extend_from_slice(&xor_tile(b"Hello, world!", archive_key));
    file
}

#[test]
fn pak_file_count_zero_parses_empty() {
    let mut cursor = ByteCursor::new(header(0));
    let pak = GustPak::read_index(&mut cursor, GameVersion::A17).unwrap();
    assert_eq!(pak.entries.len(), 0);
    assert!(pak.entries.is_empty());
    assert_eq!(pak.entries.iter().len(), 0);
    assert_eq!(pak.entries().len(), 0);
    assert_eq!(pak.get_data_start(), 16);
}

#[test]
fn pak_rejects_wrong_version() {
    let mut bytes = header(0);
    bytes[0] = 1;
    let mut cursor = ByteCursor::new(bytes);
    let err = GustPak::read_index(&mut cursor, GameVersion::A17).unwrap_err();
    assert_eq!(err, PakReadError::InvalidHeaderVersion(0x20001));
}

#[test]
fn pak_rejects_wrong_header_size() {
    let mut bytes = header(0);
    bytes[8] = 12;
    let mut cursor = ByteCursor::new(bytes);
    let err = GustPak::read_index(&mut cursor, GameVersion::A17).unwrap_err();
    assert_eq!(err, PakReadError::InvalidHeaderSize(12));
}

#[test]
fn pak_rejects_too_many_files() {
    let mut cursor = ByteCursor::new(header(0x10001));
    let err = GustPak::read_index(&mut cursor, GameVersion::A17).unwrap_err();
    assert_eq!(err, PakReadError::TooManyFiles(0x10001));
}

#[test]
fn pak_rejects_short_header() {
    let mut cursor = ByteCursor::new(vec![0u8; 8]);
    let err = GustPak::read_index(&mut cursor, GameVersion::A17).unwrap_err();
    assert_eq!(err, PakReadError::IoError(StreamError::ShortRead));
}

#[test]
fn pak_rejects_truncated_entry_table() {
    let mut bytes = header(1);
    bytes.extend_from_slice(&[0u8; 40]);
    let mut cursor = ByteCursor::new(bytes);
    let err = GustPak::read_index(&mut cursor, GameVersion::A17).unwrap_err();
    assert_eq!(err, PakReadError::IoError(StreamError::ShortRead));
}

#[test]
fn pak_a24_extracts_exact_file() {
    let bytes = a24_archive();
    let mut cursor = ByteCursor::new(bytes.clone());
    let pak = GustPak::read_index(&mut cursor, GameVersion::A24).unwrap();
    assert_eq!(pak.entries.len(), 1);
    assert_eq!(pak.get_data_start(), 16 + 184);

    let entries = pak.entries.iter();
    let entry = &entries[0];
    assert_eq!(entry.get_file_name(), "hello.txt");
    assert_eq!(entry.get_file_size(), 13);

    let mut reader = entry
        .get_reader(ByteCursor::new(bytes.clone()), &pak, GameVersion::A24)
        .unwrap();
    let plain = reader.read(13);
    assert_eq!(plain, b"Hello, world!".to_vec());
    let rest = reader.read(1);
    assert_eq!(rest.len(), 0, "the reader is bounded by the entry size");
}

#[test]
fn pak_a21_two_entries_iterate_in_order() {
    let fk1 = [1u8; 20];
    let fk2 = [2u8; 20];
    let mut file = header(2);
    // entry "a.bin": 5 bytes at payload offset 0
    file.extend_from_slice(&xor_tile(&name_buffer("a.bin"), &fk1));
    file.extend_from_slice(&5u32.to_le_bytes());
    file.extend_from_slice(&fk1);
    file.extend_from_slice(&0u64.to_le_bytes());
    file.extend_from_slice(&0u64.to_le_bytes());
    // entry "b.bin": 7 bytes at payload offset 5
    file.extend_from_slice(&xor_tile(&name_buffer("b.bin"), &fk2));
    file.extend_from_slice(&7u32.to_le_bytes());
    file.extend_from_slice(&fk2);
    file.extend_from_slice(&5u64.to_le_bytes());
    file.extend_from_slice(&0u64.to_le_bytes());
    let payload_len = file.len();
    file.extend_from_slice(&xor_tile(b"AAAAA", &fk1));
    file.extend_from_slice(&xor_tile(b"BBBBBBB", &fk2));
    let payload_len = file.len() - payload_len;

    let mut cursor = ByteCursor::new(file.clone());
    let pak = GustPak::read_index(&mut cursor, GameVersion::A21).unwrap();
    assert_eq!(pak.entries.len(), 2);

    let entries = pak.entries.iter();
    assert_eq!(entries[0].get_file_name(), "a.bin");
    assert_eq!(entries[1].get_file_name(), "b.bin");
    let total = entries[0].get_file_size() as usize + entries[1].get_file_size() as usize;
    assert_eq!(total, payload_len, "sizes sum to the payload length");

    let mut r0 = entries[0]
        .get_reader(ByteCursor::new(file.clone()), &pak, GameVersion::A21)
        .unwrap();
    assert_eq!(r0.read(5), b"AAAAA".to_vec());
    let mut r1 = entries[1]
        .get_reader(ByteCursor::new(file.clone()), &pak, GameVersion::A21)
        .unwrap();
    assert_eq!(r1.read(7), b"BBBBBBB".to_vec());
}

/// A name buffer with no NUL terminator is rejected.
#[test]
fn pak_rejects_name_without_terminator() {
    let mut file = header(1);
    file.extend_from_slice(&[0xFFu8; 128]);
    file.extend_from_slice(&0u32.to_le_bytes());
    file.extend_from_slice(&[0u8; 20]);
    file.extend_from_slice(&0u32.to_le_bytes());
    file.extend_from_slice(&0u32.to_le_bytes());
    let mut cursor = ByteCursor::new(file);
    let err = GustPak::read_index(&mut cursor, GameVersion::A17).unwrap_err();
    assert_eq!(err, PakReadError::CStringFromBytesUntilNullError);
}

/// A name holding a byte outside the ASCII range is rejected.
#[test]
fn pak_rejects_non_ascii_name() {
    let mut name = [0u8; 128];
    name[0] = 0x90;
    let mut file = header(1);
    file.extend_from_slice(&name);
    file.extend_from_slice(&0u32.to_le_bytes());
    file.extend_from_slice(&[0u8; 20]);
    file.extend_from_slice(&0u32.to_le_bytes());
    file.extend_from_slice(&0u32.to_le_bytes());
    let mut cursor = ByteCursor::new(file);
    let err = GustPak::read_index(&mut cursor, GameVersion::A17).unwrap_err();
    assert_eq!(err, PakReadError::Utf8Error);
}

/// Opening an archive with the wrong generation must fail cleanly or yield
/// garbage, never panic.
#[test]
fn pak_wrong_generation_does_not_panic() {
    let bytes = a24_archive();
    for version in GameVersion::all() {
        let mut cursor = ByteCursor::new(bytes.clone());
        match GustPak::read_index(&mut cursor, version) {
            Ok(pak) => {
                let _ = pak.entries.len();
            }
            Err(_) => {}
        }
    }
}

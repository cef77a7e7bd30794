//! Verified readers and decoders for a family of game-asset container
//! formats: encrypted PAK archives and the block-compressed textures they
//! carry.
//!
//! The PAK index parser reads a fixed header and a generation-dependent
//! entry table, decrypting each entry's name; per-entry payloads are read
//! through a fenced, XOR-decrypting stream whose keystream follows the
//! stream position across seeks. The BC7 decoder turns 16-byte blocks into
//! 4×4 RGBA8 tiles across modes 1, 3, 4, 5, 6 and 7.

pub mod bc1;
pub mod bc3;
pub mod bc7;
pub mod bc7_blocks;
pub mod bc7_tables;
pub mod common;
pub mod dds;
pub mod dds_util;
pub mod fenced_reader;
pub mod g1t;
pub mod pak;
pub mod stream;
pub mod xor_forward;
pub mod xor_reader;

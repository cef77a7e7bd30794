//! The PAK archive index: a fixed header, a table of entries whose binary
//! shape depends on the game generation, and a payload region that follows
//! the table.
//!
//! Entry names are stored encrypted; the effective keystream for a file is
//! the archive key (all zeroes when the generation has none) XOR-combined
//! with the file key, truncated to the file key's length.

use vstd::prelude::*;
use crate::common::GameVersion;
use crate::fenced_reader::{FencedReader, fence_window};
use crate::stream::{SeekFrom, Stream, StreamError, le32_at, le64_at, read_exact, read_u32_le, read_u64_le};
use crate::xor_reader::{XorReader, xor_seq};

verus! {

/// The ways reading a PAK index can fail.
#[derive(Debug, Clone, Copy, PartialEq, Eq, Structural)]
pub enum PakReadError {
    /// The stream ended early or refused a seek.
    IoError(StreamError),
    /// A decrypted file name held a byte outside the ASCII range.
    Utf8Error,
    /// A decrypted file name had no NUL terminator in its 128-byte buffer.
    CStringFromBytesUntilNullError,
    /// The header's version word was not `0x20000`.
    InvalidHeaderVersion(u32),
    /// The header's size word was not 16.
    InvalidHeaderSize(u32),
    /// The header declared more than 65,536 files.
    TooManyFiles(u32),
}

/// The three entry-table shapes, selected by game generation.
#[derive(Debug, Clone, Copy, PartialEq, Eq, Structural)]
pub enum PakEntryType {
    /// 128-byte name, 32-bit size, 20-byte key, 32-bit offset and flags.
    Entry32,
    /// Like `Entry32` but with 64-bit offset and flags.
    Entry64,
    /// 128-byte name, 32-bit size, 32-byte key, 32-bit extra, 64-bit offset and flags.
    Entry64Ext,
}

/// The number of bytes one entry record of shape `t` occupies.
pub open spec fn entry_record_size(t: PakEntryType) -> int {
    match t {
        PakEntryType::Entry32 => 160,
        PakEntryType::Entry64 => 168,
        PakEntryType::Entry64Ext => 184,
    }
}

/// The length of the file key in an entry record of shape `t`.
pub open spec fn entry_key_len(t: PakEntryType) -> int {
    match t {
        PakEntryType::Entry32 => 20,
        PakEntryType::Entry64 => 20,
        PakEntryType::Entry64Ext => 32,
    }
}

/// The entry shape each generation writes.
pub open spec fn spec_pak_type(v: GameVersion) -> PakEntryType {
    match v {
        GameVersion::A17 => PakEntryType::Entry32,
        GameVersion::A18 | GameVersion::A19 | GameVersion::A21 => PakEntryType::Entry64,
        GameVersion::A22 | GameVersion::A23 | GameVersion::A24 => PakEntryType::Entry64Ext,
    }
}

/// The 32-byte archive key of each generation, present only for the newest
/// two. The bytes spell the ASCII strings `dGGKXLHLuCJwv8aBc3YQX6X6sREVPchs`
/// (A23) and `fyrixtT9AhA4v0cFahgMcgVwxFrry42A` (A24).
pub open spec fn spec_pak_key(v: GameVersion) -> Option<Seq<u8>> {
    match v {
        GameVersion::A23 => Some(
            seq![
                0x64u8, 0x47, 0x47, 0x4B, 0x58, 0x4C, 0x48, 0x4C, 0x75, 0x43, 0x4A, 0x77, 0x76,
                0x38, 0x61, 0x42, 0x63, 0x33, 0x59, 0x51, 0x58, 0x36, 0x58, 0x36, 0x73, 0x52,
                0x45, 0x56, 0x50, 0x63, 0x68, 0x73,
            ],
        ),
        GameVersion::A24 => Some(
            seq![
                0x66u8, 0x79, 0x72, 0x69, 0x78, 0x74, 0x54, 0x39, 0x41, 0x68, 0x41, 0x34, 0x76,
                0x30, 0x63, 0x46, 0x61, 0x68, 0x67, 0x4D, 0x63, 0x67, 0x56, 0x77, 0x78, 0x46,
                0x72, 0x72, 0x79, 0x34, 0x32, 0x41,
            ],
        ),
        _ => None,
    }
}

/// A 32-byte all-zero key, standing in when a generation has no archive key.
pub open spec fn zero_key() -> Seq<u8> {
    Seq::new(32, |i: int| 0u8)
}

/// The archive key that name decryption uses: the generation's key, or zeroes.
pub open spec fn spec_arch_key(v: GameVersion) -> Seq<u8> {
    match spec_pak_key(v) {
        Some(k) => k,
        None => zero_key(),
    }
}

/// The effective keystream for a file: archive key XOR file key, truncated to
/// the file key's length.
pub open spec fn spec_eff_key(pak_key: Seq<u8>, file_key: Seq<u8>) -> Seq<u8>
    recommends
        file_key.len() <= pak_key.len(),
{
    Seq::new(file_key.len(), |i: int| pak_key[i] ^ file_key[i])
}

/// The index of the first NUL at or after `i` in `b`, or `b.len()` if none.
pub open spec fn spec_first_nul(b: Seq<u8>, i: int) -> int
    recommends
        0 <= i <= b.len(),
    decreases b.len() - i,
{
    if i < 0 || i >= b.len() {
        b.len() as int
    } else if b[i] == 0 {
        i
    } else {
        spec_first_nul(b, i + 1)
    }
}

/// Whether the first `end` bytes of `b` all lie in the ASCII range.
pub open spec fn ascii_prefix_ok(b: Seq<u8>, end: int) -> bool {
    forall|i: int| 0 <= i < end ==> b[i] < 0x80
}

/// What one parsed entry holds, with the name already decrypted.
pub struct PakEntryModel {
    /// The decrypted, NUL-terminated file name.
    pub name: Seq<char>,
    /// The payload size in bytes.
    pub size: u32,
    /// The file key, 20 or 32 bytes by shape.
    pub key: Seq<u8>,
    /// The extra word of the extended shape; zero elsewhere.
    pub extra: u32,
    /// The payload offset, relative to the start of the payload region.
    pub offset: u64,
    /// The entry's flag word, preserved but uninterpreted.
    pub flags: u64,
}

/// The outcome of parsing one entry record of shape `t` at offset `p` of `s`,
/// with names decrypted through archive key `pak_key`.
pub open spec fn spec_parse_entry(
    s: Seq<u8>,
    p: int,
    t: PakEntryType,
    pak_key: Seq<u8>,
) -> Result<PakEntryModel, PakReadError> {
    let kl = entry_key_len(t);
    if s.len() < p + entry_record_size(t) {
        Err(PakReadError::IoError(StreamError::ShortRead))
    } else {
        let cipher = s.subrange(p, p + 128);
        let fkey = s.subrange(p + 132, p + 132 + kl);
        let dec = xor_seq(cipher, spec_eff_key(pak_key, fkey));
        let nul = spec_first_nul(dec, 0);
        if nul >= 128 {
            Err(PakReadError::CStringFromBytesUntilNullError)
        } else if !ascii_prefix_ok(dec, nul) {
            Err(PakReadError::Utf8Error)
        } else {
            Ok(
                PakEntryModel {
                    name: Seq::new(nul as nat, |i: int| dec[i] as char),
                    size: le32_at(s, p + 128) as u32,
                    key: fkey,
                    extra: if t is Entry64Ext {
                        le32_at(s, p + 164) as u32
                    } else {
                        0
                    },
                    offset: match t {
                        PakEntryType::Entry32 => le32_at(s, p + 152) as u64,
                        PakEntryType::Entry64 => le64_at(s, p + 152) as u64,
                        PakEntryType::Entry64Ext => le64_at(s, p + 168) as u64,
                    },
                    flags: match t {
                        PakEntryType::Entry32 => le32_at(s, p + 156) as u64,
                        PakEntryType::Entry64 => le64_at(s, p + 160) as u64,
                        PakEntryType::Entry64Ext => le64_at(s, p + 176) as u64,
                    },
                },
            )
        }
    }
}

/// The outcome of parsing `n` consecutive entry records starting at `p`.
pub open spec fn spec_parse_entries(
    s: Seq<u8>,
    p: int,
    n: int,
    t: PakEntryType,
    pak_key: Seq<u8>,
) -> Result<Seq<PakEntryModel>, PakReadError>
    decreases n,
{
    if n <= 0 {
        Ok(Seq::empty())
    } else {
        match spec_parse_entry(s, p, t, pak_key) {
            Err(e) => Err(e),
            Ok(e0) => match spec_parse_entries(s, p + entry_record_size(t), n - 1, t, pak_key) {
                Err(e) => Err(e),
                Ok(rest) => Ok(seq![e0] + rest),
            },
        }
    }
}

/// The outcome of parsing the fixed 16-byte header at the start of `s`:
/// the file count and the preserved flag word.
pub open spec fn spec_parse_header(s: Seq<u8>) -> Result<(u32, u32), PakReadError> {
    if s.len() < 16 {
        Err(PakReadError::IoError(StreamError::ShortRead))
    } else if le32_at(s, 0) != 0x20000 {
        Err(PakReadError::InvalidHeaderVersion(le32_at(s, 0) as u32))
    } else if le32_at(s, 8) != 16 {
        Err(PakReadError::InvalidHeaderSize(le32_at(s, 8) as u32))
    } else if le32_at(s, 4) > 0x10000 {
        Err(PakReadError::TooManyFiles(le32_at(s, 4) as u32))
    } else {
        Ok((le32_at(s, 4) as u32, le32_at(s, 12) as u32))
    }
}

/// What a fully parsed index holds.
pub struct PakIndexModel {
    /// The header's file count.
    pub file_count: u32,
    /// The header's flag word.
    pub flags: u32,
    /// The parsed entries, in table order.
    pub entries: Seq<PakEntryModel>,
    /// Where the payload region begins: right after the entry table.
    pub data_start: int,
}

/// The outcome of reading a whole index from the bytes `s` for generation `v`.
pub open spec fn spec_read_index(s: Seq<u8>, v: GameVersion) -> Result<
    PakIndexModel,
    PakReadError,
> {
    let t = spec_pak_type(v);
    match spec_parse_header(s) {
        Err(e) => Err(e),
        Ok((fc, flags)) => match spec_parse_entries(s, 16, fc as int, t, spec_arch_key(v)) {
            Err(e) => Err(e),
            Ok(es) => Ok(
                PakIndexModel {
                    file_count: fc,
                    flags,
                    entries: es,
                    data_start: 16 + fc * entry_record_size(t),
                },
            ),
        },
    }
}

/// Entries parsed one record at a time, each succeeding, amount to a parse
/// of the whole table.
proof fn lemma_parse_entries_ok(
    s: Seq<u8>,
    p: int,
    n: int,
    t: PakEntryType,
    pak_key: Seq<u8>,
    ms: Seq<PakEntryModel>,
)
    requires
        n >= 0,
        ms.len() == n,
        forall|k: int|
            0 <= k < n ==> #[trigger] spec_parse_entry(s, p + k * entry_record_size(t), t, pak_key)
                == Ok::<PakEntryModel, PakReadError>(ms[k]),
    ensures
        spec_parse_entries(s, p, n, t, pak_key) == Ok::<Seq<PakEntryModel>, PakReadError>(ms),
    decreases n,
{
    let esz = entry_record_size(t);
    if n == 0 {
        assert(ms =~= Seq::<PakEntryModel>::empty());
    } else {
        assert(spec_parse_entry(s, p + 0 * esz, t, pak_key) == Ok::<PakEntryModel, PakReadError>(
            ms[0],
        ));
        let tail = ms.drop_first();
        assert forall|k: int| 0 <= k < n - 1 implies #[trigger] spec_parse_entry(
            s,
            (p + esz) + k * esz,
            t,
            pak_key,
        ) == Ok::<PakEntryModel, PakReadError>(tail[k]) by {
            assert(spec_parse_entry(s, p + (k + 1) * esz, t, pak_key)
                == Ok::<PakEntryModel, PakReadError>(ms[k + 1]));
            assert((p + esz) + k * esz == p + (k + 1) * esz) by (nonlinear_arith);
        }
        lemma_parse_entries_ok(s, p + esz, n - 1, t, pak_key, tail);
        assert(ms =~= seq![ms[0]] + tail);
    }
}

/// If the first `j` records parse and record `j` fails, the whole table
/// fails with record `j`'s error.
proof fn lemma_parse_entries_err(
    s: Seq<u8>,
    p: int,
    n: int,
    t: PakEntryType,
    pak_key: Seq<u8>,
    j: int,
    e: PakReadError,
)
    requires
        0 <= j < n,
        forall|k: int|
            0 <= k < j ==> #[trigger] spec_parse_entry(s, p + k * entry_record_size(t), t, pak_key)
                is Ok,
        spec_parse_entry(s, p + j * entry_record_size(t), t, pak_key) == Err::<
            PakEntryModel,
            PakReadError,
        >(e),
    ensures
        spec_parse_entries(s, p, n, t, pak_key) == Err::<Seq<PakEntryModel>, PakReadError>(e),
    decreases j,
{
    let esz = entry_record_size(t);
    if j == 0 {
        assert(spec_parse_entry(s, p + 0 * esz, t, pak_key) == Err::<PakEntryModel, PakReadError>(
            e,
        ));
    } else {
        assert(spec_parse_entry(s, p + 0 * esz, t, pak_key) is Ok);
        assert forall|k: int| 0 <= k < j - 1 implies #[trigger] spec_parse_entry(
            s,
            (p + esz) + k * esz,
            t,
            pak_key,
        ) is Ok by {
            assert(spec_parse_entry(s, p + (k + 1) * esz, t, pak_key) is Ok);
            assert((p + esz) + k * esz == p + (k + 1) * esz) by (nonlinear_arith);
        }
        assert((p + esz) + (j - 1) * esz == p + j * esz) by (nonlinear_arith);
        lemma_parse_entries_err(s, p + esz, n - 1, t, pak_key, j - 1, e);
    }
}

/// Builds the effective keystream for a file: the archive key (zeroes when
/// absent) XOR the file key, truncated to the file key's length.
fn eff_key_bytes(file_key: &Vec<u8>, pak_key: Option<&Vec<u8>>) -> (r: Vec<u8>)
    requires
        1 <= file_key@.len() <= 32,
        pak_key matches Some(k) ==> k@.len() == 32,
    ensures
        r@ == spec_eff_key(
            match pak_key {
                Some(k) => k@,
                None => zero_key(),
            },
            file_key@,
        ),
        r@.len() == file_key@.len(),
{
    let ghost arch: Seq<u8> = match pak_key {
        Some(k) => k@,
        None => zero_key(),
    };
    let kl = file_key.len();
    let mut eff: Vec<u8> = Vec::new();
    let mut i: usize = 0;
    while i < kl
        invariant
            kl == file_key@.len(),
            1 <= kl <= 32,
            pak_key matches Some(k) ==> k@.len() == 32 && arch == k@,
            pak_key is None ==> arch == zero_key(),
            i <= kl,
            eff@.len() == i as int,
            forall|j: int| 0 <= j < i as int ==> eff@[j] == (arch[j] ^ file_key@[j]),
        decreases kl - i,
    {
        let kb: u8 = match pak_key {
            Some(k) => k[i],
            None => 0,
        };
        let fb = file_key[i];
        eff.push(kb ^ fb);
        i = i + 1;
    }
    proof {
        assert(eff@ =~= spec_eff_key(arch, file_key@));
    }
    eff
}

/// Relies on `String::from_utf8`: bytes in the ASCII range decode to exactly
/// one character per byte, with the same code points.
#[verifier::external_body]
fn ascii_to_string(bytes: &Vec<u8>) -> (r: String)
    requires
        forall|i: int| 0 <= i < bytes@.len() ==> bytes@[i] < 0x80,
    ensures
        r@.len() == bytes@.len(),
        forall|i: int| 0 <= i < bytes@.len() ==> r@[i] == bytes@[i] as char,
{
    match String::from_utf8(bytes.clone()) {
        Ok(s) => s,
        Err(_) => String::new(),
    }
}

/// `spec_first_nul(b, 0)` is the position of the first zero byte, so a scan
/// that stopped at `j` with no zero before it has found that position.
proof fn lemma_first_nul_at(b: Seq<u8>, j: int)
    requires
        0 <= j <= b.len(),
        forall|k: int| 0 <= k < j ==> b[k] != 0,
        j < b.len() ==> b[j] == 0,
    ensures
        spec_first_nul(b, 0) == j,
{
    lemma_first_nul_from(b, j, 0);
}

proof fn lemma_first_nul_from(b: Seq<u8>, j: int, i: int)
    requires
        0 <= i <= j <= b.len(),
        forall|k: int| 0 <= k < j ==> b[k] != 0,
        j < b.len() ==> b[j] == 0,
    ensures
        spec_first_nul(b, i) == j,
    decreases j - i,
{
    if i < j {
        lemma_first_nul_from(b, j, i + 1);
    }
}

/// A representation of the contents of a .pak file. This does not include
/// the file data itself, but can be used to read the file data.
#[derive(Debug)]
pub struct GustPak {
    header: PakHeader,
    /// The file entries in the .pak file.
    pub entries: PakEntryList,
    /// The offset at which the payload region begins.
    data_start: u64,
}

impl View for GustPak {
    type V = PakIndexModel;

    closed spec fn view(&self) -> PakIndexModel {
        PakIndexModel {
            file_count: self.header.file_count,
            flags: self.header.flags,
            entries: self.entries@,
            data_start: self.data_start as int,
        }
    }
}

impl GustPak {
    /// Reads a .pak index from a stream positioned at its start: the
    /// validated header, then `file_count` records of the generation's
    /// shape, with each name decrypted.
    pub fn read_index<S: Stream>(reader: &mut S, game_version: GameVersion) -> (r: Result<
        GustPak,
        PakReadError,
    >)
        requires
            old(reader).inv(),
            old(reader).pos() == 0,
        ensures
            final(reader).inv(),
            final(reader).contents() == old(reader).contents(),
            final(reader).size() == old(reader).size(),
            final(reader).seek_bound() == old(reader).seek_bound(),
            match r {
                Ok(pak) => spec_read_index(old(reader).contents(), game_version) == Ok::<
                    PakIndexModel,
                    PakReadError,
                >(pak@) && final(reader).pos() == pak@.data_start,
                Err(e) => spec_read_index(old(reader).contents(), game_version) == Err::<
                    PakIndexModel,
                    PakReadError,
                >(e),
            },
    {
        let ghost c = old(reader).contents();
        let ghost sz = old(reader).size();
        let ghost bd = old(reader).seek_bound();
        let ghost t = spec_pak_type(game_version);
        let ghost arch = spec_arch_key(game_version);
        let pak_type = Self::get_pak_type(game_version);
        let pak_key = Self::get_pak_key(game_version);
        let header = match PakHeader::read(reader) {
            Ok(h) => h,
            Err(e) => {
                return Err(e);
            },
        };
        let fc = header.file_count;
        let entries = match pak_type {
            PakEntryType::Entry32 => {
                let mut v: Vec<Entry32> = Vec::new();
                let mut i: u32 = 0;
                while i < fc
                    invariant
                        c == old(reader).contents(),
                        sz == old(reader).size(),
                        bd == old(reader).seek_bound(),
                        reader.inv(),
                        reader.contents() == c,
                        reader.size() == sz,
                        reader.seek_bound() == bd,
                        t == PakEntryType::Entry32,
                        t == spec_pak_type(game_version),
                        arch == spec_arch_key(game_version),
                        arch == zero_key(),
                        spec_parse_header(c) == Ok::<(u32, u32), PakReadError>((fc, header.flags)),
                        i <= fc,
                        reader.pos() == 16 + (i as int) * 160,
                        v@.len() == i as int,
                        forall|k: int|
                            0 <= k < i as int ==> #[trigger] spec_parse_entry(
                                c,
                                16 + k * 160,
                                PakEntryType::Entry32,
                                zero_key(),
                            ) == Ok::<PakEntryModel, PakReadError>(v@[k]@),
                    decreases fc - i,
                {
                    let entry = match Entry32::read(reader) {
                        Ok(en) => en,
                        Err(e) => {
                            proof {
                                lemma_parse_entries_err(
                                    c,
                                    16,
                                    fc as int,
                                    PakEntryType::Entry32,
                                    zero_key(),
                                    i as int,
                                    e,
                                );
                            }
                            return Err(e);
                        },
                    };
                    v.push(entry);
                    i = i + 1;
                }
                let list = PakEntryList::Entry32(v);
                proof {
                    assert(list@.len() == fc as int);
                    assert forall|k: int| 0 <= k < fc as int implies #[trigger] spec_parse_entry(
                        c,
                        16 + k * 160,
                        t,
                        arch,
                    ) == Ok::<PakEntryModel, PakReadError>(list@[k]) by {
                        assert(list@[k] == v@[k]@);
                    }
                    lemma_parse_entries_ok(c, 16, fc as int, t, arch, list@);
                }
                list
            },
            PakEntryType::Entry64 => {
                let mut v: Vec<Entry64> = Vec::new();
                let mut i: u32 = 0;
                while i < fc
                    invariant
                        c == old(reader).contents(),
                        sz == old(reader).size(),
                        bd == old(reader).seek_bound(),
                        reader.inv(),
                        reader.contents() == c,
                        reader.size() == sz,
                        reader.seek_bound() == bd,
                        t == PakEntryType::Entry64,
                        t == spec_pak_type(game_version),
                        arch == spec_arch_key(game_version),
                        arch == zero_key(),
                        spec_parse_header(c) == Ok::<(u32, u32), PakReadError>((fc, header.flags)),
                        i <= fc,
                        reader.pos() == 16 + (i as int) * 168,
                        v@.len() == i as int,
                        forall|k: int|
                            0 <= k < i as int ==> #[trigger] spec_parse_entry(
                                c,
                                16 + k * 168,
                                PakEntryType::Entry64,
                                zero_key(),
                            ) == Ok::<PakEntryModel, PakReadError>(v@[k]@),
                    decreases fc - i,
                {
                    let entry = match Entry64::read(reader) {
                        Ok(en) => en,
                        Err(e) => {
                            proof {
                                lemma_parse_entries_err(
                                    c,
                                    16,
                                    fc as int,
                                    PakEntryType::Entry64,
                                    zero_key(),
                                    i as int,
                                    e,
                                );
                            }
                            return Err(e);
                        },
                    };
                    v.push(entry);
                    i = i + 1;
                }
                let list = PakEntryList::Entry64(v);
                proof {
                    assert(list@.len() == fc as int);
                    assert forall|k: int| 0 <= k < fc as int implies #[trigger] spec_parse_entry(
                        c,
                        16 + k * 168,
                        t,
                        arch,
                    ) == Ok::<PakEntryModel, PakReadError>(list@[k]) by {
                        assert(list@[k] == v@[k]@);
                    }
                    lemma_parse_entries_ok(c, 16, fc as int, t, arch, list@);
                }
                list
            },
            PakEntryType::Entry64Ext => {
                let mut v: Vec<Entry64Ext> = Vec::new();
                let mut i: u32 = 0;
                while i < fc
                    invariant
                        c == old(reader).contents(),
                        sz == old(reader).size(),
                        bd == old(reader).seek_bound(),
                        reader.inv(),
                        reader.contents() == c,
                        reader.size() == sz,
                        reader.seek_bound() == bd,
                        t == PakEntryType::Entry64Ext,
                        t == spec_pak_type(game_version),
                        arch == spec_arch_key(game_version),
                        pak_key matches Some(k) ==> k@.len() == 32 && arch == k@,
                        pak_key is None ==> arch == zero_key(),
                        spec_parse_header(c) == Ok::<(u32, u32), PakReadError>((fc, header.flags)),
                        i <= fc,
                        reader.pos() == 16 + (i as int) * 184,
                        v@.len() == i as int,
                        forall|k: int|
                            0 <= k < i as int ==> #[trigger] spec_parse_entry(
                                c,
                                16 + k * 184,
                                PakEntryType::Entry64Ext,
                                arch,
                            ) == Ok::<PakEntryModel, PakReadError>(v@[k]@),
                    decreases fc - i,
                {
                    let pk: Option<&Vec<u8>> = match &pak_key {
                        Some(k) => Some(k),
                        None => None,
                    };
                    let entry = match Entry64Ext::read(reader, pk) {
                        Ok(en) => en,
                        Err(e) => {
                            proof {
                                lemma_parse_entries_err(
                                    c,
                                    16,
                                    fc as int,
                                    PakEntryType::Entry64Ext,
                                    arch,
                                    i as int,
                                    e,
                                );
                            }
                            return Err(e);
                        },
                    };
                    v.push(entry);
                    i = i + 1;
                }
                let list = PakEntryList::Entry64Ext(v);
                proof {
                    assert(list@.len() == fc as int);
                    assert forall|k: int| 0 <= k < fc as int implies #[trigger] spec_parse_entry(
                        c,
                        16 + k * 184,
                        t,
                        arch,
                    ) == Ok::<PakEntryModel, PakReadError>(list@[k]) by {
                        assert(list@[k] == v@[k]@);
                    }
                    lemma_parse_entries_ok(c, 16, fc as int, t, arch, list@);
                }
                list
            },
        };
        proof {
            assert(spec_parse_entries(c, 16, fc as int, t, arch) == Ok::<
                Seq<PakEntryModel>,
                PakReadError,
            >(entries@));
        }
        let data_start = reader.position();
        let pak = GustPak { header, entries, data_start };
        proof {
            let m = spec_read_index(c, game_version);
            assert(m is Ok);
            assert(pak@.entries == m->Ok_0.entries);
            assert(pak@ == m->Ok_0);
        }
        Ok(pak)
    }

    /// The entry list, tied to the parse model's entries.
    pub fn entries(&self) -> (r: &PakEntryList)
        ensures
            r@ == self@.entries,
    {
        &self.entries
    }

    /// The offset at which the payload region begins.
    pub fn get_data_start(&self) -> (r: u64)
        ensures
            r as int == self@.data_start,
    {
        self.data_start
    }

    /// The entry shape the given generation writes.
    fn get_pak_type(version: GameVersion) -> (r: PakEntryType)
        ensures
            r == spec_pak_type(version),
    {
        match version {
            GameVersion::A17 => PakEntryType::Entry32,
            GameVersion::A18 | GameVersion::A19 | GameVersion::A21 => PakEntryType::Entry64,
            GameVersion::A22 | GameVersion::A23 | GameVersion::A24 => PakEntryType::Entry64Ext,
        }
    }

    /// Returns the key used to decrypt the .pak file. Only the newest two
    /// generations have one; the keys look like base64 but are interpreted as
    /// ASCII xor keys.
    fn get_pak_key(version: GameVersion) -> (r: Option<Vec<u8>>)
        ensures
            match r {
                Some(k) => spec_pak_key(version) == Some(k@) && k@.len() == 32,
                None => spec_pak_key(version) is None,
            },
    {
        match version {
            GameVersion::A17 | GameVersion::A18 | GameVersion::A19 | GameVersion::A21
                | GameVersion::A22 => None,
            GameVersion::A23 => {
                // "dGGKXLHLuCJwv8aBc3YQX6X6sREVPchs"
                let k: Vec<u8> = vec![
                    0x64, 0x47, 0x47, 0x4B, 0x58, 0x4C, 0x48, 0x4C, 0x75, 0x43, 0x4A, 0x77, 0x76,
                    0x38, 0x61, 0x42, 0x63, 0x33, 0x59, 0x51, 0x58, 0x36, 0x58, 0x36, 0x73, 0x52,
                    0x45, 0x56, 0x50, 0x63, 0x68, 0x73,
                ];
                proof {
                    assert(k@ =~= spec_pak_key(GameVersion::A23)->Some_0);
                }
                Some(k)
            },
            GameVersion::A24 => {
                // "fyrixtT9AhA4v0cFahgMcgVwxFrry42A"
                let k: Vec<u8> = vec![
                    0x66, 0x79, 0x72, 0x69, 0x78, 0x74, 0x54, 0x39, 0x41, 0x68, 0x41, 0x34, 0x76,
                    0x30, 0x63, 0x46, 0x61, 0x68, 0x67, 0x4D, 0x63, 0x67, 0x56, 0x77, 0x78, 0x46,
                    0x72, 0x72, 0x79, 0x34, 0x32, 0x41,
                ];
                proof {
                    assert(k@ =~= spec_pak_key(GameVersion::A24)->Some_0);
                }
                Some(k)
            },
        }
    }

    /// Decrypts some data in place with the effective keystream derived from
    /// the archive key (zeroes when absent) and the file key.
    fn decrypt(ciphertext: &mut Vec<u8>, file_key: &Vec<u8>, pak_key: Option<&Vec<u8>>)
        requires
            1 <= file_key@.len() <= 32,
            pak_key matches Some(k) ==> k@.len() == 32,
        ensures
            final(ciphertext)@ == xor_seq(
                old(ciphertext)@,
                spec_eff_key(
                    match pak_key {
                        Some(k) => k@,
                        None => zero_key(),
                    },
                    file_key@,
                ),
            ),
    {
        let ghost arch: Seq<u8> = match pak_key {
            Some(k) => k@,
            None => zero_key(),
        };
        let kl = file_key.len();
        let mut eff: Vec<u8> = Vec::new();
        let mut i: usize = 0;
        while i < kl
            invariant
                kl == file_key@.len(),
                1 <= kl <= 32,
                pak_key matches Some(k) ==> k@.len() == 32 && arch == k@,
                pak_key is None ==> arch == zero_key(),
                i <= kl,
                eff@.len() == i as int,
                forall|j: int| 0 <= j < i as int ==> eff@[j] == (arch[j] ^ file_key@[j]),
            decreases kl - i,
        {
            let kb: u8 = match pak_key {
                Some(k) => k[i],
                None => 0,
            };
            let fb = file_key[i];
            eff.push(kb ^ fb);
            i = i + 1;
        }
        proof {
            assert(eff@ =~= spec_eff_key(arch, file_key@));
        }
        let clen = ciphertext.len();
        let mut j: usize = 0;
        while j < clen
            invariant
                eff@ == spec_eff_key(arch, file_key@),
                eff@.len() == kl,
                1 <= kl <= 32,
                clen == ciphertext@.len(),
                j <= clen,
                forall|k: int|
                    0 <= k < j as int ==> ciphertext@[k] == (old(ciphertext)@[k] ^ eff@[k % (
                    kl as int)]),
                forall|k: int| j as int <= k < clen ==> ciphertext@[k] == old(ciphertext)@[k],
            decreases clen - j,
        {
            let idx = j % kl;
            let b = ciphertext[j];
            let kb = eff[idx];
            ciphertext[j] = b ^ kb;
            j = j + 1;
        }
        proof {
            assert(ciphertext@ =~= xor_seq(old(ciphertext)@, spec_eff_key(arch, file_key@)));
        }
    }
}

/// Every entry of a parsed table carries the key length its shape fixes,
/// so the composed payload reader can always be built from a parse.
pub proof fn lemma_parse_entries_key_len(
    s: Seq<u8>,
    p: int,
    n: int,
    t: PakEntryType,
    pak_key: Seq<u8>,
)
    requires
        p >= 0,
        spec_parse_entries(s, p, n, t, pak_key) is Ok,
    ensures
        forall|i: int|
            0 <= i < spec_parse_entries(s, p, n, t, pak_key)->Ok_0.len()
                ==> (#[trigger] spec_parse_entries(s, p, n, t, pak_key)->Ok_0[i]).key.len()
                == entry_key_len(t),
    decreases n,
{
    if n > 0 {
        lemma_parse_entries_key_len(s, p + entry_record_size(t), n - 1, t, pak_key);
        let head = spec_parse_entry(s, p, t, pak_key)->Ok_0;
        let rest = spec_parse_entries(s, p + entry_record_size(t), n - 1, t, pak_key)->Ok_0;
        assert(spec_parse_entries(s, p, n, t, pak_key)->Ok_0 == seq![head] + rest);
        assert(head.key.len() == entry_key_len(t));
        assert forall|i: int|
            0 <= i < (seq![head] + rest).len() implies (#[trigger] (seq![head] + rest)[i]).key.len()
            == entry_key_len(t) by {
            if i > 0 {
                assert((seq![head] + rest)[i] == rest[i - 1]);
            }
        }
    }
}

/// As [`lemma_parse_entries_key_len`], stated of a whole parsed index: the
/// key of every entry is 20 or 32 bytes, so `get_reader`'s key bound holds.
pub proof fn lemma_read_index_key_len(s: Seq<u8>, v: GameVersion)
    requires
        spec_read_index(s, v) is Ok,
    ensures
        forall|i: int|
            0 <= i < spec_read_index(s, v)->Ok_0.entries.len()
                ==> 1 <= (#[trigger] spec_read_index(s, v)->Ok_0.entries[i]).key.len() <= 32,
{
    let t = spec_pak_type(v);
    let fc = spec_parse_header(s)->Ok_0.0;
    lemma_parse_entries_key_len(s, 16, fc as int, t, spec_arch_key(v));
}

/// Extracting an entry of a valid archive yields its declared size with no
/// short read: when the payload window `[start, start + size)` lies inside
/// the archive bytes, the decrypting reader that `get_reader` composes
/// holds exactly `size` bytes, and one read of `size` bytes from its start
/// returns them all, whatever the key.
pub proof fn lemma_entry_reader_complete(file: Seq<u8>, start: int, size: int, key: Seq<u8>)
    requires
        0 <= start,
        0 <= size,
        start + size <= file.len(),
        1 <= key.len(),
    ensures
        xor_seq(fence_window(file, start, size), key).len() == size,
        crate::stream::read_len(size, 0, size) == size,
{
    assert(fence_window(file, start, size).len() == size);
}

/// For every generation and entry shape: each entry of a parsed index whose
/// payload window lies inside the archive bytes has a well-formed key, so
/// `get_reader` accepts it, and the reader it composes holds exactly the
/// entry's declared size, which one read returns in full.
pub proof fn lemma_parsed_entry_extraction(file: Seq<u8>, v: GameVersion, i: int)
    requires
        spec_read_index(file, v) is Ok,
        0 <= i < spec_read_index(file, v)->Ok_0.entries.len(),
        ({
            let m = spec_read_index(file, v)->Ok_0;
            m.data_start + m.entries[i].offset + m.entries[i].size <= file.len()
        }),
    ensures
        ({
            let m = spec_read_index(file, v)->Ok_0;
            let e = m.entries[i];
            &&& 1 <= e.key.len() <= 32
            &&& xor_seq(
                fence_window(file, m.data_start + e.offset, e.size as int),
                spec_eff_key(spec_arch_key(v), e.key),
            ).len() == e.size
            &&& crate::stream::read_len(e.size as int, 0, e.size as int) == e.size
        }),
{
    lemma_read_index_key_len(file, v);
    let m = spec_read_index(file, v)->Ok_0;
    let e = m.entries[i];
    let t = spec_pak_type(v);
    let fc = spec_parse_header(file)->Ok_0.0;
    assert(m.data_start == 16 + fc * entry_record_size(t));
    assert(fc * entry_record_size(t) >= 0) by (nonlinear_arith)
        requires
            fc >= 0 && entry_record_size(t) >= 0,
    ;
    lemma_entry_reader_complete(
        file,
        m.data_start + e.offset,
        e.size as int,
        spec_eff_key(spec_arch_key(v), e.key),
    );
}

/// A fenced window never shows bytes outside `[start, start + len)` of the
/// stream it wraps: every byte of the window is the underlying byte at the
/// corresponding absolute position.
pub proof fn lemma_fence_window_bytes(s: Seq<u8>, start: int, len: int)
    requires
        0 <= start,
        0 <= len,
    ensures
        fence_window(s, start, len).len() <= len,
        forall|i: int|
            0 <= i < fence_window(s, start, len).len() ==> #[trigger] fence_window(s, start, len)[i]
                == s[start + i],
{
}

/// Decrypts the fixed 128-byte name buffer of an entry and extracts its
/// NUL-terminated ASCII prefix.
fn decode_entry_name(
    name_bytes: &Vec<u8>,
    file_key: &Vec<u8>,
    pak_key: Option<&Vec<u8>>,
) -> (r: Result<String, PakReadError>)
    requires
        name_bytes@.len() == 128,
        1 <= file_key@.len() <= 32,
        pak_key matches Some(k) ==> k@.len() == 32,
    ensures
        ({
            let arch = match pak_key {
                Some(k) => k@,
                None => zero_key(),
            };
            let dec = xor_seq(name_bytes@, spec_eff_key(arch, file_key@));
            let nul = spec_first_nul(dec, 0);
            match r {
                Ok(s) => nul < 128 && ascii_prefix_ok(dec, nul) && s@.len() == nul && forall|i: int|
                    0 <= i < nul ==> s@[i] == dec[i] as char,
                Err(e) => (nul >= 128 && e == PakReadError::CStringFromBytesUntilNullError) || (nul
                    < 128 && !ascii_prefix_ok(dec, nul) && e == PakReadError::Utf8Error),
            }
        }),
{
    let ghost arch: Seq<u8> = match pak_key {
        Some(k) => k@,
        None => zero_key(),
    };
    let mut buf = clone_bytes(name_bytes);
    GustPak::decrypt(&mut buf, file_key, pak_key);
    let ghost dec = xor_seq(name_bytes@, spec_eff_key(arch, file_key@));
    proof {
        assert(buf@ =~= dec);
    }
    let mut nul: usize = 0;
    while nul < 128 && buf[nul] != 0
        invariant
            buf@ == dec,
            dec.len() == 128,
            nul <= 128,
            forall|k: int| 0 <= k < nul as int ==> dec[k] != 0,
        decreases 128 - nul,
    {
        nul = nul + 1;
    }
    proof {
        lemma_first_nul_at(dec, nul as int);
    }
    if nul == 128 {
        return Err(PakReadError::CStringFromBytesUntilNullError);
    }
    let mut i: usize = 0;
    let mut prefix: Vec<u8> = Vec::new();
    while i < nul
        invariant
            arch == (match pak_key {
                Some(k) => k@,
                None => zero_key(),
            }),
            dec == xor_seq(name_bytes@, spec_eff_key(arch, file_key@)),
            buf@ == dec,
            dec.len() == 128,
            nul < 128,
            spec_first_nul(dec, 0) == nul as int,
            i <= nul,
            prefix@.len() == i as int,
            forall|k: int| 0 <= k < i as int ==> #[trigger] prefix@[k] == dec[k],
            forall|k: int| 0 <= k < i as int ==> dec[k] < 0x80,
        decreases nul - i,
    {
        let b = buf[i];
        if b >= 0x80 {
            proof {
                assert(dec[i as int] >= 0x80);
                assert(!ascii_prefix_ok(dec, nul as int));
            }
            return Err(PakReadError::Utf8Error);
        }
        prefix.push(b);
        i = i + 1;
    }
    proof {
        assert(ascii_prefix_ok(dec, nul as int));
        assert(forall|k: int| 0 <= k < prefix@.len() ==> #[trigger] prefix@[k] < 0x80);
    }
    let name = ascii_to_string(&prefix);
    Ok(name)
}

/// Copies a byte buffer.
fn clone_bytes(v: &Vec<u8>) -> (r: Vec<u8>)
    ensures
        r@ == v@,
{
    let mut out: Vec<u8> = Vec::new();
    let mut i: usize = 0;
    while i < v.len()
        invariant
            i <= v@.len(),
            out@.len() == i as int,
            forall|k: int| 0 <= k < i as int ==> out@[k] == v@[k],
        decreases v@.len() - i,
    {
        let b = v[i];
        out.push(b);
        i = i + 1;
    }
    proof {
        assert(out@ =~= v@);
    }
    out
}

/// The fixed 16-byte prelude of a PAK file.
#[derive(Debug, Clone, Copy)]
pub(crate) struct PakHeader {
    pub(crate) file_count: u32,
    pub(crate) flags: u32,
}

impl PakHeader {
    /// Reads and validates the header at the start of the stream.
    fn read<S: Stream>(reader: &mut S) -> (r: Result<PakHeader, PakReadError>)
        requires
            old(reader).inv(),
            old(reader).pos() == 0,
        ensures
            final(reader).inv(),
            final(reader).contents() == old(reader).contents(),
            final(reader).size() == old(reader).size(),
            final(reader).seek_bound() == old(reader).seek_bound(),
            match r {
                Ok(h) => spec_parse_header(old(reader).contents()) == Ok::<(u32, u32), PakReadError>(
                    (h.file_count, h.flags),
                ) && final(reader).pos() == 16,
                Err(e) => spec_parse_header(old(reader).contents()) == Err::<(u32, u32), PakReadError>(
                    e,
                ),
            },
    {
        let version = match read_u32_le(reader) {
            Ok(v) => v,
            Err(e) => {
                return Err(PakReadError::IoError(e));
            },
        };
        let file_count = match read_u32_le(reader) {
            Ok(v) => v,
            Err(e) => {
                return Err(PakReadError::IoError(e));
            },
        };
        let header_size = match read_u32_le(reader) {
            Ok(v) => v,
            Err(e) => {
                return Err(PakReadError::IoError(e));
            },
        };
        let flags = match read_u32_le(reader) {
            Ok(v) => v,
            Err(e) => {
                return Err(PakReadError::IoError(e));
            },
        };
        if version != 0x20000 {
            return Err(PakReadError::InvalidHeaderVersion(version));
        }
        if header_size != 16 {
            return Err(PakReadError::InvalidHeaderSize(header_size));
        }
        if file_count > 0x10000 {
            return Err(PakReadError::TooManyFiles(file_count));
        }
        Ok(PakHeader { file_count, flags })
    }
}

/// File entries for games up to and including A17.
#[derive(Debug)]
pub struct Entry32 {
    file_name: String,
    file_size: u32,
    /// The xor key used to decrypt the file name and content.
    file_key: Vec<u8>,
    /// The data offset of this file's data relative to the payload region.
    data_offset: u32,
    flags: u32,
}

impl View for Entry32 {
    type V = PakEntryModel;

    closed spec fn view(&self) -> PakEntryModel {
        PakEntryModel {
            name: self.file_name@,
            size: self.file_size,
            key: self.file_key@,
            extra: 0,
            offset: self.data_offset as u64,
            flags: self.flags as u64,
        }
    }
}

impl Clone for Entry32 {
    fn clone(&self) -> (r: Self)
        ensures
            r@ == self@,
    {
        Entry32 {
            file_name: self.file_name.clone(),
            file_size: self.file_size,
            file_key: clone_bytes(&self.file_key),
            data_offset: self.data_offset,
            flags: self.flags,
        }
    }
}

impl Entry32 {
    /// Reads one record of this shape from the current position.
    fn read<S: Stream>(reader: &mut S) -> (r: Result<Entry32, PakReadError>)
        requires
            old(reader).inv(),
        ensures
            final(reader).inv(),
            final(reader).contents() == old(reader).contents(),
            final(reader).size() == old(reader).size(),
            final(reader).seek_bound() == old(reader).seek_bound(),
            match r {
                Ok(e) => spec_parse_entry(
                    old(reader).contents(),
                    old(reader).pos(),
                    PakEntryType::Entry32,
                    zero_key(),
                ) == Ok::<PakEntryModel, PakReadError>(e@) && final(reader).pos() == old(
                    reader,
                ).pos() + 160,
                Err(err) => spec_parse_entry(
                    old(reader).contents(),
                    old(reader).pos(),
                    PakEntryType::Entry32,
                    zero_key(),
                ) == Err::<PakEntryModel, PakReadError>(err),
            },
    {
        proof {
            reader.lemma_inv();
        }
        let ghost c = old(reader).contents();
        let ghost p = old(reader).pos();
        let name_bytes = match read_exact(reader, 128) {
            Ok(v) => v,
            Err(e) => {
                return Err(PakReadError::IoError(e));
            },
        };
        let file_size = match read_u32_le(reader) {
            Ok(v) => v,
            Err(e) => {
                return Err(PakReadError::IoError(e));
            },
        };
        let file_key = match read_exact(reader, 20) {
            Ok(v) => v,
            Err(e) => {
                return Err(PakReadError::IoError(e));
            },
        };
        let data_offset = match read_u32_le(reader) {
            Ok(v) => v,
            Err(e) => {
                return Err(PakReadError::IoError(e));
            },
        };
        let flags = match read_u32_le(reader) {
            Ok(v) => v,
            Err(e) => {
                return Err(PakReadError::IoError(e));
            },
        };
        proof {
            assert(name_bytes@ =~= c.subrange(p, p + 128));
            assert(file_key@ =~= c.subrange(p + 132, p + 152));
        }
        let file_name = match decode_entry_name(&name_bytes, &file_key, None) {
            Ok(n) => n,
            Err(e) => {
                return Err(e);
            },
        };
        let entry = Entry32 { file_name, file_size, file_key, data_offset, flags };
        proof {
            let m = spec_parse_entry(c, p, PakEntryType::Entry32, zero_key());
            assert(m is Ok);
            let mm = m->Ok_0;
            assert(entry@.name =~= mm.name);
            assert(entry@.key =~= mm.key);
            assert(entry@ == mm);
        }
        Ok(entry)
    }
}

/// File entries for games from A18 through A21.
#[derive(Debug)]
pub struct Entry64 {
    file_name: String,
    file_size: u32,
    /// The xor key used to decrypt the file name and content.
    file_key: Vec<u8>,
    /// The data offset of this file's data relative to the payload region.
    data_offset: u64,
    flags: u64,
}

impl View for Entry64 {
    type V = PakEntryModel;

    closed spec fn view(&self) -> PakEntryModel {
        PakEntryModel {
            name: self.file_name@,
            size: self.file_size,
            key: self.file_key@,
            extra: 0,
            offset: self.data_offset,
            flags: self.flags,
        }
    }
}

impl Clone for Entry64 {
    fn clone(&self) -> (r: Self)
        ensures
            r@ == self@,
    {
        Entry64 {
            file_name: self.file_name.clone(),
            file_size: self.file_size,
            file_key: clone_bytes(&self.file_key),
            data_offset: self.data_offset,
            flags: self.flags,
        }
    }
}

impl Entry64 {
    /// Reads one record of this shape from the current position. The shape is
    /// only used by generations without an archive key, so none is taken.
    fn read<S: Stream>(reader: &mut S) -> (r: Result<Entry64, PakReadError>)
        requires
            old(reader).inv(),
        ensures
            final(reader).inv(),
            final(reader).contents() == old(reader).contents(),
            final(reader).size() == old(reader).size(),
            final(reader).seek_bound() == old(reader).seek_bound(),
            match r {
                Ok(e) => spec_parse_entry(
                    old(reader).contents(),
                    old(reader).pos(),
                    PakEntryType::Entry64,
                    zero_key(),
                ) == Ok::<PakEntryModel, PakReadError>(e@) && final(reader).pos() == old(
                    reader,
                ).pos() + 168,
                Err(err) => spec_parse_entry(
                    old(reader).contents(),
                    old(reader).pos(),
                    PakEntryType::Entry64,
                    zero_key(),
                ) == Err::<PakEntryModel, PakReadError>(err),
            },
    {
        proof {
            reader.lemma_inv();
        }
        let ghost c = old(reader).contents();
        let ghost p = old(reader).pos();
        let name_bytes = match read_exact(reader, 128) {
            Ok(v) => v,
            Err(e) => {
                return Err(PakReadError::IoError(e));
            },
        };
        let file_size = match read_u32_le(reader) {
            Ok(v) => v,
            Err(e) => {
                return Err(PakReadError::IoError(e));
            },
        };
        let file_key = match read_exact(reader, 20) {
            Ok(v) => v,
            Err(e) => {
                return Err(PakReadError::IoError(e));
            },
        };
        let data_offset = match read_u64_le(reader) {
            Ok(v) => v,
            Err(e) => {
                return Err(PakReadError::IoError(e));
            },
        };
        let flags = match read_u64_le(reader) {
            Ok(v) => v,
            Err(e) => {
                return Err(PakReadError::IoError(e));
            },
        };
        proof {
            assert(name_bytes@ =~= c.subrange(p, p + 128));
            assert(file_key@ =~= c.subrange(p + 132, p + 152));
        }
        let file_name = match decode_entry_name(&name_bytes, &file_key, None) {
            Ok(n) => n,
            Err(e) => {
                return Err(e);
            },
        };
        let entry = Entry64 { file_name, file_size, file_key, data_offset, flags };
        proof {
            let m = spec_parse_entry(c, p, PakEntryType::Entry64, zero_key());
            assert(m is Ok);
            let mm = m->Ok_0;
            assert(entry@.name =~= mm.name);
            assert(entry@.key =~= mm.key);
            assert(entry@ == mm);
        }
        Ok(entry)
    }
}

/// File entries for games starting from A22.
#[derive(Debug)]
pub struct Entry64Ext {
    file_name: String,
    file_size: u32,
    /// The xor key used to decrypt the file name and content. This may also
    /// be xored by the archive key, if the generation has one.
    file_key: Vec<u8>,
    extra: u32,
    /// The data offset of this file's data relative to the payload region.
    data_offset: u64,
    flags: u64,
}

impl View for Entry64Ext {
    type V = PakEntryModel;

    closed spec fn view(&self) -> PakEntryModel {
        PakEntryModel {
            name: self.file_name@,
            size: self.file_size,
            key: self.file_key@,
            extra: self.extra,
            offset: self.data_offset,
            flags: self.flags,
        }
    }
}

impl Clone for Entry64Ext {
    fn clone(&self) -> (r: Self)
        ensures
            r@ == self@,
    {
        Entry64Ext {
            file_name: self.file_name.clone(),
            file_size: self.file_size,
            file_key: clone_bytes(&self.file_key),
            extra: self.extra,
            data_offset: self.data_offset,
            flags: self.flags,
        }
    }
}

impl Entry64Ext {
    /// Reads one record of this shape from the current position, decrypting
    /// the name through the generation's archive key when one exists.
    fn read<S: Stream>(reader: &mut S, pak_key: Option<&Vec<u8>>) -> (r: Result<
        Entry64Ext,
        PakReadError,
    >)
        requires
            old(reader).inv(),
            pak_key matches Some(k) ==> k@.len() == 32,
        ensures
            final(reader).inv(),
            final(reader).contents() == old(reader).contents(),
            final(reader).size() == old(reader).size(),
            final(reader).seek_bound() == old(reader).seek_bound(),
            ({
                let arch = match pak_key {
                    Some(k) => k@,
                    None => zero_key(),
                };
                match r {
                    Ok(e) => spec_parse_entry(
                        old(reader).contents(),
                        old(reader).pos(),
                        PakEntryType::Entry64Ext,
                        arch,
                    ) == Ok::<PakEntryModel, PakReadError>(e@) && final(reader).pos() == old(
                        reader,
                    ).pos() + 184,
                    Err(err) => spec_parse_entry(
                        old(reader).contents(),
                        old(reader).pos(),
                        PakEntryType::Entry64Ext,
                        arch,
                    ) == Err::<PakEntryModel, PakReadError>(err),
                }
            }),
    {
        proof {
            reader.lemma_inv();
        }
        let ghost c = old(reader).contents();
        let ghost p = old(reader).pos();
        let ghost arch: Seq<u8> = match pak_key {
            Some(k) => k@,
            None => zero_key(),
        };
        let name_bytes = match read_exact(reader, 128) {
            Ok(v) => v,
            Err(e) => {
                return Err(PakReadError::IoError(e));
            },
        };
        let file_size = match read_u32_le(reader) {
            Ok(v) => v,
            Err(e) => {
                return Err(PakReadError::IoError(e));
            },
        };
        let file_key = match read_exact(reader, 32) {
            Ok(v) => v,
            Err(e) => {
                return Err(PakReadError::IoError(e));
            },
        };
        let extra = match read_u32_le(reader) {
            Ok(v) => v,
            Err(e) => {
                return Err(PakReadError::IoError(e));
            },
        };
        let data_offset = match read_u64_le(reader) {
            Ok(v) => v,
            Err(e) => {
                return Err(PakReadError::IoError(e));
            },
        };
        let flags = match read_u64_le(reader) {
            Ok(v) => v,
            Err(e) => {
                return Err(PakReadError::IoError(e));
            },
        };
        proof {
            assert(name_bytes@ =~= c.subrange(p, p + 128));
            assert(file_key@ =~= c.subrange(p + 132, p + 164));
        }
        let file_name = match decode_entry_name(&name_bytes, &file_key, pak_key) {
            Ok(n) => n,
            Err(e) => {
                return Err(e);
            },
        };
        let entry = Entry64Ext { file_name, file_size, file_key, extra, data_offset, flags };
        proof {
            let m = spec_parse_entry(c, p, PakEntryType::Entry64Ext, arch);
            assert(m is Ok);
            let mm = m->Ok_0;
            assert(entry@.name =~= mm.name);
            assert(entry@.key =~= mm.key);
            assert(entry@ == mm);
        }
        Ok(entry)
    }
}

/// A common representation of the file entries in a .pak file.
#[derive(Debug)]
pub enum PakEntryList {
    /// Entries of the oldest shape.
    Entry32(Vec<Entry32>),
    /// Entries with widened offset and flag fields.
    Entry64(Vec<Entry64>),
    /// Entries with a 32-byte key and an extra word.
    Entry64Ext(Vec<Entry64Ext>),
}

impl View for PakEntryList {
    type V = Seq<PakEntryModel>;

    closed spec fn view(&self) -> Seq<PakEntryModel> {
        match self {
            PakEntryList::Entry32(v) => Seq::new(v@.len(), |i: int| v@[i]@),
            PakEntryList::Entry64(v) => Seq::new(v@.len(), |i: int| v@[i]@),
            PakEntryList::Entry64Ext(v) => Seq::new(v@.len(), |i: int| v@[i]@),
        }
    }
}

impl PakEntryList {
    /// How many entries the list holds.
    #[must_use]
    pub fn len(&self) -> (r: usize)
        ensures
            r as int == self@.len(),
    {
        match self {
            PakEntryList::Entry32(v) => v.len(),
            PakEntryList::Entry64(v) => v.len(),
            PakEntryList::Entry64Ext(v) => v.len(),
        }
    }

    /// Whether the list holds no entries.
    #[must_use]
    pub fn is_empty(&self) -> (r: bool)
        ensures
            r == (self@.len() == 0),
    {
        self.len() == 0
    }

    /// A common representation of each entry, in table order.
    pub fn iter(&self) -> (r: Vec<PakEntryRef<'_>>)
        ensures
            r@.len() == self@.len(),
            forall|i: int| 0 <= i < r@.len() ==> #[trigger] r@[i]@ == self@[i],
    {
        let mut out: Vec<PakEntryRef<'_>> = Vec::new();
        match self {
            PakEntryList::Entry32(v) => {
                let mut i: usize = 0;
                while i < v.len()
                    invariant
                        i <= v@.len(),
                        out@.len() == i as int,
                        forall|j: int| 0 <= j < i as int ==> #[trigger] out@[j] == PakEntryRef::Entry32(&v[j]),
                    decreases v@.len() - i,
                {
                    out.push(PakEntryRef::Entry32(&v[i]));
                    i = i + 1;
                }
            },
            PakEntryList::Entry64(v) => {
                let mut i: usize = 0;
                while i < v.len()
                    invariant
                        i <= v@.len(),
                        out@.len() == i as int,
                        forall|j: int| 0 <= j < i as int ==> #[trigger] out@[j] == PakEntryRef::Entry64(&v[j]),
                    decreases v@.len() - i,
                {
                    out.push(PakEntryRef::Entry64(&v[i]));
                    i = i + 1;
                }
            },
            PakEntryList::Entry64Ext(v) => {
                let mut i: usize = 0;
                while i < v.len()
                    invariant
                        i <= v@.len(),
                        out@.len() == i as int,
                        forall|j: int| 0 <= j < i as int ==> #[trigger] out@[j] == PakEntryRef::Entry64Ext(&v[j]),
                    decreases v@.len() - i,
                {
                    out.push(PakEntryRef::Entry64Ext(&v[i]));
                    i = i + 1;
                }
            },
        }
        out
    }
}

/// An owned version of [`PakEntryRef`].
#[derive(Debug)]
pub enum PakEntry {
    /// An owned entry of the oldest shape.
    Entry32(Entry32),
    /// An owned entry with widened fields.
    Entry64(Entry64),
    /// An owned entry of the extended shape.
    Entry64Ext(Entry64Ext),
}

impl View for PakEntry {
    type V = PakEntryModel;

    closed spec fn view(&self) -> PakEntryModel {
        match self {
            PakEntry::Entry32(e) => e@,
            PakEntry::Entry64(e) => e@,
            PakEntry::Entry64Ext(e) => e@,
        }
    }
}

impl Clone for PakEntry {
    fn clone(&self) -> (r: Self)
        ensures
            r@ == self@,
    {
        match self {
            PakEntry::Entry32(e) => PakEntry::Entry32(e.clone()),
            PakEntry::Entry64(e) => PakEntry::Entry64(e.clone()),
            PakEntry::Entry64Ext(e) => PakEntry::Entry64Ext(e.clone()),
        }
    }
}

impl PakEntry {
    /// Borrows the entry in the common representation.
    pub fn as_ref(&self) -> (r: PakEntryRef<'_>)
        ensures
            r@ == self@,
    {
        match self {
            PakEntry::Entry32(e) => PakEntryRef::Entry32(e),
            PakEntry::Entry64(e) => PakEntryRef::Entry64(e),
            PakEntry::Entry64Ext(e) => PakEntryRef::Entry64Ext(e),
        }
    }
}

/// A common representation of a file in a .pak file.
#[derive(Debug, Clone, Copy)]
pub enum PakEntryRef<'pak> {
    /// A borrowed entry of the oldest shape.
    Entry32(&'pak Entry32),
    /// A borrowed entry with widened fields.
    Entry64(&'pak Entry64),
    /// A borrowed entry of the extended shape.
    Entry64Ext(&'pak Entry64Ext),
}

impl<'pak> View for PakEntryRef<'pak> {
    type V = PakEntryModel;

    closed spec fn view(&self) -> PakEntryModel {
        match self {
            PakEntryRef::Entry32(e) => e@,
            PakEntryRef::Entry64(e) => e@,
            PakEntryRef::Entry64Ext(e) => e@,
        }
    }
}

impl<'pak> PakEntryRef<'pak> {
    /// Gets the file name.
    pub fn get_file_name(&'pak self) -> (r: &'pak str)
        ensures
            r@ == self@.name,
    {
        match self {
            PakEntryRef::Entry32(e) => e.file_name.as_str(),
            PakEntryRef::Entry64(e) => e.file_name.as_str(),
            PakEntryRef::Entry64Ext(e) => e.file_name.as_str(),
        }
    }

    /// Gets the file size.
    pub fn get_file_size(&'pak self) -> (r: u32)
        ensures
            r == self@.size,
    {
        match self {
            PakEntryRef::Entry32(e) => e.file_size,
            PakEntryRef::Entry64(e) => e.file_size,
            PakEntryRef::Entry64Ext(e) => e.file_size,
        }
    }

    /// Gets the file offset relative to the payload region.
    fn get_data_offset(&'pak self) -> (r: u64)
        ensures
            r == self@.offset,
    {
        match self {
            PakEntryRef::Entry32(e) => e.data_offset as u64,
            PakEntryRef::Entry64(e) => e.data_offset,
            PakEntryRef::Entry64Ext(e) => e.data_offset,
        }
    }

    /// Gets the file's encryption key.
    fn get_file_key(&'pak self) -> (r: &'pak Vec<u8>)
        ensures
            r@ == self@.key,
    {
        match self {
            PakEntryRef::Entry32(e) => &e.file_key,
            PakEntryRef::Entry64(e) => &e.file_key,
            PakEntryRef::Entry64Ext(e) => &e.file_key,
        }
    }


    /// Composes a decrypting reader over the entry's payload window: the
    /// source is fenced to `[data_start + offset, data_start + offset + size)`
    /// and the effective keystream is applied from the window's start.
    pub fn get_reader<S: Stream>(
        &'pak self,
        file: S,
        pak: &'pak GustPak,
        game_version: GameVersion,
    ) -> (r: Result<XorReader<FencedReader<S>>, StreamError>)
        requires
            file.inv(),
            1 <= self@.key.len() <= 32,
        ensures
            match r {
                Ok(rd) => pak@.data_start + self@.offset + self@.size <= file.seek_bound()
                    && rd.inv() && rd.pos() == 0 && rd.size() == self@.size && rd.seek_bound()
                    == self@.size && rd.contents() == xor_seq(
                    fence_window(
                        file.contents(),
                        pak@.data_start + self@.offset,
                        self@.size as int,
                    ),
                    spec_eff_key(spec_arch_key(game_version), self@.key),
                ),
                Err(e) => pak@.data_start + self@.offset + self@.size > file.seek_bound() && e
                    == StreamError::OutOfBounds,
            },
    {
        let offset = pak.get_data_start();
        self.get_reader_with_data_start(file, offset, game_version)
    }

    /// As [`Self::get_reader`], with the payload origin given directly.
    pub fn get_reader_with_data_start<S: Stream>(
        &'pak self,
        mut file: S,
        data_start: u64,
        game_version: GameVersion,
    ) -> (r: Result<XorReader<FencedReader<S>>, StreamError>)
        requires
            file.inv(),
            1 <= self@.key.len() <= 32,
        ensures
            match r {
                Ok(rd) => data_start + self@.offset + self@.size <= file.seek_bound() && rd.inv()
                    && rd.pos() == 0 && rd.size() == self@.size && rd.seek_bound() == self@.size
                    && rd.contents() == xor_seq(
                    fence_window(file.contents(), data_start + self@.offset, self@.size as int),
                    spec_eff_key(spec_arch_key(game_version), self@.key),
                ),
                Err(e) => data_start + self@.offset + self@.size > file.seek_bound() && e
                    == StreamError::OutOfBounds,
            },
    {
        proof {
            file.lemma_inv();
        }
        let pak_key = GustPak::get_pak_key(game_version);
        let pk: Option<&Vec<u8>> = match &pak_key {
            Some(k) => Some(k),
            None => None,
        };
        let file_key = self.get_file_key();
        let xor_key = eff_key_bytes(file_key, pk);
        let offset = self.get_data_offset();
        let size = self.get_file_size();
        if offset > u64::MAX - data_start {
            return Err(StreamError::OutOfBounds);
        }
        let target = data_start + offset;
        match file.seek(SeekFrom::Start(target)) {
            Ok(_) => {},
            Err(e) => {
                return Err(e);
            },
        }
        let fenced = match FencedReader::take(file, size as u64) {
            Ok(f) => f,
            Err(e) => {
                return Err(e);
            },
        };
        Ok(XorReader::new(fenced, xor_key.as_slice()))
    }

    /// Clones the entry into an owned value.
    pub fn into_owned(self) -> (r: PakEntry)
        ensures
            r@ == self@,
    {
        match self {
            PakEntryRef::Entry32(e) => PakEntry::Entry32(e.clone()),
            PakEntryRef::Entry64(e) => PakEntry::Entry64(e.clone()),
            PakEntryRef::Entry64Ext(e) => PakEntry::Entry64Ext(e.clone()),
        }
    }
}

} // verus!

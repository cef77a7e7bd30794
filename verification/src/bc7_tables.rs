//! The fixed decoding tables of the BC7 format: the two-subset partition
//! assignments, the second-subset anchor positions, and the interpolation
//! weight tables, reproduced from the BC7 specification.

use vstd::prelude::*;

verus! {

/// The two-subset partition table: 64 partitions of the 16 pixel positions,
/// reproduced from the BC7 specification.
pub const PARTITION2: [u8; 1024] = [
    0,0,1,1,0,0,1,1,0,0,1,1,0,0,1,1, 0,0,0,1,0,0,0,1,0,0,0,1,0,0,0,1, 0,1,1,1,0,1,1,1,0,1,1,1,0,1,1,1, 0,0,0,1,0,0,1,1,0,0,1,1,0,1,1,1, 0,0,0,0,0,0,0,1,0,0,0,1,0,0,1,1, 0,0,1,1,0,1,1,1,0,1,1,1,1,1,1,1, 0,0,0,1,0,0,1,1,0,1,1,1,1,1,1,1, 0,0,0,0,0,0,0,1,0,0,1,1,0,1,1,1,
    0,0,0,0,0,0,0,0,0,0,0,1,0,0,1,1, 0,0,1,1,0,1,1,1,1,1,1,1,1,1,1,1, 0,0,0,0,0,0,0,1,0,1,1,1,1,1,1,1, 0,0,0,0,0,0,0,0,0,0,0,1,0,1,1,1, 0,0,0,1,0,1,1,1,1,1,1,1,1,1,1,1, 0,0,0,0,0,0,0,0,1,1,1,1,1,1,1,1, 0,0,0,0,1,1,1,1,1,1,1,1,1,1,1,1, 0,0,0,0,0,0,0,0,0,0,0,0,1,1,1,1,
    0,0,0,0,1,0,0,0,1,1,1,0,1,1,1,1, 0,1,1,1,0,0,0,1,0,0,0,0,0,0,0,0, 0,0,0,0,0,0,0,0,1,0,0,0,1,1,1,0, 0,1,1,1,0,0,1,1,0,0,0,1,0,0,0,0, 0,0,1,1,0,0,0,1,0,0,0,0,0,0,0,0, 0,0,0,0,1,0,0,0,1,1,0,0,1,1,1,0, 0,0,0,0,0,0,0,0,1,0,0,0,1,1,0,0, 0,1,1,1,0,0,1,1,0,0,1,1,0,0,0,1,
    0,0,1,1,0,0,0,1,0,0,0,1,0,0,0,0, 0,0,0,0,1,0,0,0,1,0,0,0,1,1,0,0, 0,1,1,0,0,1,1,0,0,1,1,0,0,1,1,0, 0,0,1,1,0,1,1,0,0,1,1,0,1,1,0,0, 0,0,0,1,0,1,1,1,1,1,1,0,1,0,0,0, 0,0,0,0,1,1,1,1,1,1,1,1,0,0,0,0, 0,1,1,1,0,0,0,1,1,0,0,0,1,1,1,0, 0,0,1,1,1,0,0,1,1,0,0,1,1,1,0,0,
    0,1,0,1,0,1,0,1,0,1,0,1,0,1,0,1, 0,0,0,0,1,1,1,1,0,0,0,0,1,1,1,1, 0,1,0,1,1,0,1,0,0,1,0,1,1,0,1,0, 0,0,1,1,0,0,1,1,1,1,0,0,1,1,0,0, 0,0,1,1,1,1,0,0,0,0,1,1,1,1,0,0, 0,1,0,1,0,1,0,1,1,0,1,0,1,0,1,0, 0,1,1,0,1,0,0,1,0,1,1,0,1,0,0,1, 0,1,0,1,1,0,1,0,1,0,1,0,0,1,0,1,
    0,1,1,1,0,0,1,1,1,1,0,0,1,1,1,0, 0,0,0,1,0,0,1,1,1,1,0,0,1,0,0,0, 0,0,1,1,0,0,1,0,0,1,0,0,1,1,0,0, 0,0,1,1,1,0,1,1,1,1,0,1,1,1,0,0, 0,1,1,0,1,0,0,1,1,0,0,1,0,1,1,0, 0,0,1,1,1,1,0,0,1,1,0,0,0,0,1,1, 0,1,1,0,0,1,1,0,1,0,0,1,1,0,0,1, 0,0,0,0,0,1,1,0,0,1,1,0,0,0,0,0,
    0,1,0,0,1,1,1,0,0,1,0,0,0,0,0,0, 0,0,1,0,0,1,1,1,0,0,1,0,0,0,0,0, 0,0,0,0,0,0,1,0,0,1,1,1,0,0,1,0, 0,0,0,0,0,1,0,0,1,1,1,0,0,1,0,0, 0,1,1,0,1,1,0,0,1,0,0,1,0,0,1,1, 0,0,1,1,0,1,1,0,1,1,0,0,1,0,0,1, 0,1,1,0,0,0,1,1,1,0,0,1,1,1,0,0, 0,0,1,1,1,0,0,1,1,1,0,0,0,1,1,0,
    0,1,1,0,1,1,0,0,1,1,0,0,1,0,0,1, 0,1,1,0,0,0,1,1,0,0,1,1,1,0,0,1, 0,1,1,1,1,1,1,0,1,0,0,0,0,0,0,1, 0,0,0,1,1,0,0,0,1,1,1,0,0,1,1,1, 0,0,0,0,1,1,1,1,0,0,1,1,0,0,1,1, 0,0,1,1,0,0,1,1,1,1,1,1,0,0,0,0, 0,0,1,0,0,0,1,0,1,1,1,0,1,1,1,0, 0,1,0,0,0,1,0,0,0,1,1,1,0,1,1,1,
];

/// The pixel position of each partition's second subset whose weight index
/// is stored with one fewer bit.
pub const TABLE_ANCHOR_INDEX_SECOND_SUBSET: [u8; 64] = [
    15,15,15,15,15,15,15,15,
    15,15,15,15,15,15,15,15,
    15, 2, 8, 2, 2, 8, 8,15,
     2, 8, 2, 2, 8, 8, 2, 2,
    15,15, 6, 8, 2, 8,15,15,
     2, 8, 2, 2, 2,15,15, 6,
     6, 2, 6, 8,15,15, 2, 2,
    15,15,15,15,15, 2, 2,15,
];

/// The interpolation weights for 2-bit indices.
pub const WEIGHTS2: [u8; 4] = [0, 21, 43, 64];

/// The interpolation weights for 3-bit indices.
pub const WEIGHTS3: [u8; 8] = [0, 9, 18, 27, 37, 46, 55, 64];

/// The interpolation weights for 4-bit indices.
pub const WEIGHTS4: [u8; 16] = [0, 4, 9, 13, 17, 21, 26, 30, 34, 38, 43, 47, 51, 55, 60, 64];


/// Every partition-table entry names subset 0 or 1.
#[verifier::rlimit(100)]
pub proof fn lemma_partition2_values()
    ensures
        forall|j: int| 0 <= j < 1024 ==> #[trigger] PARTITION2@[j] <= 1,
{
    assert(forall|j: int| 0 <= j < 1024 ==> #[trigger] PARTITION2@[j] <= 1);
}

/// Every anchor index lies strictly inside the tile, past position 0.
#[verifier::rlimit(100)]
pub proof fn lemma_anchor_values()
    ensures
        forall|p: int|
            0 <= p < 64 ==> 1 <= #[trigger] TABLE_ANCHOR_INDEX_SECOND_SUBSET@[p] <= 15,
{
    assert(forall|p: int|
        0 <= p < 64 ==> 1 <= #[trigger] TABLE_ANCHOR_INDEX_SECOND_SUBSET@[p] <= 15);
}

/// Looks up one partition-table entry.
pub fn partition2_entry(idx: usize) -> (r: u8)
    requires
        idx < 1024,
    ensures
        r == PARTITION2@[idx as int],
        r <= 1,
{
    proof {
        lemma_partition2_values();
    }
    PARTITION2[idx]
}

/// Looks up one second-subset anchor position.
pub fn anchor_entry(idx: usize) -> (r: u8)
    requires
        idx < 64,
    ensures
        r == TABLE_ANCHOR_INDEX_SECOND_SUBSET@[idx as int],
        1 <= r <= 15,
{
    proof {
        lemma_anchor_values();
    }
    TABLE_ANCHOR_INDEX_SECOND_SUBSET[idx]
}

} // verus!

//! The geometry of the witness database and the data that makes a witness.

use crate::bytes::Hash32;
use vstd::prelude::*;

verus! {

/// Levels of the commitment tree above its leaves.
pub const TREE_DEPTH: usize = 32;

/// Height of a shard.
pub const SHARD_HEIGHT: usize = 16;

/// Height of a subshard.
pub const SUBSHARD_HEIGHT: usize = 8;

/// Leaves of a shard.
pub const SHARD_LEAVES: usize = 65_536;

/// Leaves of a subshard.
pub const SUBSHARD_LEAVES: usize = 256;

/// Bytes of a subshard's leaves: one row of the PIR database.
pub const SUBSHARD_ROW_BYTES: usize = 8_192;

/// Shards that the PIR database holds at most.
pub const L0_MAX_SHARDS: usize = 16;

/// Rows of the PIR database.
pub const L0_DB_ROWS: usize = 4_096;

/// Bytes of the PIR database.
pub const L0_DB_BYTES: usize = 33_554_432;

/// Polynomial degree of the witness PIR scheme.
pub const YPIR_POLY_LEN: usize = 4_096;

/// The sizes fit together.
pub proof fn law_geometry()
    ensures
        SHARD_LEAVES == SUBSHARD_LEAVES * 256,
        SUBSHARD_ROW_BYTES == SUBSHARD_LEAVES * 32,
        L0_DB_ROWS == L0_MAX_SHARDS * 256,
        L0_DB_BYTES == L0_DB_ROWS * SUBSHARD_ROW_BYTES,
{
}

/// The shard of a position.
pub open spec fn shard_of(position: int) -> int {
    position / 65_536
}

/// The subshard of a position within its shard.
pub open spec fn subshard_of(position: int) -> int {
    (position / 256) % 256
}

/// The leaf of a position within its subshard.
pub open spec fn leaf_of(position: int) -> int {
    position % 256
}

/// A position as shard, subshard and leaf. A position whose shard has no
/// 32-bit number, which no tree of depth 32 has, is put in the last one.
pub fn decompose_position(position: u64) -> (r: (u32, u8, u8))
    ensures
        r.0 == (if shard_of(position as int) <= u32::MAX {
            shard_of(position as int)
        } else {
            u32::MAX as int
        }),
        r.1 == subshard_of(position as int),
        r.2 == leaf_of(position as int),
{
    let shard: u64 = position / 65_536;
    let number: u32 = if shard <= u32::MAX as u64 {
        shard as u32
    } else {
        u32::MAX
    };
    (number, ((position / 256) % 256) as u8, (position % 256) as u8)
}

/// The row of a subshard in a database whose first shard is `window_start`.
pub fn physical_row_index(shard_idx: u32, subshard_idx: u8, window_start: u32) -> (row: usize)
    requires
        window_start <= shard_idx,
        (shard_idx - window_start) * 256 + subshard_idx <= usize::MAX,
    ensures
        row == (shard_idx - window_start) * 256 + subshard_idx,
{
    (shard_idx - window_start) as usize * 256 + subshard_idx as usize
}

/// Roots of all populated shards.
#[derive(Debug, Clone, PartialEq, Eq)]
pub struct CapData {
    pub shard_roots: Vec<Hash32>,
}

/// Roots of the subshards of one shard.
#[derive(Debug, Clone, PartialEq, Eq)]
pub struct SubshardRoots {
    pub roots: Vec<Hash32>,
}

/// What every wallet downloads besides its own row.
#[derive(Debug, Clone, PartialEq, Eq)]
pub struct BroadcastData {
    pub anchor_height: u64,
    pub window_start_shard: u32,
    pub window_shard_count: u32,
    pub cap: CapData,
    pub subshard_roots: Vec<SubshardRoots>,
}

/// The authentication path of a note commitment.
#[derive(Debug, Clone, PartialEq, Eq)]
pub struct PirWitness {
    pub position: u64,
    pub siblings: [Hash32; 32],
    pub anchor_height: u64,
    pub anchor_root: Hash32,
}

impl PirWitness {
    /// The leaf of the witnessed position within its subshard.
    pub fn leaf_index(&self) -> (i: u8)
        ensures
            i == leaf_of(self.position as int),
    {
        (self.position % 256) as u8
    }
}

/// The right edge of the tree at a height.
#[derive(Debug, Clone, Copy, PartialEq, Eq)]
pub struct FrontierUpdate {
    pub height: u64,
    pub tree_size: u64,
    pub root: Hash32,
    pub rightmost_nodes: [Hash32; 32],
}

/// A position of a tree of depth 32 is told by its shard, subshard and leaf, and
/// its row in a window by how far its subshard lies from the window's first one.
pub proof fn law_position_is_told_by_its_parts(
    position: u64,
    parts: (u32, u8, u8),
    window_start: u32,
    row: usize,
)
    requires
        position < 0x1_0000_0000,
        call_ensures(decompose_position, (position,), parts),
        call_ensures(physical_row_index, (parts.0, parts.1, window_start), row),
    ensures
        position == parts.0 * 65_536 + parts.1 * 256 + parts.2,
        row * 256 + window_start * 65_536 <= position < row * 256 + window_start * 65_536 + 256,
{
}

} // verus!

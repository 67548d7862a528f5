//! Both servers fed from one stream of blocks.

use super::nullifier as nf;
use super::witness as wit;
use crate::bytes::Hash32;
use crate::ingest::dataset::DatasetError;
use crate::ingest::ironwood::{extract_ironwood_nullifiers, EndpointError, IronwoodError};
use crate::ingest::pipeline::{BlockEvent, PipelineError, ValidatedBlock};
use crate::nullifier::table::{HashTableDb, HashTableError};
use crate::text::join;
use crate::witness::tree::CommitmentTreeDb;
use vstd::prelude::*;
#[allow(unused_imports)]
use crate::ingest::ironwood::{first_bad_nullifier, nullifiers_valid};
#[allow(unused_imports)]
use crate::ingest::proto::ironwood_actions;
#[allow(unused_imports)]
use crate::nullifier::cells::has_room;
#[allow(unused_imports)]
use crate::nullifier::laws::{law_rewind_keeps_lower_blocks, sound};
#[allow(unused_imports)]
use crate::nullifier::state::{
    can_rewind, evicted_to, highest, is_highest, lemma_has_extremes, no_blocks, rewound, TableView,
};
#[allow(unused_imports)]
use crate::witness::laws::{heights_ascend, law_rollback_keeps_lower_blocks};
#[allow(unused_imports)]
use crate::witness::tree::{rolled_back_to, tree_wf, TreeView};

verus! {

/// Why the combined server stopped. Failures of calls are kept in words.
#[derive(Debug)]
pub enum ServerError {
    Nullifier(nf::ServerError),
    Witness(wit::ServerError),
    Client(String),
    Pipeline(PipelineError),
    Join(String),
    Ironwood(IronwoodError),
    IronwoodEndpoint(EndpointError),
    Dataset(DatasetError),
    HashTable(HashTableError),
    Io(String),
    SubsystemTipMismatch,
}

impl ServerError {
    /// The text shown to a person.
    pub open spec fn text(&self) -> Seq<char> {
        match self {
            ServerError::Nullifier(error) => "nullifier server error: "@ + error.text(),
            ServerError::Witness(error) => "witness server error: "@ + error.text(),
            ServerError::Client(reason) => "chain client error: "@ + reason@,
            ServerError::Pipeline(error) => "chain pipeline error: "@ + error.text(),
            ServerError::Join(reason) => "chain task failed: "@ + reason@,
            ServerError::Ironwood(error) => error.text(),
            ServerError::IronwoodEndpoint(error) => error.text(),
            ServerError::Dataset(error) => error.text(),
            ServerError::HashTable(error) => "hashtable error: "@ + error.text(),
            ServerError::Io(reason) => "io error: "@ + reason@,
            ServerError::SubsystemTipMismatch => {
                "nullifier and witness stores ended shared sync at different chain tips"@
            },
        }
    }

    /// The text shown to a person.
    pub fn message(&self) -> (s: String)
        ensures
            s@ == self.text(),
    {
        match self {
            ServerError::Nullifier(error) => join(
                "nullifier server error: ",
                error.message().as_str(),
            ),
            ServerError::Witness(error) => join(
                "witness server error: ",
                error.message().as_str(),
            ),
            ServerError::Client(reason) => join("chain client error: ", reason.as_str()),
            ServerError::Pipeline(error) => join("chain pipeline error: ", error.message().as_str()),
            ServerError::Join(reason) => join("chain task failed: ", reason.as_str()),
            ServerError::Ironwood(error) => error.message(),
            ServerError::IronwoodEndpoint(error) => error.message(),
            ServerError::Dataset(error) => error.message(),
            ServerError::HashTable(error) => join("hashtable error: ", error.message().as_str()),
            ServerError::Io(reason) => join("io error: ", reason.as_str()),
            ServerError::SubsystemTipMismatch => {
                "nullifier and witness stores ended shared sync at different chain tips".to_owned()
            },
        }
    }
}

/// Whether the stores that take part can take a block.
pub open spec fn block_applies(
    table: Option<TableView>,
    tree: Option<TreeView>,
    block: ValidatedBlock,
) -> bool {
    &&& table matches Some(v) ==> nf::block_insertable(v, block)
    &&& tree matches Some(v) ==> wit::block_appendable(v, block.block)
}

/// The error for a block that the stores cannot take: its nullifiers first,
/// then its commitments and tree size, then the room in the table.
pub open spec fn block_refused(
    table: Option<TableView>,
    tree: Option<TreeView>,
    block: ValidatedBlock,
    context: &'static str,
    error: ServerError,
) -> bool {
    let actions = ironwood_actions(block.block.vtx@);
    if table is Some && !nullifiers_valid(actions) {
        exists|i: int| #[trigger]
            first_bad_nullifier(actions, i) && error == ServerError::Ironwood(
                IronwoodError::InvalidNullifier {
                    height: block.block.height,
                    actual: actions[i].nullifier@.len() as usize,
                },
            )
    } else if tree matches Some(v) && !wit::block_appendable(v, block.block) {
        error matches ServerError::Witness(inner) && wit::append_refused(
            tree->0,
            block.block,
            context,
            inner,
        )
    } else {
        &&& error matches ServerError::HashTable(HashTableError::BucketOverflow { bucket_idx })
        &&& table is Some
        &&& bucket_idx < 16_384
        &&& !has_room(table->0.cells, nf::block_nullifiers(block), bucket_idx as int)
    }
}

/// The state of the table that takes part, if one does.
pub open spec fn table_part(hashtable: Option<&mut HashTableDb>) -> Option<TableView> {
    match hashtable {
        Some(db) => Some((*db)@),
        None => None,
    }
}

/// The state of the tree that takes part, if one does.
pub open spec fn tree_part(tree: Option<&mut CommitmentTreeDb>) -> Option<TreeView> {
    match tree {
        Some(db) => Some((*db)@),
        None => None,
    }
}

/// Takes a block into the stores that take part, into all of them or into none,
/// and says how many nullifiers and commitments it had for them.
pub fn apply_block(
    block: &ValidatedBlock,
    hashtable: Option<&mut HashTableDb>,
    tree: Option<&mut CommitmentTreeDb>,
    context: &'static str,
) -> (r: Result<(usize, usize), ServerError>)
    requires
        ironwood_actions(block.block.vtx@).len() <= u32::MAX,
        hashtable matches Some(db) ==> db.wf() && db@.count + ironwood_actions(
            block.block.vtx@,
        ).len() <= usize::MAX,
        tree matches Some(db) ==> db.wf() && db@.leaves.len() + ironwood_actions(
            block.block.vtx@,
        ).len() <= usize::MAX,
    ensures
        r is Ok <==> block_applies(table_part(hashtable), tree_part(tree), *block),
        r matches Ok(counts) ==> {
            &&& counts.0 == (if hashtable is Some {
                nf::block_nullifiers(*block).len()
            } else {
                0
            })
            &&& counts.1 == (if tree is Some {
                wit::block_commitments(block.block).len()
            } else {
                0
            })
        },
        r matches Err(error) ==> block_refused(
            table_part(hashtable),
            tree_part(tree),
            *block,
            context,
            error,
        ),
        hashtable matches Some(db) ==> final(db).wf() && final(db)@ == (if r is Ok {
            nf::block_inserted(db@, *block)
        } else {
            db@
        }),
        tree matches Some(db) ==> final(db).wf() && final(db)@ == (if r is Ok {
            wit::block_appended(db@, *block)
        } else {
            db@
        }),
{
    let mut nullifiers: Vec<Hash32> = Vec::new();
    if hashtable.is_some() {
        match extract_ironwood_nullifiers(&block.block) {
            Ok(found) => {
                nullifiers = found;
                proof {
                    nf::lemma_block_nullifiers(*block, nullifiers@);
                }
            },
            Err(error) => return Err(ServerError::Ironwood(error)),
        }
    }
    let mut commitments: Vec<Hash32> = Vec::new();
    if let Some(db) = &tree {
        match wit::check_block(db, &block.block, context) {
            Ok(found) => {
                commitments = found;
            },
            Err(error) => return Err(ServerError::Witness(error)),
        }
    }
    if let Some(db) = hashtable {
        match db.insert_block(block.height(), block.hash, nullifiers.as_slice()) {
            Ok(()) => {},
            Err(error) => return Err(ServerError::HashTable(error)),
        }
    }
    if let Some(db) = tree {
        db.append_commitments(block.height(), block.hash, commitments.as_slice());
    }
    Ok((nullifiers.len(), commitments.len()))
}

/// Where both stores agree that the chain ends.
pub struct Tip {
    pub height: u64,
    pub hash: Hash32,
}

/// Whether two stores end with the same block.
pub open spec fn tips_agree(table: TableView, tree: TreeView) -> bool {
    &&& !no_blocks(table)
    &&& tree.blocks.len() > 0
    &&& tree.blocks.last().height == highest(table)
    &&& tree.blocks.last().hash == table.blocks[highest(table)].hash
}

/// A block above all that the table holds, taken into both stores, is where
/// both then end.
pub proof fn law_block_moves_both_tips(table: TableView, tree: TreeView, block: ValidatedBlock)
    requires
        table.blocks.dom().finite(),
        forall|h: u64| #[trigger] table.blocks.contains_key(h) ==> h < block.block.height,
    ensures
        tips_agree(nf::block_inserted(table, block), wit::block_appended(tree, block)),
{
    let after = nf::block_inserted(table, block);
    let height = block.block.height;
    assert(after.blocks.dom() =~= table.blocks.dom().insert(height));
    assert(after.blocks.contains_key(height));
    lemma_has_extremes(after);
    assert(is_highest(after, height));
}

/// Rolled back to a block that both hold under the same hash, both stores end
/// with that block.
pub proof fn law_reorg_moves_both_tips(table: TableView, tree: TreeView, fork: u64, i: int)
    requires
        sound(table),
        tree_wf(tree),
        heights_ascend(tree),
        table.blocks.contains_key(fork),
        0 <= i < tree.blocks.len(),
        tree.blocks[i].height == fork,
        tree.blocks[i].hash == table.blocks[fork].hash,
    ensures
        can_rewind(table, fork),
        tips_agree(rewound(table, fork), rolled_back_to(tree, fork)),
{
    law_rewind_keeps_lower_blocks(table, fork);
    let n = law_rollback_keeps_lower_blocks(tree, fork);
    let after = rewound(table, fork);
    assert(after.blocks.contains_key(fork));
    lemma_has_extremes(after);
    assert(is_highest(after, fork));
    assert(i < n);
    if i < n - 1 {
        assert(tree.blocks[i].height < tree.blocks[n - 1].height);
    }
    assert(rolled_back_to(tree, fork).blocks.last() == tree.blocks[n - 1]);
}

/// The tip at which both stores end, when they end with the same block.
pub fn shared_tip(hashtable: &HashTableDb, tree: &CommitmentTreeDb) -> (r: Result<Tip, ServerError>)
    requires
        hashtable.wf(),
    ensures
        r is Ok <==> tips_agree(hashtable@, tree@),
        r matches Ok(tip) ==> tip.height == highest(hashtable@) && tip.hash
            == hashtable@.blocks[highest(hashtable@)].hash,
        r matches Err(error) ==> error == ServerError::SubsystemTipMismatch,
{
    let height: u64 = match hashtable.latest_height() {
        Some(height) => height,
        None => 0,
    };
    let tree_height: u64 = match tree.latest_height() {
        Some(height) => height,
        None => return Err(ServerError::SubsystemTipMismatch),
    };
    if tree_height != height {
        return Err(ServerError::SubsystemTipMismatch);
    }
    match (hashtable.latest_block_hash(), tree.latest_block_hash()) {
        (Some(hash), Some(tree_hash)) => {
            if crate::bytes::hash_eq(&hash, &tree_hash) {
                Ok(Tip { height, hash })
            } else {
                Err(ServerError::SubsystemTipMismatch)
            }
        },
        _ => Err(ServerError::SubsystemTipMismatch),
    }
}

/// Takes a block of the shared sync in: each store takes it only from the
/// height that it is still missing, and the table is then kept to its size.
pub fn sync_block(
    hashtable: &mut HashTableDb,
    tree: &mut CommitmentTreeDb,
    block: &ValidatedBlock,
    nf_from: u64,
    wit_from: u64,
    target_size: usize,
) -> (r: Result<(), ServerError>)
    requires
        old(hashtable).wf(),
        old(tree).wf(),
        ironwood_actions(block.block.vtx@).len() <= u32::MAX,
        old(hashtable)@.count + ironwood_actions(block.block.vtx@).len() <= usize::MAX,
        old(tree)@.leaves.len() + ironwood_actions(block.block.vtx@).len() <= usize::MAX,
    ensures
        final(hashtable).wf(),
        final(tree).wf(),
        ({
            let table_takes = block.block.height >= nf_from;
            let tree_takes = block.block.height >= wit_from;
            let table = if table_takes {
                Some(old(hashtable)@)
            } else {
                None
            };
            let leaves = if tree_takes {
                Some(old(tree)@)
            } else {
                None
            };
            &&& r is Ok <==> block_applies(table, leaves, *block)
            &&& r is Ok ==> final(hashtable)@ == evicted_to(
                if table_takes {
                    nf::block_inserted(old(hashtable)@, *block)
                } else {
                    old(hashtable)@
                },
                target_size as nat,
            )
            &&& r is Ok ==> final(tree)@ == (if tree_takes {
                wit::block_appended(old(tree)@, *block)
            } else {
                old(tree)@
            })
            &&& r matches Err(error) ==> final(hashtable)@ == old(hashtable)@ && final(tree)@
                == old(tree)@ && block_refused(
                table,
                leaves,
                *block,
                "combined historical sync",
                error,
            )
        }),
{
    let height: u64 = block.height();
    let applied = if height >= nf_from {
        if height >= wit_from {
            apply_block(block, Some(&mut *hashtable), Some(&mut *tree), "combined historical sync")
        } else {
            apply_block(block, Some(&mut *hashtable), None, "combined historical sync")
        }
    } else if height >= wit_from {
        apply_block(block, None, Some(&mut *tree), "combined historical sync")
    } else {
        apply_block(block, None, None, "combined historical sync")
    };
    match applied {
        Ok(_) => {
            hashtable.evict_to_size(target_size);
            Ok(())
        },
        Err(error) => Err(error),
    }
}

/// Applies what happened to the confirmed chain to both stores, and keeps the
/// table to its size. Whether a block came in.
pub fn apply_event(
    hashtable: &mut HashTableDb,
    tree: &mut CommitmentTreeDb,
    event: &BlockEvent,
    target_size: usize,
) -> (r: Result<bool, ServerError>)
    requires
        old(hashtable).wf(),
        old(tree).wf(),
        event matches BlockEvent::NewBlock(block) ==> ironwood_actions(block.block.vtx@).len()
            <= u32::MAX && old(hashtable)@.count + ironwood_actions(block.block.vtx@).len()
            <= usize::MAX && old(tree)@.leaves.len() + ironwood_actions(block.block.vtx@).len()
            <= usize::MAX,
    ensures
        final(hashtable).wf(),
        final(tree).wf(),
        match *event {
            BlockEvent::NewBlock(block) => {
                let table = Some(old(hashtable)@);
                let leaves = Some(old(tree)@);
                &&& r is Ok <==> block_applies(table, leaves, block)
                &&& r matches Ok(new) ==> new && final(hashtable)@ == evicted_to(
                    nf::block_inserted(old(hashtable)@, block),
                    target_size as nat,
                ) && final(tree)@ == wit::block_appended(old(tree)@, block)
                &&& r matches Err(error) ==> final(hashtable)@ == old(hashtable)@ && final(tree)@
                    == old(tree)@ && block_refused(table, leaves, block, "combined follow", error)
            },
            BlockEvent::Reorg { rollback_to } => {
                &&& r is Ok <==> can_rewind(old(hashtable)@, rollback_to)
                &&& final(hashtable)@ == rewound(old(hashtable)@, rollback_to)
                &&& r matches Ok(new) ==> !new && final(tree)@ == rolled_back_to(
                    old(tree)@,
                    rollback_to,
                )
                &&& r matches Err(error) ==> final(tree)@ == old(tree)@ && error
                    == ServerError::HashTable(HashTableError::BlockNotFound)
            },
        },
{
    match event {
        BlockEvent::Reorg { rollback_to } => {
            match hashtable.rewind_to(*rollback_to) {
                Ok(()) => {},
                Err(error) => return Err(ServerError::HashTable(error)),
            }
            tree.rollback_to(*rollback_to);
            Ok(false)
        },
        BlockEvent::NewBlock(block) => {
            match apply_block(
                block,
                Some(&mut *hashtable),
                Some(&mut *tree),
                "combined follow",
            ) {
                Ok(_) => {},
                Err(error) => return Err(error),
            }
            hashtable.evict_to_size(target_size);
            Ok(true)
        },
    }
}

} // verus!

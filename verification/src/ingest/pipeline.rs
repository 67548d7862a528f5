//! Validated, protocol-neutral compact block sync and follow pipeline.

use super::proto::CompactBlock;
use crate::bytes::{exact_32, hash_eq, Hash32};
use crate::text::{around_number, decimal};
use vstd::prelude::*;
#[allow(unused_imports)]
use crate::bytes::lemma_hash_ext;
#[allow(unused_imports)]
use crate::text::decimal_text;

verus! {

/// Blocks fetched at a time.
pub const BATCH_SIZE: u64 = 10_000;

/// A compact block whose hashes and place in the chain have been checked.
#[derive(Debug, Clone)]
pub struct ValidatedBlock {
    pub block: CompactBlock,
    pub hash: Hash32,
    pub prev_hash: Hash32,
}

impl ValidatedBlock {
    pub fn height(&self) -> (height: u64)
        ensures
            height == self.block.height,
    {
        self.block.height
    }
}

/// What happens to the confirmed chain.
#[derive(Debug, Clone)]
pub enum BlockEvent {
    NewBlock(ValidatedBlock),
    Reorg { rollback_to: u64 },
}

/// Why blocks were refused. A failed call is kept in words.
#[derive(Debug)]
pub enum PipelineError {
    Client(String),
    InvalidHash { height: u64, field: &'static str, actual: usize },
    UnexpectedHeight { expected: u64, actual: u64 },
    IncompleteRange { expected: u64, actual: u64 },
    BrokenLink { height: u64 },
    ReorgBeyondWindow { height: u64, depth: usize },
    ConsumerDropped,
    InvalidBlock { height: u64, reason: String },
}

impl PipelineError {
    /// The text shown to a person.
    pub open spec fn text(&self) -> Seq<char> {
        match self {
            PipelineError::Client(reason) => reason@,
            PipelineError::InvalidHash { height, field, actual } => "block "@ + decimal_text(
                *height as nat,
            ) + " has a "@ + decimal_text(*actual as nat) + "-byte "@ + field@ + "; expected 32"@,
            PipelineError::UnexpectedHeight { expected, actual } => "block range returned height "@
                + decimal_text(*actual as nat) + "; expected "@ + decimal_text(*expected as nat),
            PipelineError::IncompleteRange { expected, actual } => "block range ended at height "@
                + decimal_text(*actual as nat) + "; expected "@ + decimal_text(*expected as nat),
            PipelineError::BrokenLink { height } => "block "@ + decimal_text(*height as nat)
                + " does not link to the preceding block"@,
            PipelineError::ReorgBeyondWindow { height, depth } => "local block "@ + decimal_text(
                *height as nat,
            ) + " no longer matches lightwalletd and the fork exceeds the "@ + decimal_text(
                *depth as nat,
            ) + "-block tracking window"@,
            PipelineError::ConsumerDropped => "block consumer dropped"@,
            PipelineError::InvalidBlock { height, reason } => "invalid block "@ + decimal_text(
                *height as nat,
            ) + ": "@ + reason@,
        }
    }

    /// The text shown to a person.
    pub fn message(&self) -> (s: String)
        ensures
            s@ == self.text(),
    {
        match self {
            PipelineError::Client(reason) => reason.clone(),
            PipelineError::InvalidHash { height, field, actual } => {
                let mut s = around_number("block ", *height, " has a ");
                s.append(decimal(*actual as u64).as_str());
                s.append("-byte ");
                s.append(field);
                s.append("; expected 32");
                s
            },
            PipelineError::UnexpectedHeight { expected, actual } => {
                let mut s = around_number("block range returned height ", *actual, "; expected ");
                s.append(decimal(*expected).as_str());
                s
            },
            PipelineError::IncompleteRange { expected, actual } => {
                let mut s = around_number("block range ended at height ", *actual, "; expected ");
                s.append(decimal(*expected).as_str());
                s
            },
            PipelineError::BrokenLink { height } => around_number(
                "block ",
                *height,
                " does not link to the preceding block",
            ),
            PipelineError::ReorgBeyondWindow { height, depth } => {
                let mut s = around_number(
                    "local block ",
                    *height,
                    " no longer matches lightwalletd and the fork exceeds the ",
                );
                s.append(decimal(*depth as u64).as_str());
                s.append("-block tracking window");
                s
            },
            PipelineError::ConsumerDropped => "block consumer dropped".to_owned(),
            PipelineError::InvalidBlock { height, reason } => {
                let mut s = around_number("invalid block ", *height, ": ");
                s.append(reason.as_str());
                s
            },
        }
    }
}

/// The hash that block `i` of a range has to follow, if any is known.
pub open spec fn prior_hash(blocks: Seq<CompactBlock>, i: int, before: Option<Hash32>) -> Option<
    Seq<u8>,
> {
    if i == 0 {
        match before {
            Some(hash) => Some(hash@),
            None => None,
        }
    } else {
        Some(blocks[i - 1].hash@)
    }
}

/// Whether block `i` of a range that starts at `start` has the right height,
/// hashes of 32 bytes, and follows the block before it.
pub open spec fn block_fits(
    blocks: Seq<CompactBlock>,
    i: int,
    start: u64,
    before: Option<Hash32>,
) -> bool {
    let block = blocks[i];
    &&& block.height == start + i
    &&& block.hash@.len() == 32
    &&& block.prev_hash@.len() == 32
    &&& prior_hash(blocks, i, before) matches Some(hash) ==> hash == block.prev_hash@
}

/// The error for a block that does not fit: its height first, then its hash,
/// the hash before it, and the link.
pub open spec fn misfit(
    blocks: Seq<CompactBlock>,
    i: int,
    start: u64,
    error: PipelineError,
) -> bool {
    let block = blocks[i];
    if block.height != start + i {
        error == PipelineError::UnexpectedHeight {
            expected: (start + i) as u64,
            actual: block.height,
        }
    } else if block.hash@.len() != 32 {
        error matches PipelineError::InvalidHash { height, field, actual } && height == block.height
            && field@ == "hash"@ && actual == block.hash@.len()
    } else if block.prev_hash@.len() != 32 {
        error matches PipelineError::InvalidHash { height, field, actual } && height == block.height
            && field@ == "previous hash"@ && actual == block.prev_hash@.len()
    } else {
        error == PipelineError::BrokenLink { height: block.height }
    }
}

/// Whether every block of a range fits.
pub open spec fn all_fit_range(
    blocks: Seq<CompactBlock>,
    start: u64,
    before: Option<Hash32>,
) -> bool {
    forall|i: int| 0 <= i < blocks.len() ==> #[trigger] block_fits(blocks, i, start, before)
}

/// Whether `i` is the first block of a range that does not fit.
pub open spec fn first_misfit(
    blocks: Seq<CompactBlock>,
    i: int,
    start: u64,
    before: Option<Hash32>,
) -> bool {
    &&& 0 <= i < blocks.len()
    &&& !block_fits(blocks, i, start, before)
    &&& forall|j: int| 0 <= j < i ==> #[trigger] block_fits(blocks, j, start, before)
}

/// The error for blocks that are not exactly those of an inclusive range:
/// that of the first block that does not fit, else that they end elsewhere.
pub open spec fn range_refused(
    blocks: Seq<CompactBlock>,
    start: u64,
    end: int,
    before: Option<Hash32>,
    error: PipelineError,
) -> bool {
    if all_fit_range(blocks, start, before) {
        error == (PipelineError::IncompleteRange {
            expected: end as u64,
            actual: if start + blocks.len() == 0 {
                0
            } else {
                (start + blocks.len() - 1) as u64
            },
        })
    } else {
        exists|i: int| #[trigger]
            first_misfit(blocks, i, start, before) && misfit(blocks, i, start, error)
    }
}

/// Whether `validated` are `blocks` with their hashes read.
pub open spec fn validated_from(
    validated: Seq<ValidatedBlock>,
    blocks: Seq<CompactBlock>,
) -> bool {
    &&& validated.len() == blocks.len()
    &&& forall|i: int|
        0 <= i < blocks.len() ==> (#[trigger] validated[i]).block == blocks[i] && validated[i].hash@
            == blocks[i].hash@ && validated[i].prev_hash@ == blocks[i].prev_hash@
}

/// Whether blocks are consecutive from `start` on and each names the one
/// before it, the first one `before` where that is known.
pub open spec fn linked_run(
    validated: Seq<ValidatedBlock>,
    start: int,
    before: Option<Hash32>,
) -> bool {
    &&& forall|i: int|
        0 <= i < validated.len() ==> (#[trigger] validated[i]).block.height == start + i
    &&& validated.len() > 0 && before is Some ==> validated[0].prev_hash == before->0
    &&& forall|i: int|
        0 < i < validated.len() ==> (#[trigger] validated[i]).prev_hash == validated[i - 1].hash
}

/// The hash of the last block, or `before` where there is none.
pub open spec fn last_hash(validated: Seq<ValidatedBlock>, before: Option<Hash32>) -> Option<
    Hash32,
> {
    if validated.len() == 0 {
        before
    } else {
        Some(validated.last().hash)
    }
}

/// Reads a hash of exactly 32 bytes.
fn exact_hash(height: u64, field: &'static str, bytes: &Vec<u8>) -> (r: Result<
    Hash32,
    PipelineError,
>)
    ensures
        r is Ok <==> bytes@.len() == 32,
        r matches Ok(hash) ==> hash@ == bytes@,
        r matches Err(error) ==> (error matches PipelineError::InvalidHash {
            height: h,
            field: f,
            actual,
        } && h == height && f == field && actual == bytes@.len()),
{
    match exact_32(bytes.as_slice()) {
        Some(hash) => Ok(hash),
        None => Err(PipelineError::InvalidHash { height, field, actual: bytes.len() }),
    }
}

/// Checks one block against the height and the hash that it has to follow.
fn validate_block(block: CompactBlock, expected: u64, prior: Option<Hash32>) -> (r: Result<
    ValidatedBlock,
    PipelineError,
>)
    ensures
        r is Ok <==> block.height == expected && block.hash@.len() == 32 && block.prev_hash@.len()
            == 32 && (prior matches Some(hash) ==> hash@ == block.prev_hash@),
        r matches Ok(valid) ==> valid.block == block && valid.hash@ == block.hash@
            && valid.prev_hash@ == block.prev_hash@,
        r matches Err(error) ==> {
            if block.height != expected {
                error == (PipelineError::UnexpectedHeight { expected, actual: block.height })
            } else if block.hash@.len() != 32 {
                error matches PipelineError::InvalidHash { height, field, actual } && height
                    == block.height && field@ == "hash"@ && actual == block.hash@.len()
            } else if block.prev_hash@.len() != 32 {
                error matches PipelineError::InvalidHash { height, field, actual } && height
                    == block.height && field@ == "previous hash"@ && actual
                    == block.prev_hash@.len()
            } else {
                error == (PipelineError::BrokenLink { height: block.height })
            }
        },
{
    if block.height != expected {
        return Err(PipelineError::UnexpectedHeight { expected, actual: block.height });
    }
    let hash = match exact_hash(block.height, "hash", &block.hash) {
        Ok(hash) => hash,
        Err(error) => return Err(error),
    };
    let prev_hash = match exact_hash(block.height, "previous hash", &block.prev_hash) {
        Ok(hash) => hash,
        Err(error) => return Err(error),
    };
    if let Some(prior) = prior {
        proof {
            lemma_hash_ext(prior, prev_hash);
        }
        if !hash_eq(&prior, &prev_hash) {
            return Err(PipelineError::BrokenLink { height: block.height });
        }
    }
    Ok(ValidatedBlock { block, hash, prev_hash })
}

/// Checks that blocks are exactly those of an inclusive range, each linked to
/// the one before it.
pub fn validate_range(
    blocks: Vec<CompactBlock>,
    start: u64,
    end: u64,
    expected_prev: Option<Hash32>,
) -> (r: Result<Vec<ValidatedBlock>, PipelineError>)
    requires
        end < u64::MAX,
        start + blocks@.len() <= u64::MAX,
    ensures
        r is Ok <==> all_fit_range(blocks@, start, expected_prev) && start + blocks@.len() == end
            + 1,
        r matches Ok(validated) ==> validated_from(validated@, blocks@) && linked_run(
            validated@,
            start as int,
            expected_prev,
        ),
        r matches Err(error) ==> range_refused(blocks@, start, end as int, expected_prev, error),
{
    let ghost all = blocks@;
    let mut validated: Vec<ValidatedBlock> = Vec::with_capacity(blocks.len());
    let mut expected_height: u64 = start;
    let mut prior: Option<Hash32> = expected_prev;
    for block in iter: blocks
        invariant
            iter.seq() == all,
            start + all.len() <= u64::MAX,
            expected_height == start + iter.index(),
            validated@.len() == iter.index(),
            validated_from(validated@, all.take(iter.index() as int)),
            linked_run(validated@, start as int, expected_prev),
            prior == last_hash(validated@, expected_prev),
            forall|j: int| 0 <= j < iter.index() ==> #[trigger] block_fits(all, j, start, expected_prev),
    {
        let ghost i = validated@.len() as int;
        let ghost before = validated@;
        proof {
            assert(block == all[i]);
            if i > 0 {
                assert(all.take(i)[i - 1] == all[i - 1]);
                assert(validated@[i - 1].hash@ == all[i - 1].hash@);
            }
            assert(prior_hash(all, i, expected_prev) == (match prior {
                Some(hash) => Some(hash@),
                None => None,
            }));
        }
        match validate_block(block, expected_height, prior) {
            Ok(valid) => {
                proof {
                    assert(block_fits(all, i, start, expected_prev));
                    if prior is Some {
                        lemma_hash_ext(prior->0, valid.prev_hash);
                    }
                }
                prior = Some(valid.hash);
                validated.push(valid);
                proof {
                    assert forall|j: int| 0 <= j < i + 1 implies (
                    #[trigger] validated@[j]).block == all.take(i + 1)[j] && validated@[j].hash@
                        == all.take(i + 1)[j].hash@ && validated@[j].prev_hash@ == all.take(
                        i + 1,
                    )[j].prev_hash@ by {
                        if j < i {
                            assert(validated@[j] == before[j]);
                            assert(all.take(i)[j] == all.take(i + 1)[j]);
                        }
                    }
                    assert forall|j: int| 0 <= j < i + 1 implies (
                    #[trigger] validated@[j]).block.height == start + j by {
                        if j < i {
                            assert(validated@[j] == before[j]);
                        }
                    }
                    assert forall|j: int| 0 < j < i + 1 implies (
                    #[trigger] validated@[j]).prev_hash == validated@[j - 1].hash by {
                        assert(validated@[j - 1] == before[j - 1]);
                        if j < i {
                            assert(validated@[j] == before[j]);
                        }
                    }
                }
            },
            Err(error) => {
                proof {
                    assert(!block_fits(all, i, start, expected_prev));
                    assert(first_misfit(all, i, start, expected_prev));
                    assert(misfit(all, i, start, error));
                }
                return Err(error);
            },
        }
        expected_height += 1;
    }
    assert(all.take(all.len() as int) =~= all);
    if expected_height != end + 1 {
        let actual: u64 = if expected_height == 0 {
            0
        } else {
            expected_height - 1
        };
        return Err(PipelineError::IncompleteRange { expected: end, actual });
    }
    Ok(validated)
}

} // verus!

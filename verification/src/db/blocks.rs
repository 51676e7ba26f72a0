//! The block store: blocks are only ever added, each under a new id.

use crate::db::{blocks_chained, Ledger, LedgerView};
use crate::models::error::{failure, ServerError};
use crate::models::primitives::{zero_bytes, Address, Id, H256};
use crate::models::Block;
use vstd::prelude::*;

verus! {

/// The block that is stored for the given values.
pub open spec fn stored_block(
    block_id: Id,
    hash: H256,
    parent_hash: H256,
    merkle_root: H256,
    produced_by: Address,
    nonce: u64,
) -> Block {
    Block {
        id: block_id,
        hash: Some(hash),
        parent_hash,
        merkle_root,
        nonce: Some(nonce),
        produced_by: Some(produced_by),
    }
}

/// Whether `latest` is the id and the hash of the block with the highest id,
/// or 0 and the zero hash where there is no block.
pub open spec fn is_latest(blocks: Seq<Block>, latest: (Id, H256)) -> bool {
    if blocks.len() == 0 {
        latest.0 == 0 && latest.1@ == zero_bytes(32)
    } else {
        &&& exists|i: int|
            0 <= i < blocks.len() && (#[trigger] blocks[i]).id == latest.0 && blocks[i].hash
                == Some(latest.1)
        &&& forall|i: int| 0 <= i < blocks.len() ==> (#[trigger] blocks[i]).id <= latest.0
    }
}

/// In a chain, the latest block is the last one, and its id is the number of
/// blocks.
pub proof fn lemma_latest_is_last(blocks: Seq<Block>, latest: (Id, H256))
    requires
        blocks_chained(blocks),
        is_latest(blocks, latest),
    ensures
        latest.0 == blocks.len(),
        blocks.len() > 0 ==> blocks.last().id == latest.0 && blocks.last().hash == Some(latest.1),
{
    if blocks.len() > 0 {
        assert(blocks[blocks.len() - 1].id == blocks.len());
        let i = choose|i: int|
            0 <= i < blocks.len() && (#[trigger] blocks[i]).id == latest.0 && blocks[i].hash
                == Some(latest.1);
        assert(blocks[i].id == i + 1);
    }
}

/// Adds a block. An id that is already stored is refused with status 500.
pub fn add_block(
    conn: &mut Ledger,
    block_id: u64,
    hash: H256,
    parent_hash: H256,
    merkle_root: H256,
    produced_by: Address,
    nonce: u64,
) -> (done: Result<(), ServerError>)
    requires
        old(conn).wf(),
    ensures
        final(conn).wf(),
        match done {
            Ok(_) => {
                &&& forall|i: int|
                    0 <= i < old(conn)@.blocks.len() ==> (#[trigger] old(conn)@.blocks[i]).id
                        != block_id
                &&& final(conn)@ == (LedgerView {
                    blocks: old(conn)@.blocks.push(
                        stored_block(block_id, hash, parent_hash, merkle_root, produced_by, nonce),
                    ),
                    ..old(conn)@
                })
            },
            Err(e) => {
                &&& exists|i: int|
                    0 <= i < old(conn)@.blocks.len() && (#[trigger] old(conn)@.blocks[i]).id
                        == block_id
                &&& e@ == failure(500, "Failed adding block: duplicate id"@)
                &&& final(conn)@ == old(conn)@
            },
        },
{
    let mut i: usize = 0;
    while i < conn.blocks.len()
        invariant
            i <= conn.blocks@.len(),
            *conn == *old(conn),
            conn.wf(),
            forall|j: int| 0 <= j < i ==> (#[trigger] conn.blocks@[j]).id != block_id,
        decreases conn.blocks@.len() - i,
    {
        if conn.blocks[i].id == block_id {
            return Err(ServerError::with_text(500, "Failed adding block: duplicate id"));
        }
        i += 1;
    }
    conn.blocks.push(
        Block {
            id: block_id,
            hash: Some(hash),
            parent_hash,
            merkle_root,
            nonce: Some(nonce),
            produced_by: Some(produced_by),
        },
    );
    Ok(())
}

/// The id and the hash of the block with the highest id, or 0 and the zero
/// hash where there is no block yet.
pub fn get_latest_block(conn: &Ledger) -> (latest: Result<(u64, H256), ServerError>)
    requires
        conn.wf(),
    ensures
        latest matches Ok(pair) && is_latest(conn@.blocks, pair),
{
    if conn.blocks.len() == 0 {
        return Ok((0, H256::zero()));
    }
    let mut best: usize = 0;
    let mut i: usize = 1;
    while i < conn.blocks.len()
        invariant
            best < i <= conn.blocks@.len(),
            forall|j: int| 0 <= j < i ==> (#[trigger] conn.blocks@[j]).id <= conn.blocks@[best as int].id,
        decreases conn.blocks@.len() - i,
    {
        if conn.blocks[i].id > conn.blocks[best].id {
            best = i;
        }
        i += 1;
    }
    let block = conn.blocks[best];
    match block.hash {
        Some(hash) => Ok((block.id, hash)),
        None => vstd::pervasive::unreached(),
    }
}

/// The block with the given id, if it is stored.
pub fn get_block_by_id(conn: &Ledger, block_id: Id) -> (found: Result<Option<Block>, ServerError>)
    ensures
        match found {
            Ok(Some(block)) => block.id == block_id && exists|i: int|
                0 <= i < conn@.blocks.len() && (#[trigger] conn@.blocks[i]) == block,
            Ok(None) => forall|i: int|
                0 <= i < conn@.blocks.len() ==> (#[trigger] conn@.blocks[i]).id != block_id,
            Err(_) => false,
        },
{
    let mut i: usize = 0;
    while i < conn.blocks.len()
        invariant
            i <= conn.blocks@.len(),
            forall|j: int| 0 <= j < i ==> (#[trigger] conn.blocks@[j]).id != block_id,
        decreases conn.blocks@.len() - i,
    {
        if conn.blocks[i].id == block_id {
            return Ok(Some(conn.blocks[i]));
        }
        i += 1;
    }
    Ok(None)
}

/// The first stored block with the given hash, if there is one.
pub fn get_block_by_hash(conn: &Ledger, hash: H256) -> (found: Result<Option<Block>, ServerError>)
    ensures
        match found {
            Ok(Some(block)) => block.hash == Some(hash) && exists|i: int|
                0 <= i < conn@.blocks.len() && (#[trigger] conn@.blocks[i]) == block && forall|
                    j: int,
                | 0 <= j < i ==> (#[trigger] conn@.blocks[j]).hash != Some(hash),
            Ok(None) => forall|i: int|
                0 <= i < conn@.blocks.len() ==> (#[trigger] conn@.blocks[i]).hash != Some(hash),
            Err(_) => false,
        },
{
    let mut i: usize = 0;
    while i < conn.blocks.len()
        invariant
            i <= conn.blocks@.len(),
            forall|j: int| 0 <= j < i ==> (#[trigger] conn.blocks@[j]).hash != Some(hash),
        decreases conn.blocks@.len() - i,
    {
        if conn.blocks[i].hash == Some(hash) {
            return Ok(Some(conn.blocks[i]));
        }
        i += 1;
    }
    Ok(None)
}

} // verus!

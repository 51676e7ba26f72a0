//! The store of Merkle nodes: the serialized nodes of the tree of each
//! block, kept in the order of block and position.

use crate::db::{node_row_le, node_rows_ordered, Ledger, LedgerView, MerkleNodeRow, NodeRowView};
use crate::models::error::{failure, MerkleTreeError, ServerError};
use crate::models::merkle_tree::{
    layered_nodes, lemma_node_bytes_round_trip, lemma_rebuild_round_trip, node_bytes,
    node_from_bytes, node_views, rebuilt_tree, MerkleNode, MerkleTree, NodeView, TreeView,
};
use crate::models::primitives::{Id, H256};
use vstd::arithmetic::power2::is_pow2;
use vstd::prelude::*;

verus! {

broadcast use H256::lemma_len;

/// Whether a row with the given block, root and position is stored.
pub open spec fn holds_node(rows: Seq<NodeRowView>, block_id: Id, root: H256, index: u64) -> bool {
    exists|i: int|
        0 <= i < rows.len() && (#[trigger] rows[i]).block_id == block_id && rows[i].root == root
            && rows[i].index == index
}

/// Whether `position` is the place of `row` among `rows`: behind every row
/// that stands before it or at the same place in the order of block and
/// position, and before every other one.
pub open spec fn is_node_position(rows: Seq<NodeRowView>, row: NodeRowView, position: int) -> bool {
    &&& 0 <= position <= rows.len()
    &&& forall|j: int| 0 <= j < position ==> node_row_le(#[trigger] rows[j], row)
    &&& forall|j: int| position <= j < rows.len() ==> !node_row_le(#[trigger] rows[j], row)
}

/// The rows after one node has been added. A row with the same block, root
/// and position keeps its place and its bytes, and nothing is added.
pub open spec fn with_node_row(rows: Seq<NodeRowView>, row: NodeRowView) -> Seq<NodeRowView> {
    if holds_node(rows, row.block_id, row.root, row.index) {
        rows
    } else {
        rows.insert(choose|position: int| is_node_position(rows, row, position), row)
    }
}

/// The row that holds the node at `index` of the tree of a block.
pub open spec fn node_row(block_id: Id, root: H256, node: NodeView, index: u64) -> NodeRowView {
    NodeRowView { block_id, root, index, node: node_bytes(node) }
}

/// The rows after the first `count` of the given nodes have been added, one
/// after the other, each at its position in the list.
pub open spec fn with_tree_rows(
    rows: Seq<NodeRowView>,
    block_id: Id,
    root: H256,
    nodes: Seq<NodeView>,
    count: nat,
) -> Seq<NodeRowView>
    decreases count,
{
    if count == 0 {
        rows
    } else {
        with_node_row(
            with_tree_rows(rows, block_id, root, nodes, (count - 1) as nat),
            node_row(block_id, root, nodes[count - 1], (count - 1) as u64),
        )
    }
}

/// The rows that hold the nodes of the tree of a block, in order.
pub open spec fn tree_rows(block_id: Id, root: H256, nodes: Seq<NodeView>) -> Seq<NodeRowView> {
    Seq::new(nodes.len(), |i: int| node_row(block_id, root, nodes[i], i as u64))
}

/// Where every stored row belongs to an earlier block, adding the nodes of
/// the tree of a block puts their rows behind all others, in order.
pub proof fn lemma_tree_rows_of_next_block(
    rows: Seq<NodeRowView>,
    block_id: Id,
    root: H256,
    nodes: Seq<NodeView>,
    count: nat,
)
    requires
        forall|i: int| 0 <= i < rows.len() ==> (#[trigger] rows[i]).block_id < block_id,
        count <= nodes.len() <= u64::MAX,
    ensures
        with_tree_rows(rows, block_id, root, nodes, count) == rows + tree_rows(
            block_id,
            root,
            nodes,
        ).subrange(0, count as int),
    decreases count,
{
    if count > 0 {
        lemma_tree_rows_of_next_block(rows, block_id, root, nodes, (count - 1) as nat);
        let added = tree_rows(block_id, root, nodes);
        let earlier = rows + added.subrange(0, count - 1);
        let row = node_row(block_id, root, nodes[count - 1], (count - 1) as u64);
        assert(!holds_node(earlier, row.block_id, row.root, row.index));
        assert(is_node_position(earlier, row, earlier.len() as int));
        let at = choose|position: int| is_node_position(earlier, row, position);
        assert(at == earlier.len()) by {
            if at < earlier.len() {
                assert(node_row_le(earlier[at], row));
            }
        }
    }
}

/// The rows that are stored for a block, in the order of their positions.
pub open spec fn stored_rows(rows: Seq<NodeRowView>, block_id: Id) -> Seq<NodeRowView> {
    rows.filter(|row: NodeRowView| row.block_id == block_id)
}

/// The nodes that rows hold.
pub open spec fn row_nodes(rows: Seq<NodeRowView>) -> Seq<NodeView> {
    rows.map_values(|row: NodeRowView| node_from_bytes(row.node).unwrap())
}

/// The nodes that are stored for a block, in the order of their positions.
pub open spec fn stored_nodes(rows: Seq<NodeRowView>, block_id: Id) -> Seq<NodeView> {
    row_nodes(stored_rows(rows, block_id))
}

/// The rows stored for a block are those up to the last row, and the last
/// row behind them where it belongs to the block.
pub proof fn lemma_stored_rows_step(rows: Seq<NodeRowView>, block_id: Id)
    requires
        rows.len() > 0,
    ensures
        stored_rows(rows, block_id) == if rows.last().block_id == block_id {
            stored_rows(rows.drop_last(), block_id).push(rows.last())
        } else {
            stored_rows(rows.drop_last(), block_id)
        },
{
    reveal(Seq::filter);
}

/// The nodes stored for a block among rows and further rows behind them are
/// those among the rows, then those among the further rows.
pub proof fn lemma_stored_nodes_add(front: Seq<NodeRowView>, behind: Seq<NodeRowView>, block_id: Id)
    ensures
        stored_nodes(front + behind, block_id) == stored_nodes(front, block_id) + stored_nodes(
            behind,
            block_id,
        ),
    decreases behind.len(),
{
    if behind.len() == 0 {
        assert(stored_rows(behind, block_id) =~= Seq::empty()) by {
            reveal(Seq::filter);
        }
    } else {
        let all = front + behind;
        lemma_stored_nodes_add(front, behind.drop_last(), block_id);
        lemma_stored_rows_step(all, block_id);
        lemma_stored_rows_step(behind, block_id);
    }
}

/// Rows of other blocks hold no nodes of a block.
pub proof fn lemma_stored_nodes_none(rows: Seq<NodeRowView>, block_id: Id)
    requires
        forall|i: int| 0 <= i < rows.len() ==> (#[trigger] rows[i]).block_id != block_id,
    ensures
        stored_nodes(rows, block_id).len() == 0,
    decreases rows.len(),
{
    if rows.len() > 0 {
        lemma_stored_nodes_none(rows.drop_last(), block_id);
        lemma_stored_rows_step(rows, block_id);
    } else {
        reveal(Seq::filter);
    }
}

/// Rows of one block hold, in order, the nodes that their bytes stand for.
pub proof fn lemma_stored_nodes_all(rows: Seq<NodeRowView>, block_id: Id)
    requires
        forall|i: int| 0 <= i < rows.len() ==> (#[trigger] rows[i]).block_id == block_id,
    ensures
        stored_rows(rows, block_id) == rows,
        stored_nodes(rows, block_id) == row_nodes(rows),
    decreases rows.len(),
{
    if rows.len() > 0 {
        lemma_stored_nodes_all(rows.drop_last(), block_id);
        lemma_stored_rows_step(rows, block_id);
    } else {
        reveal(Seq::filter);
    }
}

/// Rows that hold, for one block, the nodes of the tree over some leaves,
/// behind rows of other blocks, form that tree.
pub proof fn lemma_tree_of_added_rows(
    rows: Seq<NodeRowView>,
    added: Seq<NodeRowView>,
    block_id: Id,
    leaves: Seq<Seq<u8>>,
)
    requires
        is_pow2(leaves.len() as int),
        forall|i: int| 0 <= i < rows.len() ==> (#[trigger] rows[i]).block_id != block_id,
        added.len() == layered_nodes(leaves).len(),
        forall|i: int|
            0 <= i < added.len() ==> (#[trigger] added[i]).block_id == block_id && node_from_bytes(
                added[i].node,
            ) == Ok::<NodeView, MerkleTreeError>(layered_nodes(leaves)[i]),
    ensures
        rebuilt_tree(stored_nodes(rows + added, block_id)) == Ok::<TreeView, MerkleTreeError>(
            TreeView::over(leaves),
        ),
{
    lemma_stored_nodes_add(rows, added, block_id);
    lemma_stored_nodes_none(rows, block_id);
    lemma_stored_nodes_all(added, block_id);
    assert(row_nodes(added) =~= layered_nodes(leaves));
    lemma_rebuild_round_trip(TreeView::over(leaves));
}

/// Rows of one block behind other rows leave the nodes stored for every
/// other block as they were.
pub proof fn lemma_stored_nodes_of_others(
    rows: Seq<NodeRowView>,
    added: Seq<NodeRowView>,
    block_id: Id,
    other: Id,
)
    requires
        other != block_id,
        forall|i: int| 0 <= i < added.len() ==> (#[trigger] added[i]).block_id == block_id,
    ensures
        stored_nodes(rows + added, other) == stored_nodes(rows, other),
{
    lemma_stored_nodes_add(rows, added, other);
    lemma_stored_nodes_none(added, other);
}

/// Stores all nodes of a tree, which has its leaves, for a block: one row for
/// each node, in order, with its position in the tree.
pub fn add_merkle_tree(conn: &mut Ledger, block_id: Id, tree: MerkleTree) -> (done: Result<
    (),
    ServerError,
>)
    requires
        old(conn).wf(),
        tree.root is Some,
    ensures
        done is Ok,
        final(conn).wf(),
        final(conn)@ == (LedgerView {
            merkle_nodes: with_tree_rows(
                old(conn)@.merkle_nodes,
                block_id,
                tree.root.unwrap(),
                node_views(tree.nodes@),
                tree.nodes@.len(),
            ),
            ..old(conn)@
        }),
{
    let root = match tree.root() {
        Some(root) => root,
        None => vstd::pervasive::unreached(),
    };
    let nodes = tree.nodes;
    let mut i: usize = 0;
    while i < nodes.len()
        invariant
            i <= nodes@.len(),
            conn.wf(),
            conn@ == (LedgerView {
                merkle_nodes: with_tree_rows(
                    old(conn)@.merkle_nodes,
                    block_id,
                    root,
                    node_views(nodes@),
                    i as nat,
                ),
                ..old(conn)@
            }),
        decreases nodes@.len() - i,
    {
        let _ = add_merkle_node(conn, block_id, root, nodes[i], i);
        i += 1;
    }
    Ok(())
}

/// Stores one node of the tree of a block at its position. Where a row with
/// the same block, root and position is stored already, nothing changes.
pub fn add_merkle_node(
    conn: &mut Ledger,
    block_id: Id,
    root: H256,
    node: MerkleNode,
    index: usize,
) -> (done: Result<(), ServerError>)
    requires
        old(conn).wf(),
    ensures
        done is Ok,
        final(conn).wf(),
        final(conn)@ == (LedgerView {
            merkle_nodes: with_node_row(
                old(conn)@.merkle_nodes,
                node_row(block_id, root, node@, index as u64),
            ),
            ..old(conn)@
        }),
{
    let bytes = node.as_bvtes();
    let row = MerkleNodeRow { block_id, root, index: index as u64, node: bytes };
    let ghost rows = conn@.merkle_nodes;
    proof {
        lemma_node_bytes_round_trip(node@);
    }
    let mut i: usize = 0;
    while i < conn.merkle_nodes.len()
        invariant
            i <= conn.merkle_nodes@.len(),
            *conn == *old(conn),
            conn.wf(),
            forall|j: int|
                0 <= j < i ==> !((#[trigger] conn@.merkle_nodes[j]).block_id == block_id
                    && conn@.merkle_nodes[j].root == root && conn@.merkle_nodes[j].index
                    == index as u64),
        decreases conn.merkle_nodes@.len() - i,
    {
        let stored = conn.merkle_nodes[i];
        assert(conn@.merkle_nodes[i as int] == stored@);
        if stored.block_id == block_id && stored.root == root && stored.index == index as u64 {
            return Ok(());
        }
        i += 1;
    }
    let mut position: usize = 0;
    while position < conn.merkle_nodes.len() && row_le(&conn.merkle_nodes[position], &row)
        invariant
            position <= conn.merkle_nodes@.len(),
            *conn == *old(conn),
            forall|j: int| 0 <= j < position ==> node_row_le(#[trigger] conn@.merkle_nodes[j], row@),
        decreases conn.merkle_nodes@.len() - position,
    {
        position += 1;
    }
    proof {
        assert(position < rows.len() ==> rows[position as int]
            == conn.merkle_nodes@[position as int]@);
        assert(is_node_position(rows, row@, position as int));
        let chosen = choose|p: int| is_node_position(rows, row@, p);
        assert(chosen == position) by {
            if chosen < position {
                assert(node_row_le(rows[chosen], row@));
            }
            if position < chosen {
                assert(node_row_le(rows[position as int], row@));
            }
        }
        assert(node_rows_ordered(rows.insert(position as int, row@)));
    }
    conn.merkle_nodes.insert(position, row);
    assert(conn@.merkle_nodes =~= rows.insert(position as int, row@));
    Ok(())
}

fn row_le(a: &MerkleNodeRow, b: &MerkleNodeRow) -> (le: bool)
    ensures
        le == node_row_le(a@, b@),
{
    a.block_id < b.block_id || (a.block_id == b.block_id && a.index <= b.index)
}

/// Loads the Merkle tree of a block: the nodes stored for the block, in the
/// order of their positions, rebuilt into a tree. Where they are none or do
/// not form a tree, the request fails with status 400.
pub fn get_merkle_tree(conn: &Ledger, block_id: Id) -> (loaded: Result<MerkleTree, ServerError>)
    requires
        conn.wf(),
    ensures
        match rebuilt_tree(stored_nodes(conn@.merkle_nodes, block_id)) {
            Ok(view) => loaded matches Ok(tree) && tree@ == view && tree.wf(),
            Err(e) => loaded matches Err(err) && err@ == failure(
                400,
                "MerkleTreeError: "@ + e.name_text(),
            ),
        },
{
    let mut nodes: Vec<MerkleNode> = Vec::new();
    let mut i: usize = 0;
    let ghost rows = conn@.merkle_nodes;
    proof {
        reveal(Seq::filter);
    }
    while i < conn.merkle_nodes.len()
        invariant
            i <= conn.merkle_nodes@.len(),
            conn.wf(),
            rows == conn@.merkle_nodes,
            node_views(nodes@) == stored_nodes(rows.subrange(0, i as int), block_id),
        decreases conn.merkle_nodes@.len() - i,
    {
        let row = conn.merkle_nodes[i];
        let ghost before = nodes@;
        proof {
            let next = rows.subrange(0, i + 1);
            assert(next.drop_last() =~= rows.subrange(0, i as int));
            lemma_stored_rows_step(next, block_id);
        }
        if row.block_id == block_id {
            match MerkleNode::from_bytes(row.node) {
                Ok(node) => {
                    nodes.push(node);
                    assert(node_views(nodes@) =~= node_views(before).push(node@));
                },
                Err(_) => {
                    assert(false);
                },
            }
        }
        i += 1;
    }
    assert(rows.subrange(0, i as int) =~= rows);
    match MerkleTree::from_nodes(nodes) {
        Ok(tree) => Ok(tree),
        Err(e) => Err(ServerError::from(e)),
    }
}

/// The position in its block and the block of a confirmed transaction.
/// There is none for a transaction that is pending or not stored.
pub fn get_transaction_index_and_block(conn: &Ledger, tx_hash: H256) -> (found: Result<
    Option<(Id, Id)>,
    ServerError,
>)
    ensures
        match found {
            Ok(Some((index, block_id))) => exists|i: int|
                0 <= i < conn@.transactions.len() && (#[trigger] conn@.transactions[i]).tx.hash
                    == tx_hash && conn@.transactions[i].index_in_block == Some(index)
                    && conn@.transactions[i].tx.block_id == Some(block_id),
            Ok(None) => forall|i: int|
                0 <= i < conn@.transactions.len() && (#[trigger] conn@.transactions[i]).tx.hash
                    == tx_hash ==> conn@.transactions[i].index_in_block is None
                    || conn@.transactions[i].tx.block_id is None,
            Err(_) => false,
        },
{
    let mut i: usize = 0;
    while i < conn.transactions.len()
        invariant
            i <= conn.transactions@.len(),
            forall|j: int|
                0 <= j < i && (#[trigger] conn.transactions@[j]).tx.hash == tx_hash
                    ==> conn.transactions@[j].index_in_block is None
                    || conn.transactions@[j].tx.block_id is None,
        decreases conn.transactions@.len() - i,
    {
        let row = conn.transactions[i];
        if row.tx.hash == tx_hash {
            match (row.index_in_block, row.tx.block_id) {
                (Some(index), Some(block_id)) => {
                    return Ok(Some((index, block_id)));
                },
                _ => {},
            }
        }
        i += 1;
    }
    Ok(None)
}

} // verus!

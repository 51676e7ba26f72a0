//! The Merkle engine: a tree of fixed power-of-two size over leaf hashes,
//! stored layer by layer, with inclusion proofs.
//!
//! Every node carries the side of its parent on which it sits. A proof is the
//! list of siblings along the path from a leaf to the root, closed by the
//! root itself, which carries no side.

use crate::crypto::hash::{blake2s256, hash_nodes, hash_pair};
use crate::models::error::MerkleTreeError;
use crate::models::primitives::{zero_bytes, Id, H256};
use vstd::arithmetic::logarithm::{lemma_log0, lemma_log_s, log};
use vstd::arithmetic::power2::is_pow2;
use vstd::prelude::*;
use vstd::slice::slice_subrange;

verus! {

broadcast use H256::lemma_len;

/// The side of its parent on which a node sits.
#[derive(Copy, Clone, Debug, PartialEq, Eq, Structural)]
pub enum Direction {
    Left,
    Right,
}

/// A node of the tree: a hash, and the side of its parent on which it sits.
/// Only the root has no side.
#[derive(Copy, Clone, Debug, Eq)]
pub struct MerkleNode {
    pub hash: H256,
    pub parent_direction: Option<Direction>,
}

/// A node as a value: the bytes of its hash, and its side.
pub struct NodeView {
    pub hash: Seq<u8>,
    pub parent_direction: Option<Direction>,
}

impl View for MerkleNode {
    type V = NodeView;

    open spec fn view(&self) -> NodeView {
        NodeView { hash: self.hash@, parent_direction: self.parent_direction }
    }
}

impl PartialEq for MerkleNode {
    fn eq(&self, other: &Self) -> (same: bool) {
        self.hash == other.hash && self.parent_direction == other.parent_direction
    }
}

impl vstd::std_specs::cmp::PartialEqSpecImpl for MerkleNode {
    open spec fn obeys_eq_spec() -> bool {
        true
    }

    open spec fn eq_spec(&self, other: &Self) -> bool {
        *self == *other
    }
}

/// The nodes of a sequence as values.
pub open spec fn node_views(nodes: Seq<MerkleNode>) -> Seq<NodeView> {
    nodes.map_values(|node: MerkleNode| node@)
}

/// The hashes of a sequence as byte strings.
pub open spec fn hash_views(hashes: Seq<H256>) -> Seq<Seq<u8>> {
    hashes.map_values(|hash: H256| hash@)
}

/// The byte that stands for a side in a serialized node.
pub open spec fn direction_code(direction: Option<Direction>) -> u8 {
    match direction {
        Some(Direction::Left) => 0,
        Some(Direction::Right) => 1,
        None => 2,
    }
}

/// The serialized form of a node: its hash, then the byte of its side.
pub open spec fn node_bytes(node: NodeView) -> Seq<u8> {
    node.hash.push(direction_code(node.parent_direction))
}

/// The node that 33 bytes stand for: the first 32 are its hash, the last one
/// its side, which must be 0, 1 or 2.
pub open spec fn node_from_bytes(bytes: Seq<u8>) -> Result<NodeView, MerkleTreeError> {
    if bytes[32] == 0 {
        Ok(NodeView { hash: bytes.subrange(0, 32), parent_direction: Some(Direction::Left) })
    } else if bytes[32] == 1 {
        Ok(NodeView { hash: bytes.subrange(0, 32), parent_direction: Some(Direction::Right) })
    } else if bytes[32] == 2 {
        Ok(NodeView { hash: bytes.subrange(0, 32), parent_direction: None })
    } else {
        Err(MerkleTreeError::DeserializingError)
    }
}

/// Reading back the serialized form of a node gives the node.
pub proof fn lemma_node_bytes_round_trip(node: NodeView)
    requires
        node.hash.len() == 32,
    ensures
        node_bytes(node).len() == 33,
        node_from_bytes(node_bytes(node)) == Ok::<NodeView, MerkleTreeError>(node),
{
    assert(node_bytes(node).subrange(0, 32) =~= node.hash);
}

/// Serializing the node that 33 bytes stand for gives the bytes back.
pub proof fn lemma_node_from_bytes_round_trip(bytes: Seq<u8>)
    requires
        bytes.len() == 33,
        node_from_bytes(bytes) is Ok,
    ensures
        node_bytes(node_from_bytes(bytes).unwrap()) == bytes,
{
    assert(node_bytes(node_from_bytes(bytes).unwrap()) =~= bytes);
}

impl MerkleNode {
    /// Two nodes with the same hash bytes and side are the same node.
    pub proof fn lemma_eq(self, other: Self)
        ensures
            (self@ == other@) <==> (self == other),
    {
        self.hash.lemma_eq(other.hash);
    }

    /// A node with the given hash and side.
    pub fn new(hash: H256, direction: Option<Direction>) -> (node: Self)
        ensures
            node.hash == hash,
            node.parent_direction == direction,
    {
        MerkleNode { hash, parent_direction: direction }
    }

    /// The parent of two nodes: its hash is the digest of the two hashes,
    /// `left` first.
    pub fn from_children(left: MerkleNode, right: MerkleNode, direction: Option<Direction>) -> (node: Self)
        ensures
            node@.hash == hash_pair(left@.hash, right@.hash),
            node.parent_direction == direction,
    {
        let hash = hash_nodes(&left.hash, &right.hash);
        MerkleNode { hash, parent_direction: direction }
    }

    /// Serializes the node to 33 bytes: the hash, then 0 for left, 1 for
    /// right or 2 for no side.
    pub fn as_bvtes(&self) -> (buffer: [u8; 33])
        ensures
            buffer@ == node_bytes(self@),
    {
        let mut buffer = [0u8; 33];
        let hash = self.hash.as_bytes();
        let mut i: usize = 0;
        while i < 32
            invariant
                i <= 32,
                hash@.len() == 32,
                forall|j: int| 0 <= j < i ==> buffer@[j] == hash@[j],
            decreases 32 - i,
        {
            buffer[i] = hash[i];
            i += 1;
        }
        buffer[32] = match self.parent_direction {
            Some(Direction::Left) => 0,
            Some(Direction::Right) => 1,
            None => 2,
        };
        assert(buffer@ =~= node_bytes(self@));
        buffer
    }

    /// Reads a node from 33 bytes. Fails where the last byte is none of 0, 1
    /// and 2.
    pub fn from_bytes(buffer: [u8; 33]) -> (read: Result<Self, MerkleTreeError>)
        ensures
            match node_from_bytes(buffer@) {
                Ok(view) => read matches Ok(node) && node@ == view,
                Err(e) => read == Err::<MerkleNode, MerkleTreeError>(e),
            },
    {
        let hash = H256::from_slice(slice_subrange(buffer.as_slice(), 0, 32));
        let direction = match buffer[32] {
            0 => Some(Direction::Left),
            1 => Some(Direction::Right),
            2 => None,
            _ => return Err(MerkleTreeError::DeserializingError),
        };
        Ok(MerkleNode::new(hash, direction))
    }
}

/// The side of a node from its position in its layer: left at even
/// positions, right at odd ones.
pub open spec fn parity_direction(position: int) -> Direction {
    if position % 2 == 0 {
        Direction::Left
    } else {
        Direction::Right
    }
}

/// The position next to `position` under the same parent.
pub open spec fn sibling_position(position: int) -> int {
    if position % 2 == 0 {
        position + 1
    } else {
        position - 1
    }
}

/// The layer above `layer`: the digest of each pair of neighbours.
pub open spec fn next_layer(layer: Seq<Seq<u8>>) -> Seq<Seq<u8>> {
    Seq::new(layer.len() / 2, |j: int| hash_pair(layer[2 * j], layer[2 * j + 1]))
}

/// The nodes of one layer. A layer of one node is the root and has no side;
/// in a longer layer each node has the side of its position.
pub open spec fn tagged_layer(layer: Seq<Seq<u8>>) -> Seq<NodeView> {
    Seq::new(
        layer.len(),
        |j: int|
            NodeView {
                hash: layer[j],
                parent_direction: if layer.len() == 1 {
                    None
                } else {
                    Some(parity_direction(j))
                },
            },
    )
}

/// The nodes of one layer below the root: each has the side of its position.
pub open spec fn sided_layer(layer: Seq<Seq<u8>>) -> Seq<NodeView> {
    Seq::new(
        layer.len(),
        |j: int| NodeView { hash: layer[j], parent_direction: Some(parity_direction(j)) },
    )
}

/// The hashes of a sequence of nodes.
pub open spec fn node_hashes(nodes: Seq<MerkleNode>) -> Seq<Seq<u8>> {
    nodes.map_values(|node: MerkleNode| node@.hash)
}

/// All nodes of the tree over `layer`, layer by layer: `layer` itself,
/// then the layer above it, and so on up to the root.
pub open spec fn layered_nodes(layer: Seq<Seq<u8>>) -> Seq<NodeView>
    decreases layer.len(),
{
    if layer.len() <= 1 {
        tagged_layer(layer)
    } else {
        tagged_layer(layer) + layered_nodes(next_layer(layer))
    }
}

/// `leaves` filled up with zero hashes to `size` entries.
pub open spec fn padded_leaves(leaves: Seq<Seq<u8>>, size: nat) -> Seq<Seq<u8>> {
    leaves + Seq::new((size - leaves.len()) as nat, |i: int| zero_bytes(32))
}

/// The proof for position `index` of `layer`: at each layer below the root
/// the sibling of the node on the path, and last the root.
pub open spec fn proof_path(layer: Seq<Seq<u8>>, index: int) -> Seq<NodeView>
    decreases layer.len(),
{
    if layer.len() <= 1 {
        tagged_layer(layer)
    } else {
        seq![tagged_layer(layer)[sibling_position(index)]] + proof_path(next_layer(layer), index / 2)
    }
}

/// Whether the proof `nodes` leads from the hash `current` to its closing
/// node. A sibling tagged left is hashed in front of the running hash, one
/// tagged right behind it; the first node without a side closes the proof and
/// must carry the running hash. A proof that is never closed is refused.
pub open spec fn proof_accepts(nodes: Seq<NodeView>, current: Seq<u8>) -> bool
    decreases nodes.len(),
{
    if nodes.len() == 0 {
        false
    } else {
        match nodes[0].parent_direction {
            Some(Direction::Left) => proof_accepts(
                nodes.drop_first(),
                hash_pair(nodes[0].hash, current),
            ),
            Some(Direction::Right) => proof_accepts(
                nodes.drop_first(),
                hash_pair(current, nodes[0].hash),
            ),
            None => current == nodes[0].hash,
        }
    }
}

/// The largest power of two that is not above `n` (1 for `n` below 2).
pub open spec fn floor_pow2(n: nat) -> nat
    decreases n,
{
    if n <= 1 {
        1
    } else {
        2 * floor_pow2(n / 2)
    }
}

/// A tree as a value.
pub struct TreeView {
    pub size: nat,
    pub depth: nat,
    pub root: Option<Seq<u8>>,
    pub leaves: Seq<Seq<u8>>,
    pub nodes: Seq<NodeView>,
}

impl TreeView {
    /// The tree of the given size before it has its leaves.
    pub open spec fn empty(size: nat) -> TreeView {
        TreeView {
            size,
            depth: (log(2, size as int) + 1) as nat,
            root: None,
            leaves: Seq::empty(),
            nodes: Seq::empty(),
        }
    }

    /// The tree over `leaves`, which fill it.
    pub open spec fn over(leaves: Seq<Seq<u8>>) -> TreeView {
        TreeView {
            size: leaves.len(),
            depth: (log(2, leaves.len() as int) + 1) as nat,
            root: Some(layered_nodes(leaves).last().hash),
            leaves,
            nodes: layered_nodes(leaves),
        }
    }

    /// Whether the tree is well formed: its size is a power of two, its depth
    /// is one more than the size's logarithm, and it is either without leaves
    /// or the tree over its `size` leaves.
    pub open spec fn wf(self) -> bool {
        &&& is_pow2(self.size as int)
        &&& (self == TreeView::empty(self.size) || (self.leaves.len() == self.size && self
            == TreeView::over(self.leaves)))
    }
}

/// The tree that a stored sequence of nodes stands for. The size is the
/// largest power of two not above the number of nodes, the leaves are the
/// hashes of that many first nodes, and the nodes must be exactly those of the
/// tree over these leaves.
pub open spec fn rebuilt_tree(nodes: Seq<NodeView>) -> Result<TreeView, MerkleTreeError> {
    if nodes.len() == 0 {
        Err(MerkleTreeError::EmptyTree)
    } else {
        let size = floor_pow2(nodes.len());
        let leaves = nodes.subrange(0, size as int).map_values(|node: NodeView| node.hash);
        if layered_nodes(leaves) == nodes {
            Ok(TreeView::over(leaves))
        } else {
            Err(MerkleTreeError::DeserializingError)
        }
    }
}

/// A power of two above 1 is even, and its half is a power of two.
pub proof fn lemma_pow2_halves(n: int)
    requires
        is_pow2(n),
    ensures
        n >= 1,
        n > 1 ==> n % 2 == 0 && is_pow2(n / 2),
{
    reveal(is_pow2);
}

/// The tree over a layer of `n` hashes, `n` a power of two, has `2n - 1`
/// nodes, and the first `n` of them carry the hashes of the layer.
pub proof fn lemma_layered_nodes_shape(layer: Seq<Seq<u8>>)
    requires
        is_pow2(layer.len() as int),
    ensures
        layered_nodes(layer).len() == 2 * layer.len() - 1,
        layered_nodes(layer).subrange(0, layer.len() as int) == tagged_layer(layer),
        layered_nodes(layer).subrange(0, layer.len() as int).map_values(|node: NodeView| node.hash)
            == layer,
    decreases layer.len(),
{
    lemma_pow2_halves(layer.len() as int);
    if layer.len() > 1 {
        lemma_layered_nodes_shape(next_layer(layer));
    }
    assert(layered_nodes(layer).subrange(0, layer.len() as int) =~= tagged_layer(layer));
    assert(tagged_layer(layer).map_values(|node: NodeView| node.hash) =~= layer);
}

/// Between a power of two and its double, the largest power of two not above
/// a number is that power.
pub proof fn lemma_floor_pow2_between(power: nat, n: nat)
    requires
        is_pow2(power as int),
        power <= n < 2 * power,
    ensures
        floor_pow2(n) == power,
    decreases power,
{
    lemma_pow2_halves(power as int);
    if power > 1 {
        lemma_floor_pow2_between(power / 2, n / 2);
    }
}

/// The largest power of two not above `n` is a power of two, and `n` lies
/// between it and its double.
pub proof fn lemma_floor_pow2_bounds(n: nat)
    requires
        n >= 1,
    ensures
        is_pow2(floor_pow2(n) as int),
        floor_pow2(n) <= n < 2 * floor_pow2(n),
    decreases n,
{
    reveal(is_pow2);
    if n > 1 {
        lemma_floor_pow2_bounds(n / 2);
    }
}

/// The proof for a leaf is accepted for that leaf.
pub proof fn lemma_proof_accepts_leaf(layer: Seq<Seq<u8>>, index: int)
    requires
        is_pow2(layer.len() as int),
        0 <= index < layer.len(),
    ensures
        proof_accepts(proof_path(layer, index), layer[index]),
    decreases layer.len(),
{
    lemma_pow2_halves(layer.len() as int);
    if layer.len() > 1 {
        let path = proof_path(layer, index);
        let above = next_layer(layer);
        assert(path.drop_first() =~= proof_path(above, index / 2));
        lemma_proof_accepts_leaf(above, index / 2);
        if index % 2 == 0 {
            assert(above[index / 2] == hash_pair(layer[index], layer[index + 1]));
        } else {
            assert(above[index / 2] == hash_pair(layer[index - 1], layer[index]));
        }
    }
}

/// The proof for a leaf closes with the root of the tree, which has no side.
pub proof fn lemma_proof_closes_with_root(layer: Seq<Seq<u8>>, index: int)
    requires
        is_pow2(layer.len() as int),
        0 <= index < layer.len(),
    ensures
        proof_path(layer, index).len() > 0,
        proof_path(layer, index).last() == layered_nodes(layer).last(),
        proof_path(layer, index).last().parent_direction is None,
    decreases layer.len(),
{
    lemma_pow2_halves(layer.len() as int);
    if layer.len() > 1 {
        lemma_proof_closes_with_root(next_layer(layer), index / 2);
        lemma_layered_nodes_shape(next_layer(layer));
    }
}

/// The tree that stored nodes stand for, if they stand for one, is well
/// formed and has its leaves.
pub proof fn lemma_rebuilt_tree_is_tree(nodes: Seq<NodeView>)
    requires
        rebuilt_tree(nodes) is Ok,
    ensures
        rebuilt_tree(nodes).unwrap().wf(),
        rebuilt_tree(nodes).unwrap().root is Some,
        rebuilt_tree(nodes).unwrap() == TreeView::over(rebuilt_tree(nodes).unwrap().leaves),
        rebuilt_tree(nodes).unwrap().nodes == nodes,
{
    lemma_floor_pow2_bounds(nodes.len());
}

/// Whether two different byte strings with the same digest exist.
pub open spec fn digest_collision() -> bool {
    exists|a: Seq<u8>, b: Seq<u8>| a != b && #[trigger] blake2s256(a) == #[trigger] blake2s256(b)
}

/// The proof for a leaf is accepted for another hash only where the digest
/// has a collision.
pub proof fn lemma_proof_binds_leaf(layer: Seq<Seq<u8>>, index: int, candidate: Seq<u8>)
    requires
        is_pow2(layer.len() as int),
        0 <= index < layer.len(),
        proof_accepts(proof_path(layer, index), candidate),
        candidate != layer[index],
    ensures
        digest_collision(),
    decreases layer.len(),
{
    lemma_pow2_halves(layer.len() as int);
    if layer.len() > 1 {
        let path = proof_path(layer, index);
        let above = next_layer(layer);
        assert(path.drop_first() =~= proof_path(above, index / 2));
        let sibling = layer[sibling_position(index)];
        let (mine, theirs) = if index % 2 == 0 {
            (layer[index] + sibling, candidate + sibling)
        } else {
            (sibling + layer[index], sibling + candidate)
        };
        assert(above[index / 2] == blake2s256(mine));
        assert(proof_accepts(proof_path(above, index / 2), blake2s256(theirs)));
        if blake2s256(theirs) == blake2s256(mine) {
            if mine == theirs {
                if index % 2 == 0 {
                    assert(candidate =~= theirs.subrange(0, candidate.len() as int));
                    assert(layer[index] =~= mine.subrange(0, layer[index].len() as int));
                    assert(candidate.len() + sibling.len() == layer[index].len() + sibling.len());
                } else {
                    assert(candidate =~= theirs.subrange(sibling.len() as int, theirs.len() as int));
                    assert(layer[index] =~= mine.subrange(sibling.len() as int, mine.len() as int));
                }
                assert(false);
            }
        } else {
            lemma_proof_binds_leaf(above, index / 2, blake2s256(theirs));
        }
    }
}

/// In a tree of power-of-two size over any list of leaves that fits, the
/// proof for each given leaf is accepted for that leaf.
pub proof fn lemma_own_proof_verifies(size: nat, leaves: Seq<Seq<u8>>, index: int)
    requires
        is_pow2(size as int),
        leaves.len() <= size,
        0 <= index < leaves.len(),
    ensures
        proof_accepts(
            proof_path(TreeView::over(padded_leaves(leaves, size)).leaves, index),
            leaves[index],
        ),
{
    lemma_proof_accepts_leaf(padded_leaves(leaves, size), index);
}

/// In a tree of power-of-two size, the proof for one leaf is accepted for a
/// hash only if the hash is that leaf, unless the digest has a collision.
pub proof fn lemma_proof_rejects_others(
    size: nat,
    leaves: Seq<Seq<u8>>,
    index: int,
    candidate: Seq<u8>,
)
    requires
        is_pow2(size as int),
        leaves.len() <= size,
        0 <= index < size,
        proof_accepts(
            proof_path(TreeView::over(padded_leaves(leaves, size)).leaves, index),
            candidate,
        ),
    ensures
        candidate == padded_leaves(leaves, size)[index] || digest_collision(),
{
    if candidate != padded_leaves(leaves, size)[index] {
        lemma_proof_binds_leaf(padded_leaves(leaves, size), index, candidate);
    }
}

/// Rebuilding a tree from the nodes of a tree that has its leaves gives the
/// same tree: the same nodes in the same order, and the same root.
pub proof fn lemma_rebuild_round_trip(tree: TreeView)
    requires
        tree.wf(),
        tree.root is Some,
    ensures
        rebuilt_tree(tree.nodes) == Ok::<TreeView, MerkleTreeError>(tree),
{
    lemma_layered_nodes_shape(tree.leaves);
    lemma_pow2_halves(tree.size as int);
    lemma_floor_pow2_between(tree.size, tree.nodes.len());
}

/// A Merkle tree of fixed size. Before `initialize` it has no leaves, no
/// nodes and no root; afterwards it has `size` leaves, `2 * size - 1` nodes in
/// layered order and the root.
pub struct MerkleTree {
    pub size: usize,
    pub depth: usize,
    pub root: Option<H256>,
    pub leaves: Vec<H256>,
    pub nodes: Vec<MerkleNode>,
}

impl View for MerkleTree {
    type V = TreeView;

    open spec fn view(&self) -> TreeView {
        TreeView {
            size: self.size as nat,
            depth: self.depth as nat,
            root: match self.root {
                Some(root) => Some(root@),
                None => None,
            },
            leaves: hash_views(self.leaves@),
            nodes: node_views(self.nodes@),
        }
    }
}

impl MerkleTree {
    /// Whether the tree is well formed.
    pub open spec fn wf(&self) -> bool {
        self@.wf()
    }

    /// A tree of the given size, which must be a power of two, without
    /// leaves. Its depth is one more than the logarithm of the size.
    pub fn new(size: usize) -> (tree: Self)
        requires
            is_pow2(size as int),
        ensures
            tree.wf(),
            tree@ == TreeView::empty(size as nat),
    {
        let mut depth: usize = 0;
        let mut rest: usize = size;
        proof {
            lemma_pow2_halves(size as int);
        }
        while rest > 1
            invariant
                rest >= 1,
                depth + rest <= size,
                depth + log(2, rest as int) == log(2, size as int),
            decreases rest,
        {
            proof {
                lemma_log_s(2, rest as int);
            }
            rest = rest / 2;
            depth = depth + 1;
        }
        proof {
            lemma_log0(2, rest as int);
        }
        let tree = MerkleTree {
            size,
            depth: depth + 1,
            root: None,
            leaves: Vec::new(),
            nodes: Vec::new(),
        };
        assert(tree@.leaves =~= Seq::<Seq<u8>>::empty());
        assert(tree@.nodes =~= Seq::<NodeView>::empty());
        tree
    }

    /// Gives the tree its leaves and builds all its nodes.
    ///
    /// More leaves than the tree has room for are refused, and the tree stays
    /// as it was. Fewer are filled up with zero hashes. The nodes are those of
    /// the tree over the filled-up leaves, layer by layer, and the root is the
    /// hash of the last one.
    pub fn initialize(&mut self, leaves: Vec<H256>) -> (done: Result<(), MerkleTreeError>)
        requires
            old(self).wf(),
        ensures
            leaves@.len() > old(self).size ==> done == Err::<(), MerkleTreeError>(
                MerkleTreeError::LeavesAmountGreaterThanTreeSize,
            ) && *final(self) == *old(self),
            leaves@.len() <= old(self).size ==> done is Ok && final(self)@ == TreeView::over(
                padded_leaves(hash_views(leaves@), old(self).size as nat),
            ) && final(self).wf(),
    {
        if leaves.len() > self.size {
            return Err(MerkleTreeError::LeavesAmountGreaterThanTreeSize);
        }
        let size = self.size;
        let ghost given = hash_views(leaves@);
        let mut padded = leaves;
        while padded.len() < size
            invariant
                given.len() <= padded@.len() <= size,
                hash_views(padded@) == given + Seq::new(
                    (padded@.len() - given.len()) as nat,
                    |i: int| zero_bytes(32),
                ),
            decreases size - padded.len(),
        {
            let ghost before = padded@;
            let zero = H256::zero();
            padded.push(zero);
            assert(hash_views(padded@) =~= hash_views(before).push(zero@));
            assert(hash_views(before).push(zero_bytes(32)) =~= given + Seq::new(
                (padded@.len() - given.len()) as nat,
                |i: int| zero_bytes(32),
            ));
        }
        let ghost bottom = hash_views(padded@);
        assert(bottom == padded_leaves(given, size as nat));

        let mut nodes: Vec<MerkleNode> = Vec::new();
        let mut index: usize = 0;
        while index < size
            invariant
                index <= size == padded@.len(),
                bottom == hash_views(padded@),
                node_views(nodes@) == sided_layer(bottom).subrange(0, index as int),
            decreases size - index,
        {
            let direction = if index % 2 == 0 {
                Direction::Left
            } else {
                Direction::Right
            };
            let ghost before = nodes@;
            let node = MerkleNode::new(padded[index], Some(direction));
            nodes.push(node);
            assert(node_views(nodes@) =~= node_views(before).push(node@));
            assert(sided_layer(bottom).subrange(0, index + 1) =~= sided_layer(bottom).subrange(
                0,
                index as int,
            ).push(node@));
            index += 1;
        }

        let mut layer_start: usize = 0;
        let ghost mut layer = bottom;
        proof {
            assert(nodes@.subrange(0, nodes@.len() as int) =~= nodes@);
            assert(sided_layer(bottom).subrange(0, size as int) =~= sided_layer(bottom));
            assert(node_views(nodes@.subrange(0, 0)) + layered_nodes(layer) =~= layered_nodes(bottom));
        }
        while nodes.len() - layer_start > 1
            invariant
                layer_start <= nodes@.len(),
                layer.len() == nodes@.len() - layer_start,
                is_pow2(layer.len() as int),
                node_views(nodes@.subrange(layer_start as int, nodes@.len() as int)) == sided_layer(
                    layer,
                ),
                node_views(nodes@.subrange(0, layer_start as int)) + layered_nodes(layer)
                    == layered_nodes(bottom),
            decreases layer.len(),
        {
            let layer_end = nodes.len();
            let ghost below = nodes@;
            let ghost above = next_layer(layer);
            proof {
                lemma_pow2_halves(layer.len() as int);
                assert(node_hashes(below.subrange(layer_start as int, layer_end as int)) =~= layer) by {
                    let part = below.subrange(layer_start as int, layer_end as int);
                    assert forall|j: int| 0 <= j < layer.len() implies node_hashes(part)[j]
                        == layer[j] by {
                        assert(node_views(part)[j] == sided_layer(layer)[j]);
                    }
                }
            }
            push_layer_above(&mut nodes, layer_start);
            proof {
                let prefix = node_views(below.subrange(0, layer_start as int));
                assert(nodes@.subrange(0, layer_end as int).subrange(0, layer_start as int)
                    =~= nodes@.subrange(0, layer_start as int));
                assert(nodes@.subrange(0, layer_end as int).subrange(
                    layer_start as int,
                    layer_end as int,
                ) =~= nodes@.subrange(layer_start as int, layer_end as int));
                assert(node_views(nodes@.subrange(0, layer_end as int)) =~= prefix + sided_layer(
                    layer,
                ));
                assert(sided_layer(layer) =~= tagged_layer(layer));
                assert(prefix + layered_nodes(layer) =~= (prefix + tagged_layer(layer))
                    + layered_nodes(above));
                layer = above;
            }
            layer_start = layer_end;
        }

        proof {
            lemma_pow2_halves(layer.len() as int);
        }
        let last = nodes.len() - 1;
        let root = nodes[last].hash;
        let ghost built = nodes@;
        nodes[last] = MerkleNode::new(root, None);
        proof {
            assert(layer.len() == 1);
            assert(node_views(built.subrange(layer_start as int, built.len() as int))[0]
                == sided_layer(layer)[0]);
            assert(node_views(nodes@) =~= node_views(built.subrange(0, layer_start as int))
                + layered_nodes(layer));
            lemma_layered_nodes_shape(bottom);
            lemma_pow2_halves(size as int);
        }
        self.leaves = padded;
        self.nodes = nodes;
        self.root = Some(root);
        Ok(())
    }

    /// Rebuilds a tree from its stored nodes, which must be the full layered
    /// sequence: the leaves are read off the first nodes, the tree over them
    /// is built, and every node of it must equal the stored one.
    #[verifier::loop_isolation(false)]
    pub fn from_nodes(nodes: Vec<MerkleNode>) -> (rebuilt: Result<Self, MerkleTreeError>)
        ensures
            match rebuilt_tree(node_views(nodes@)) {
                Ok(view) => rebuilt matches Ok(tree) && tree@ == view && tree.wf(),
                Err(e) => rebuilt matches Err(err) && err == e,
            },
    {
        if nodes.len() == 0 {
            return Err(MerkleTreeError::EmptyTree);
        }
        let size = largest_power_of_two(nodes.len());
        proof {
            lemma_floor_pow2_bounds(nodes@.len());
        }
        let mut tree = MerkleTree::new(size);
        let mut leaves: Vec<H256> = Vec::new();
        let mut i: usize = 0;
        while i < size
            invariant
                i <= size <= nodes@.len(),
                leaves@.len() == i,
                forall|j: int| 0 <= j < i ==> (#[trigger] leaves@[j])@ == nodes@[j]@.hash,
            decreases size - i,
        {
            leaves.push(nodes[i].hash);
            i += 1;
        }
        let ghost bottom = node_views(nodes@).subrange(0, size as int).map_values(
            |node: NodeView| node.hash,
        );
        assert(hash_views(leaves@) =~= bottom);
        assert(padded_leaves(bottom, size as nat) =~= bottom);
        match tree.initialize(leaves) {
            Ok(()) => {},
            Err(e) => {
                return Err(e);
            },
        }
        proof {
            lemma_layered_nodes_shape(bottom);
        }
        if nodes.len() != tree.nodes.len() {
            return Err(MerkleTreeError::DeserializingError);
        }
        let mut i: usize = 0;
        while i < nodes.len()
            invariant
                i <= nodes@.len() == tree.nodes@.len(),
                forall|j: int| 0 <= j < i ==> (#[trigger] nodes@[j])@ == tree.nodes@[j]@,
            decreases nodes@.len() - i,
        {
            proof {
                nodes@[i as int].lemma_eq(tree.nodes@[i as int]);
            }
            if nodes[i] != tree.nodes[i] {
                assert(node_views(nodes@)[i as int] != node_views(tree.nodes@)[i as int]);
                return Err(MerkleTreeError::DeserializingError);
            }
            i += 1;
        }
        assert(node_views(nodes@) =~= node_views(tree.nodes@));
        Ok(tree)
    }

    /// The inclusion proof for the leaf at `leaf_index`: the sibling of the
    /// path's node at every layer below the root, then the root with no side.
    /// A tree without leaves has no proofs.
    pub fn get_proof(&self, leaf_index: Id) -> (proof: Result<MerkleProof, MerkleTreeError>)
        requires
            self.wf(),
            self.root is Some ==> leaf_index < self.size,
        ensures
            self.root is None ==> proof == Err::<MerkleProof, MerkleTreeError>(
                MerkleTreeError::MerkleTreeNotInitialized,
            ),
            self.root is Some ==> (proof matches Ok(path) && path@ == proof_path(
                self@.leaves,
                leaf_index as int,
            )),
    {
        let root = match self.root {
            Some(root) => root,
            None => {
                return Err(MerkleTreeError::MerkleTreeNotInitialized);
            },
        };
        let mut path = MerkleProof::new();
        let mut position: usize = leaf_index as usize;
        let mut layer_start: usize = 0;
        let mut layer_len: usize = self.size;
        let total = self.nodes.len();
        let ghost bottom = self@.leaves;
        let ghost mut layer = bottom;
        proof {
            lemma_layered_nodes_shape(bottom);
            assert(self.nodes@.subrange(0, self.nodes@.len() as int) =~= self.nodes@);
            assert(path@ + proof_path(layer, position as int) =~= proof_path(bottom, leaf_index as int));
        }
        while layer_len > 1
            invariant
                layer.len() == layer_len,
                is_pow2(layer_len as int),
                position < layer_len,
                layer_start + 2 * layer_len - 1 == total == self.nodes@.len(),
                node_views(self.nodes@.subrange(layer_start as int, self.nodes@.len() as int))
                    == layered_nodes(layer),
                path@ + proof_path(layer, position as int) == proof_path(bottom, leaf_index as int),
            decreases layer_len,
        {
            proof {
                lemma_pow2_halves(layer_len as int);
                lemma_layered_nodes_shape(next_layer(layer));
            }
            let beside = position ^ 1;
            assert(beside == sibling_position(position as int)) by {
                assert(position ^ 1 == (if position % 2 == 0 {
                    position + 1
                } else {
                    position - 1
                })) by (bit_vector);
            }
            let ghost rest = self.nodes@.subrange(layer_start as int, self.nodes@.len() as int);
            assert(node_views(rest)[beside as int] == tagged_layer(layer)[beside as int]);
            assert(rest[beside as int] == self.nodes@[layer_start + beside]);
            let sibling = self.nodes[layer_start + beside];
            let ghost before = path@;
            let _ = path.add_node(sibling);
            proof {
                let above = next_layer(layer);
                assert(path@ =~= before + seq![tagged_layer(layer)[sibling_position(position as int)]]);
                assert(path@ + proof_path(above, position as int / 2) =~= before + proof_path(
                    layer,
                    position as int,
                ));
                assert(node_views(
                    self.nodes@.subrange(layer_start + layer_len, self.nodes@.len() as int),
                ) =~= layered_nodes(above)) by {
                    assert(layered_nodes(layer) =~= tagged_layer(layer) + layered_nodes(above));
                    assert forall|j: int| 0 <= j < layered_nodes(above).len() implies node_views(
                        self.nodes@.subrange(layer_start + layer_len, self.nodes@.len() as int),
                    )[j] == layered_nodes(above)[j] by {
                        assert(node_views(rest)[layer_len + j] == layered_nodes(layer)[layer_len + j]);
                    }
                }
                layer = above;
            }
            layer_start = layer_start + layer_len;
            layer_len = layer_len / 2;
            position = position / 2;
        }
        let ghost before = path@;
        let _ = path.add_node(MerkleNode::new(root, None));
        proof {
            let rest = self.nodes@.subrange(layer_start as int, self.nodes@.len() as int);
            assert(node_views(rest)[0] == layered_nodes(layer)[0]);
            assert(rest[0] == self.nodes@.last());
            assert(node_views(self.nodes@).last() == self.nodes@.last()@);
            assert(path@ =~= before + proof_path(layer, position as int));
        }
        Ok(path)
    }

    /// The root, once the tree has its leaves.
    pub fn root(&self) -> (root: Option<H256>)
        ensures
            root == self.root,
    {
        self.root
    }
}

/// Appends the layer above the nodes from `layer_start` on: the parent of
/// each pair of neighbours among them, with the side of its position.
fn push_layer_above(nodes: &mut Vec<MerkleNode>, layer_start: usize)
    requires
        layer_start <= old(nodes)@.len(),
        (old(nodes)@.len() - layer_start) % 2 == 0,
    ensures
        final(nodes)@.len() == old(nodes)@.len() + (old(nodes)@.len() - layer_start) / 2,
        final(nodes)@.subrange(0, old(nodes)@.len() as int) == old(nodes)@,
        node_views(final(nodes)@.subrange(old(nodes)@.len() as int, final(nodes)@.len() as int))
            == sided_layer(
            next_layer(node_hashes(old(nodes)@.subrange(layer_start as int, old(nodes)@.len() as int))),
        ),
{
    let layer_end = nodes.len();
    let ghost below = nodes@;
    let ghost layer = node_hashes(below.subrange(layer_start as int, layer_end as int));
    let ghost above = sided_layer(next_layer(layer));
    let mut i: usize = layer_start;
    let mut pairs: usize = 0;
    assert(nodes@.subrange(0, layer_end as int) =~= below);
    assert(node_views(nodes@.subrange(layer_end as int, nodes@.len() as int)) =~= above.subrange(
        0,
        0,
    ));
    while i < layer_end
        invariant
            layer_start <= i <= layer_end == below.len(),
            (layer_end - layer_start) % 2 == 0,
            i == layer_start + 2 * pairs,
            layer == node_hashes(below.subrange(layer_start as int, layer_end as int)),
            above == sided_layer(next_layer(layer)),
            nodes@.len() == layer_end + pairs,
            nodes@.subrange(0, layer_end as int) == below,
            node_views(nodes@.subrange(layer_end as int, nodes@.len() as int)) == above.subrange(
                0,
                pairs as int,
            ),
        decreases layer_end - i,
    {
        let ghost before = nodes@;
        assert(before[i as int] == before.subrange(0, layer_end as int)[i as int]);
        assert(before[i + 1] == before.subrange(0, layer_end as int)[i + 1]);
        let left = nodes[i];
        let right = nodes[i + 1];
        let direction = if (i - layer_start) % 4 < 2 {
            Direction::Left
        } else {
            Direction::Right
        };
        let node = MerkleNode::from_children(left, right, Some(direction));
        proof {
            let part = below.subrange(layer_start as int, layer_end as int);
            assert(layer[2 * pairs] == part[2 * pairs]@.hash);
            assert(layer[2 * pairs + 1] == part[2 * pairs + 1]@.hash);
            assert(node@ == above[pairs as int]);
        }
        nodes.push(node);
        proof {
            assert(nodes@.subrange(0, layer_end as int) =~= below);
            assert(node_views(nodes@.subrange(layer_end as int, nodes@.len() as int)) =~= node_views(
                before.subrange(layer_end as int, before.len() as int),
            ).push(node@));
            assert(above.subrange(0, pairs + 1) =~= above.subrange(0, pairs as int).push(node@));
        }
        i += 2;
        pairs += 1;
    }
    assert(above.subrange(0, pairs as int) =~= above);
}

/// The largest power of two that is not above `n`.
fn largest_power_of_two(n: usize) -> (power: usize)
    requires
        n >= 1,
    ensures
        power == floor_pow2(n as nat),
    decreases n,
{
    if n <= 1 {
        1
    } else {
        proof {
            lemma_floor_pow2_bounds(n as nat);
        }
        2 * largest_power_of_two(n / 2)
    }
}

/// The proof that a list of serialized nodes stands for, if each of them is
/// a node.
pub open spec fn proof_from_bytes(buffers: Seq<Seq<u8>>) -> Result<Seq<NodeView>, MerkleTreeError> {
    if forall|i: int| 0 <= i < buffers.len() ==> (#[trigger] node_from_bytes(buffers[i])) is Ok {
        Ok(Seq::new(buffers.len(), |i: int| node_from_bytes(buffers[i]).unwrap()))
    } else {
        Err(MerkleTreeError::DeserializingError)
    }
}

/// An inclusion proof: the siblings along the path from a leaf to the root,
/// each with its side, closed by a node without a side that carries the root.
#[derive(Clone, Debug)]
pub struct MerkleProof {
    nodes: Vec<MerkleNode>,
}

impl View for MerkleProof {
    type V = Seq<NodeView>;

    closed spec fn view(&self) -> Seq<NodeView> {
        node_views(self.nodes@)
    }
}

impl MerkleProof {
    /// The empty proof.
    pub fn new() -> (proof: Self)
        ensures
            proof@ == Seq::<NodeView>::empty(),
    {
        let proof = MerkleProof { nodes: Vec::new() };
        assert(proof@ =~= Seq::<NodeView>::empty());
        proof
    }

    /// The proof made of the given nodes.
    pub fn from_nodes(nodes: Vec<MerkleNode>) -> (proof: Self)
        ensures
            proof@ == node_views(nodes@),
    {
        MerkleProof { nodes }
    }

    /// The serialized nodes of the proof, in order.
    pub fn as_bvtes(&self) -> (buffers: Vec<[u8; 33]>)
        ensures
            buffers@.len() == self@.len(),
            forall|i: int| 0 <= i < self@.len() ==> (#[trigger] buffers@[i])@ == node_bytes(self@[i]),
    {
        let mut buffers: Vec<[u8; 33]> = Vec::new();
        let mut i: usize = 0;
        while i < self.nodes.len()
            invariant
                i <= self.nodes@.len(),
                buffers@.len() == i,
                forall|j: int| 0 <= j < i ==> (#[trigger] buffers@[j])@ == node_bytes(self.nodes@[j]@),
            decreases self.nodes@.len() - i,
        {
            buffers.push(self.nodes[i].as_bvtes());
            i += 1;
        }
        buffers
    }

    /// Reads a proof from serialized nodes. Fails where one of them is not a
    /// node.
    pub fn from_bvtes(buffer: Vec<[u8; 33]>) -> (read: Result<Self, MerkleTreeError>)
        ensures
            match proof_from_bytes(buffer@.map_values(|bytes: [u8; 33]| bytes@)) {
                Ok(view) => read matches Ok(proof) && proof@ == view,
                Err(e) => read matches Err(err) && err == e,
            },
    {
        let ghost buffers = buffer@.map_values(|bytes: [u8; 33]| bytes@);
        let mut nodes: Vec<MerkleNode> = Vec::new();
        let mut i: usize = 0;
        while i < buffer.len()
            invariant
                i <= buffer@.len(),
                buffers == buffer@.map_values(|bytes: [u8; 33]| bytes@),
                nodes@.len() == i,
                forall|j: int|
                    0 <= j < i ==> (#[trigger] node_from_bytes(buffers[j])) == Ok::<
                        NodeView,
                        MerkleTreeError,
                    >(nodes@[j]@),
            decreases buffer@.len() - i,
        {
            assert(buffers[i as int] == buffer@[i as int]@);
            match MerkleNode::from_bytes(buffer[i]) {
                Ok(node) => {
                    nodes.push(node);
                },
                Err(e) => {
                    assert(node_from_bytes(buffers[i as int]) is Err);
                    return Err(e);
                },
            }
            i += 1;
        }
        let proof = MerkleProof::from_nodes(nodes);
        assert(proof@ =~= Seq::new(buffers.len(), |i: int| node_from_bytes(buffers[i]).unwrap()));
        Ok(proof)
    }

    /// The nodes of the proof.
    pub fn get_nodes(&self) -> (nodes: Vec<MerkleNode>)
        ensures
            node_views(nodes@) == self@,
    {
        let mut nodes: Vec<MerkleNode> = Vec::new();
        let mut i: usize = 0;
        while i < self.nodes.len()
            invariant
                i <= self.nodes@.len(),
                nodes@ == self.nodes@.subrange(0, i as int),
            decreases self.nodes@.len() - i,
        {
            nodes.push(self.nodes[i]);
            assert(nodes@ =~= self.nodes@.subrange(0, i + 1));
            i += 1;
        }
        assert(nodes@ =~= self.nodes@);
        nodes
    }

    /// Appends a node to the proof. This cannot fail.
    pub fn add_node(&mut self, node: MerkleNode) -> (done: Result<(), MerkleTreeError>)
        ensures
            done is Ok,
            final(self)@ == old(self)@.push(node@),
    {
        self.nodes.push(node);
        assert(self@ =~= old(self)@.push(node@));
        Ok(())
    }

    /// Verifies the proof for the given leaf hash: folds the siblings into
    /// the hash, each on its side, and compares the result with the closing
    /// node.
    pub fn verify(&self, hash: H256) -> (accepted: bool)
        ensures
            accepted == proof_accepts(self@, hash@),
    {
        let mut current = MerkleNode::new(hash, None);
        let mut i: usize = 0;
        assert(self@.subrange(0, self@.len() as int) =~= self@);
        while i < self.nodes.len()
            invariant
                i <= self.nodes@.len(),
                proof_accepts(self@, hash@) == proof_accepts(
                    self@.subrange(i as int, self@.len() as int),
                    current@.hash,
                ),
            decreases self.nodes@.len() - i,
        {
            let node = self.nodes[i];
            let ghost rest = self@.subrange(i as int, self@.len() as int);
            assert(rest[0] == node@);
            assert(rest.drop_first() =~= self@.subrange(i + 1, self@.len() as int));
            match node.parent_direction {
                Some(Direction::Left) => {
                    current = MerkleNode::from_children(node, current, None);
                },
                Some(Direction::Right) => {
                    current = MerkleNode::from_children(current, node, None);
                },
                None => {
                    proof {
                        current.hash.lemma_eq(node.hash);
                    }
                    return current.hash == node.hash;
                },
            }
            i += 1;
        }
        false
    }
}

} // verus!

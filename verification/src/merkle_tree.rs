//! A perfect binary hash tree over a fixed number of leaves.
//!
//! A tree of depth `d` has `2^d` leaves. A leaf index is consumed from its
//! lowest bit upwards while walking down from the root: a clear bit selects
//! the left child, a set bit the right child. The leaves under a node are
//! therefore the interleaving of the leaves of its two children.

use vstd::prelude::*;
use vstd::arithmetic::power2::{pow2, lemma_pow2_pos, lemma_pow2_unfold};
use vstd::arithmetic::div_mod::lemma_div_denominator;
use crate::hash;
use crate::hash::{sha256, spec_join};

verus! {

/// The bytes that are hashed to give the hash of a leaf that was never written.
pub open spec fn empty_leaf_input() -> Seq<u8> {
    seq![72u8, 101u8, 108u8, 108u8, 111u8, 44u8, 32u8, 119u8, 111u8, 114u8, 108u8, 100u8, 33u8]
}

/// The hash that stands for a leaf that was never written.
pub open spec fn empty_leaf_hash() -> Seq<u8> {
    sha256(empty_leaf_input())
}

/// The hash that a leaf contributes to the tree.
pub open spec fn leaf_hash(leaf: Option<Seq<u8>>) -> Seq<u8> {
    match leaf {
        Some(hash) => hash,
        None => empty_leaf_hash(),
    }
}

/// The elements at even positions: the leaves under the left child.
pub open spec fn evens<A>(s: Seq<A>) -> Seq<A> {
    Seq::new((s.len() / 2) as nat, |j: int| s[2 * j])
}

/// The elements at odd positions: the leaves under the right child.
pub open spec fn odds<A>(s: Seq<A>) -> Seq<A> {
    Seq::new((s.len() / 2) as nat, |j: int| s[2 * j + 1])
}

/// The sequence whose even positions hold `left` and whose odd positions hold `right`.
pub open spec fn interleave<A>(left: Seq<A>, right: Seq<A>) -> Seq<A> {
    Seq::new(
        left.len() + right.len(),
        |j: int|
            if j % 2 == 0 {
                left[j / 2]
            } else {
                right[j / 2]
            },
    )
}

/// The root hash of the tree over the given leaves.
pub open spec fn merkle_root(leaves: Seq<Option<Seq<u8>>>) -> Seq<u8>
    decreases leaves.len(),
{
    if leaves.len() <= 1 {
        leaf_hash(leaves[0])
    } else {
        spec_join(merkle_root(evens(leaves)), merkle_root(odds(leaves)))
    }
}

/// The hashes of the siblings along the way from a leaf to the root, from the
/// bottom up: the first is the sibling of the leaf itself, the last is the
/// sibling of the root's child.
pub open spec fn merkle_path(leaves: Seq<Option<Seq<u8>>>, index: int) -> Seq<Seq<u8>>
    decreases leaves.len(),
{
    if leaves.len() <= 1 {
        Seq::empty()
    } else if index % 2 == 1 {
        merkle_path(odds(leaves), index / 2).push(merkle_root(evens(leaves)))
    } else {
        merkle_path(evens(leaves), index / 2).push(merkle_root(odds(leaves)))
    }
}

/// The bit of `index` at the given position, counted from the lowest.
pub open spec fn index_bit(index: nat, position: nat) -> nat {
    (index / pow2(position)) % 2
}

/// One step towards the root: joins the hash of a node with the hash of its
/// sibling. `bit` tells on which side the node stands, 0 for the left.
pub open spec fn join_step(node: Seq<u8>, sibling: Seq<u8>, bit: nat) -> Seq<u8> {
    if bit == 0 {
        spec_join(node, sibling)
    } else {
        spec_join(sibling, node)
    }
}

/// The root hash that follows from a leaf's hash, its index and its sibling
/// hashes given from the bottom up. With `n` siblings, the first step looks
/// at bit `n - 1` of the index, the next at bit `n - 2`, and the last at bit
/// 0.
pub open spec fn reconstruct(dependencies: Seq<Seq<u8>>, index: nat, node: Seq<u8>) -> Seq<u8>
    decreases dependencies.len(),
{
    if dependencies.len() == 0 {
        node
    } else {
        reconstruct(
            dependencies.drop_first(),
            index,
            join_step(node, dependencies[0], index_bit(index, (dependencies.len() - 1) as nat)),
        )
    }
}

/// The leaves of a tree of the given depth into which nothing was written.
pub open spec fn empty_leaves(depth: nat) -> Seq<Option<Seq<u8>>> {
    Seq::new(pow2(depth), |i: int| None)
}

/// The root hash of a tree of the given depth into which nothing was
/// written: the empty leaf's hash joined with itself `depth` times.
pub open spec fn empty_root(depth: nat) -> Seq<u8>
    decreases depth,
{
    if depth == 0 {
        empty_leaf_hash()
    } else {
        spec_join(empty_root((depth - 1) as nat), empty_root((depth - 1) as nat))
    }
}

/// The byte strings of a sequence of hashes.
pub open spec fn hash_views(hashes: Seq<hash::Hash>) -> Seq<Seq<u8>> {
    Seq::new(hashes.len(), |i: int| hashes[i]@)
}

/// Splitting an interleaving gives back its two halves.
pub proof fn lemma_split_interleave<A>(left: Seq<A>, right: Seq<A>)
    requires
        left.len() == right.len(),
    ensures
        evens(interleave(left, right)) == left,
        odds(interleave(left, right)) == right,
{
    assert(evens(interleave(left, right)) =~= left);
    assert(odds(interleave(left, right)) =~= right);
}

/// The two halves of a tree of depth `depth > 0` are trees of depth `depth - 1`.
pub proof fn lemma_halves<A>(s: Seq<A>, depth: nat)
    requires
        s.len() == pow2(depth),
        depth > 0,
    ensures
        evens(s).len() == pow2((depth - 1) as nat),
        odds(s).len() == pow2((depth - 1) as nat),
        s.len() >= 2,
        interleave(evens(s), odds(s)) == s,
{
    lemma_pow2_unfold(depth);
    lemma_pow2_pos((depth - 1) as nat);
    assert(interleave(evens(s), odds(s)) =~= s);
}

/// A tree of depth 0 has one leaf.
pub proof fn lemma_single_leaf()
    ensures
        pow2(0) == 1,
{
    vstd::arithmetic::power2::lemma2_to64();
}

/// The bit that a step of the reconstruction looks at can be found with a
/// fixed mask: with `count` siblings the mask has bit `count - 1` set, and
/// the index is shifted left by one after every step, so that step number
/// `step` tests the index shifted left by `step`.
pub proof fn lemma_mask_selects_index_bit(index: u64, count: u64, step: u64)
    requires
        0 < count <= 64,
        step < count,
    ensures
        (((index << step) & (1u64 << ((count - 1) as u64))) == 0) == (index_bit(
            index as nat,
            (count - 1 - step) as nat,
        ) == 0),
{
    let top = (count - 1) as u64;
    let position = (top - step) as u64;
    assert((((index << step) & (1u64 << top)) == 0) == (((index >> position) & 1) == 0))
        by (bit_vector)
        requires
            step <= top,
            top < 64,
            position == top - step,
    ;
    let shifted = index >> position;
    assert(shifted & 1 == shifted % 2) by (bit_vector);
    vstd::bits::lemma_u64_shr_is_div(index, position);
}

/// Appending a sibling at the top of a path adds one step that looks at the
/// lowest bit of the index; the steps below it see the index without that bit.
pub proof fn lemma_reconstruct_push(
    dependencies: Seq<Seq<u8>>,
    top: Seq<u8>,
    index: nat,
    node: Seq<u8>,
)
    ensures
        reconstruct(dependencies.push(top), index, node) == join_step(
            reconstruct(dependencies, index / 2, node),
            top,
            index % 2,
        ),
    decreases dependencies.len(),
{
    let extended = dependencies.push(top);
    if dependencies.len() == 0 {
        lemma_single_leaf();
        assert(extended.drop_first() =~= Seq::<Seq<u8>>::empty());
        assert(index_bit(index, 0) == index % 2);
        assert(reconstruct(extended.drop_first(), index, join_step(node, top, index % 2))
            == join_step(node, top, index % 2));
    } else {
        let n = dependencies.len();
        assert(extended.drop_first() =~= dependencies.drop_first().push(top));
        assert(extended[0] == dependencies[0]);
        assert(index_bit(index, n) == index_bit(index / 2, (n - 1) as nat)) by {
            lemma_pow2_unfold(n);
            lemma_pow2_pos((n - 1) as nat);
            lemma_div_denominator(index as int, 2, pow2((n - 1) as nat) as int);
        }
        let next = join_step(node, dependencies[0], index_bit(index, n));
        lemma_reconstruct_push(dependencies.drop_first(), top, index, next);
    }
}

/// The path from a leaf to the root has as many entries as the tree is deep.
pub proof fn lemma_path_len(leaves: Seq<Option<Seq<u8>>>, depth: nat, index: int)
    requires
        leaves.len() == pow2(depth),
    ensures
        merkle_path(leaves, index).len() == depth,
    decreases depth,
{
    if depth == 0 {
        lemma_single_leaf();
    } else {
        lemma_halves(leaves, depth);
        lemma_path_len(evens(leaves), (depth - 1) as nat, index / 2);
        lemma_path_len(odds(leaves), (depth - 1) as nat, index / 2);
    }
}

/// From the hash of any leaf, its index and its path, the root hash of the
/// tree can be reconstructed.
pub proof fn lemma_path_reconstructs_root(leaves: Seq<Option<Seq<u8>>>, depth: nat, index: nat)
    requires
        leaves.len() == pow2(depth),
        index < leaves.len(),
    ensures
        reconstruct(merkle_path(leaves, index as int), index, leaf_hash(leaves[index as int]))
            == merkle_root(leaves),
    decreases depth,
{
    if depth == 0 {
        lemma_single_leaf();
    } else {
        lemma_halves(leaves, depth);
        let node = leaf_hash(leaves[index as int]);
        if index % 2 == 1 {
            let below = merkle_path(odds(leaves), index as int / 2);
            lemma_reconstruct_push(below, merkle_root(evens(leaves)), index, node);
            lemma_path_reconstructs_root(odds(leaves), (depth - 1) as nat, index / 2);
        } else {
            let below = merkle_path(evens(leaves), index as int / 2);
            lemma_reconstruct_push(below, merkle_root(odds(leaves)), index, node);
            lemma_path_reconstructs_root(evens(leaves), (depth - 1) as nat, index / 2);
        }
    }
}

/// After a hash was written to a leaf, that leaf holds the hash, and the root
/// of the tree is what the hash, the leaf's index and the leaf's path
/// reconstruct.
pub proof fn lemma_written_leaf_reconstructs_root(
    leaves: Seq<Option<Seq<u8>>>,
    depth: nat,
    index: nat,
    hash: Seq<u8>,
)
    requires
        leaves.len() == pow2(depth),
        index < leaves.len(),
    ensures
        ({
            let written = leaves.update(index as int, Some(hash));
            &&& leaf_hash(written[index as int]) == hash
            &&& reconstruct(merkle_path(written, index as int), index, hash) == merkle_root(written)
        }),
{
    lemma_path_reconstructs_root(leaves.update(index as int, Some(hash)), depth, index);
}

/// The path of a leaf does not depend on what the leaf itself holds.
pub proof fn lemma_path_ignores_leaf(
    leaves: Seq<Option<Seq<u8>>>,
    depth: nat,
    index: nat,
    leaf: Option<Seq<u8>>,
)
    requires
        leaves.len() == pow2(depth),
        index < leaves.len(),
    ensures
        merkle_path(leaves.update(index as int, leaf), index as int) == merkle_path(
            leaves,
            index as int,
        ),
    decreases depth,
{
    let written = leaves.update(index as int, leaf);
    if depth == 0 {
        lemma_single_leaf();
    } else {
        lemma_halves(leaves, depth);
        if index % 2 == 1 {
            assert(evens(written) =~= evens(leaves));
            assert(odds(written) =~= odds(leaves).update(index as int / 2, leaf));
            lemma_path_ignores_leaf(odds(leaves), (depth - 1) as nat, index / 2, leaf);
        } else {
            assert(odds(written) =~= odds(leaves));
            assert(evens(written) =~= evens(leaves).update(index as int / 2, leaf));
            lemma_path_ignores_leaf(evens(leaves), (depth - 1) as nat, index / 2, leaf);
        }
    }
}

/// Writing a hash to a leaf turns the root into what the hash, the leaf's
/// index and the leaf's path from before the write reconstruct.
pub proof fn lemma_write_moves_root(
    leaves: Seq<Option<Seq<u8>>>,
    depth: nat,
    index: nat,
    hash: Seq<u8>,
)
    requires
        leaves.len() == pow2(depth),
        index < leaves.len(),
    ensures
        reconstruct(merkle_path(leaves, index as int), index, hash) == merkle_root(
            leaves.update(index as int, Some(hash)),
        ),
{
    lemma_path_ignores_leaf(leaves, depth, index, Some(hash));
    lemma_written_leaf_reconstructs_root(leaves, depth, index, hash);
}

/// The root of a tree into which nothing was written is the empty leaf's
/// hash joined with itself once for each level.
pub proof fn lemma_empty_root(depth: nat)
    ensures
        merkle_root(empty_leaves(depth)) == empty_root(depth),
    decreases depth,
{
    if depth == 0 {
        lemma_single_leaf();
    } else {
        lemma_halves(empty_leaves(depth), depth);
        assert(evens(empty_leaves(depth)) =~= empty_leaves((depth - 1) as nat));
        assert(odds(empty_leaves(depth)) =~= empty_leaves((depth - 1) as nat));
        lemma_empty_root((depth - 1) as nat);
    }
}

/// Errors of the tree operations.
#[derive(Debug, PartialEq, Eq, Structural)]
pub enum Error {
    /// The index does not name a leaf of the tree.
    NodeNotPresent,
}

/// A node of the tree together with everything below it.
#[derive(Debug)]
pub enum Node {
    /// An inner node, holding the join of its children's hashes.
    Branch { hash: hash::Hash, left: Box<Node>, right: Box<Node> },
    /// A leaf that was written.
    Leaf { hash: hash::Hash },
    /// A leaf that was never written.
    Empty,
}

impl View for Node {
    type V = Seq<Option<Seq<u8>>>;

    /// The leaves below the node.
    open spec fn view(&self) -> Seq<Option<Seq<u8>>> {
        self.leaves()
    }
}

impl Node {
    /// The leaves below the node, by index: `None` for a leaf that was never
    /// written.
    pub open spec fn leaves(&self) -> Seq<Option<Seq<u8>>>
        decreases self,
    {
        match self {
            Node::Branch { left, right, .. } => interleave(left.leaves(), right.leaves()),
            Node::Leaf { hash } => seq![Some(hash@)],
            Node::Empty => seq![None],
        }
    }

    /// The hash of the node.
    pub open spec fn spec_hash(&self) -> Seq<u8> {
        match self {
            Node::Branch { hash, .. } => hash@,
            Node::Leaf { hash } => hash@,
            Node::Empty => empty_leaf_hash(),
        }
    }

    /// The node is the root of a perfect tree in which every inner node holds
    /// the join of its children's hashes.
    pub open spec fn wf(&self) -> bool
        decreases self,
    {
        match self {
            Node::Branch { hash, left, right } => {
                &&& left.wf()
                &&& right.wf()
                &&& left@.len() == right@.len()
                &&& hash@ == spec_join(left.spec_hash(), right.spec_hash())
            },
            _ => true,
        }
    }

    /// The hash of a well-formed node is the root hash of the leaves below it.
    pub proof fn lemma_hash_is_root(&self)
        requires
            self.wf(),
        ensures
            self@.len() >= 1,
            self.spec_hash() == merkle_root(self@),
        decreases self,
    {
        match self {
            Node::Branch { left, right, .. } => {
                left.lemma_hash_is_root();
                right.lemma_hash_is_root();
                lemma_split_interleave(left@, right@);
            },
            _ => {},
        }
    }

    /// Builds a tree of the given depth in which no leaf was written.
    pub fn empty_with_depth(depth: u8) -> (node: Node)
        ensures
            node.wf(),
            node@ == empty_leaves(depth as nat),
        decreases depth,
    {
        if depth == 0 {
            proof {
                lemma_single_leaf();
                assert(seq![None::<Seq<u8>>] =~= empty_leaves(0));
            }
            Node::Empty
        } else {
            let left = Box::new(Node::empty_with_depth(depth - 1));
            let right = Box::new(Node::empty_with_depth(depth - 1));
            proof {
                lemma_halves(empty_leaves(depth as nat), depth as nat);
                assert(interleave(left@, right@) =~= empty_leaves(depth as nat));
            }
            Node::Branch { hash: left.hash().join(right.hash()), left, right }
        }
    }

    /// Searches the tree for a leaf and returns its hash.
    pub fn get(&self, node: usize) -> (result: Result<hash::Hash, Error>)
        requires
            self.wf(),
        ensures
            match result {
                Ok(hash) => node < self@.len() && hash@ == leaf_hash(self@[node as int]),
                Err(_) => node >= self@.len(),
            },
        decreases self,
    {
        match self {
            Node::Branch { left, right, .. } => {
                let next_node = node >> 1;
                assert(node >> 1 == node / 2) by (bit_vector);
                assert(node & 1 == node % 2) by (bit_vector);
                if node & 1 == 1 {
                    right.get(next_node)
                } else {
                    left.get(next_node)
                }
            },
            _ => {
                if node == 0 {
                    Ok(self.hash())
                } else {
                    Err(Error::NodeNotPresent)
                }
            },
        }
    }

    /// Writes a hash to a leaf and updates the hashes of all nodes above it.
    /// Returns the hash that the leaf held before, if it was ever written.
    pub fn insert(&mut self, node: usize, hash: hash::Hash) -> (result: Result<
        Option<hash::Hash>,
        Error,
    >)
        requires
            old(self).wf(),
        ensures
            final(self).wf(),
            match result {
                Ok(previous) => {
                    &&& node < old(self)@.len()
                    &&& final(self)@ == old(self)@.update(node as int, Some(hash@))
                    &&& match previous {
                        Some(before) => old(self)@[node as int] == Some(before@),
                        None => old(self)@[node as int] is None,
                    }
                },
                Err(_) => node >= old(self)@.len() && final(self)@ == old(self)@,
            },
        decreases *old(self),
    {
        match self {
            Node::Branch { hash: current, left, right } => {
                let next_node = node >> 1;
                assert(node >> 1 == node / 2) by (bit_vector);
                assert(node & 1 == node % 2) by (bit_vector);
                let ghost before = interleave(left@, right@);
                let previous = if node & 1 == 1 {
                    right.insert(next_node, hash)
                } else {
                    left.insert(next_node, hash)
                };
                *current = left.hash().join(right.hash());
                proof {
                    if previous is Ok {
                        assert(interleave(left@, right@) =~= before.update(
                            node as int,
                            Some(hash@),
                        ));
                    }
                }
                previous
            },
            Node::Leaf { hash: current } => {
                if node == 0 {
                    let ghost before = current@;
                    let mut previous = hash;
                    core::mem::swap(current, &mut previous);
                    proof {
                        assert(seq![Some(hash@)] =~= seq![Some(before)].update(0, Some(hash@)));
                    }
                    Ok(Some(previous))
                } else {
                    Err(Error::NodeNotPresent)
                }
            },
            Node::Empty => {
                if node == 0 {
                    *self = Node::Leaf { hash };
                    proof {
                        assert(seq![Some(hash@)] =~= seq![None::<Seq<u8>>].update(
                            0,
                            Some(hash@),
                        ));
                    }
                    Ok(None)
                } else {
                    Err(Error::NodeNotPresent)
                }
            },
        }
    }

    /// Returns the hash of the node.
    pub fn hash(&self) -> (result: hash::Hash)
        ensures
            result@ == self.spec_hash(),
    {
        match self {
            Node::Empty => {
                let input: [u8; 13] = [72, 101, 108, 108, 111, 44, 32, 119, 111, 114, 108, 100, 33];
                assert(input@ =~= empty_leaf_input());
                hash::hash(input.as_slice())
            },
            Node::Leaf { hash } => hash.clone(),
            Node::Branch { hash, .. } => hash.clone(),
        }
    }

    /// Returns the hashes needed to compute the node's hash from one of the
    /// leaves below it, from the bottom up.
    pub fn dependencies(&self, node: usize) -> (result: Result<Vec<hash::Hash>, Error>)
        requires
            self.wf(),
        ensures
            match result {
                Ok(hashes) => node < self@.len() && hash_views(hashes@) == merkle_path(
                    self@,
                    node as int,
                ),
                Err(_) => node >= self@.len(),
            },
        decreases self,
    {
        match self {
            Node::Branch { left, right, .. } => {
                let next_node = node >> 1;
                assert(node >> 1 == node / 2) by (bit_vector);
                assert(node & 1 == node % 2) by (bit_vector);
                proof {
                    left.lemma_hash_is_root();
                    right.lemma_hash_is_root();
                    lemma_split_interleave(left@, right@);
                }
                if node & 1 == 1 {
                    match right.dependencies(next_node) {
                        Ok(mut hashes) => {
                            let ghost below = hash_views(hashes@);
                            hashes.push(left.hash());
                            assert(hash_views(hashes@) =~= below.push(left.spec_hash()));
                            Ok(hashes)
                        },
                        Err(error) => Err(error),
                    }
                } else {
                    match left.dependencies(next_node) {
                        Ok(mut hashes) => {
                            let ghost below = hash_views(hashes@);
                            hashes.push(right.hash());
                            assert(hash_views(hashes@) =~= below.push(right.spec_hash()));
                            Ok(hashes)
                        },
                        Err(error) => Err(error),
                    }
                }
            },
            _ => {
                if node == 0 {
                    let hashes: Vec<hash::Hash> = Vec::new();
                    assert(hash_views(hashes@) =~= Seq::<Seq<u8>>::empty());
                    Ok(hashes)
                } else {
                    Err(Error::NodeNotPresent)
                }
            },
        }
    }
}

/// A perfect binary hash tree.
#[derive(Debug)]
pub struct MerkleTree {
    root: Node,
    depth: u8,
}

impl View for MerkleTree {
    type V = Seq<Option<Seq<u8>>>;

    /// The leaves of the tree, by index: `None` for a leaf that was never
    /// written.
    closed spec fn view(&self) -> Seq<Option<Seq<u8>>> {
        self.root@
    }
}

impl MerkleTree {
    /// The depth that the tree was built with.
    pub closed spec fn spec_depth(&self) -> nat {
        self.depth as nat
    }

    /// The tree is perfect, at most 32 levels deep, and every inner node
    /// holds the join of its children's hashes.
    pub closed spec fn wf(&self) -> bool {
        &&& self.root.wf()
        &&& self.root@.len() == pow2(self.depth as nat)
        &&& self.depth <= 32
    }

    /// A well-formed tree of depth `d` has `2^d` leaves, and `d` is at most 32.
    pub proof fn lemma_leaf_count(&self)
        requires
            self.wf(),
        ensures
            self@.len() == pow2(self.spec_depth()),
            self.spec_depth() <= 32,
            self@.len() <= 0x1_0000_0000,
    {
        vstd::arithmetic::power2::lemma2_to64();
        if self.depth < 32 {
            vstd::arithmetic::power2::lemma_pow2_strictly_increases(self.depth as nat, 32);
        }
    }

    /// Builds a tree of the given depth in which no leaf was written.
    pub fn new(depth: u8) -> (tree: MerkleTree)
        requires
            depth <= 32,
        ensures
            tree.wf(),
            tree.spec_depth() == depth,
            tree@ == empty_leaves(depth as nat),
            merkle_root(tree@) == empty_root(depth as nat),
    {
        proof {
            lemma_empty_root(depth as nat);
        }
        MerkleTree { root: Node::empty_with_depth(depth), depth }
    }

    /// Returns the root hash.
    pub fn root(&self) -> (result: hash::Hash)
        requires
            self.wf(),
        ensures
            result@ == merkle_root(self@),
    {
        proof {
            self.root.lemma_hash_is_root();
        }
        self.root.hash()
    }

    /// Returns the hash of a leaf.
    pub fn get(&self, node: usize) -> (result: Result<hash::Hash, Error>)
        requires
            self.wf(),
        ensures
            match result {
                Ok(hash) => node < self@.len() && hash@ == leaf_hash(self@[node as int]),
                Err(_) => node >= self@.len(),
            },
    {
        if self.index_in_bounds(node) {
            self.root.get(node)
        } else {
            Err(Error::NodeNotPresent)
        }
    }

    /// Writes a hash to a leaf, returning the hash that the leaf held before,
    /// if it was ever written.
    pub fn insert(&mut self, node: usize, hash: hash::Hash) -> (result: Result<
        Option<hash::Hash>,
        Error,
    >)
        requires
            old(self).wf(),
        ensures
            final(self).wf(),
            final(self).spec_depth() == old(self).spec_depth(),
            match result {
                Ok(previous) => {
                    &&& node < old(self)@.len()
                    &&& final(self)@ == old(self)@.update(node as int, Some(hash@))
                    &&& match previous {
                        Some(before) => old(self)@[node as int] == Some(before@),
                        None => old(self)@[node as int] is None,
                    }
                },
                Err(_) => node >= old(self)@.len() && final(self)@ == old(self)@,
            },
    {
        if self.index_in_bounds(node) {
            self.root.insert(node, hash)
        } else {
            Err(Error::NodeNotPresent)
        }
    }

    /// Returns the hashes needed to compute the root hash from a leaf: the
    /// hashes of the siblings on the way up, beginning with the sibling of
    /// the leaf itself.
    pub fn dependencies(&self, node: usize) -> (result: Result<Vec<hash::Hash>, Error>)
        requires
            self.wf(),
        ensures
            match result {
                Ok(hashes) => {
                    &&& node < self@.len()
                    &&& hash_views(hashes@) == merkle_path(self@, node as int)
                    &&& hashes@.len() == self.spec_depth()
                },
                Err(_) => node >= self@.len(),
            },
    {
        if self.index_in_bounds(node) {
            proof {
                lemma_path_len(self@, self.spec_depth(), node as int);
            }
            self.root.dependencies(node)
        } else {
            Err(Error::NodeNotPresent)
        }
    }

    /// Reconstructs the root hash from the hash of a leaf, the leaf's index
    /// and the hashes of the siblings on the way up.
    pub fn reconstruct_root_hash(
        dependencies: Vec<hash::Hash>,
        node: usize,
        node_hash: hash::Hash,
    ) -> (result: hash::Hash)
        ensures
            result@ == reconstruct(hash_views(dependencies@), node as nat, node_hash@),
    {
        let count = dependencies.len();
        let ghost all = hash_views(dependencies@);
        let mut result = node_hash;
        let mut done: usize = 0;
        assert(all.skip(0) =~= all);
        while done < count
            invariant
                done <= count,
                count == dependencies@.len(),
                all == hash_views(dependencies@),
                reconstruct(all, node as nat, node_hash@) == reconstruct(
                    all.skip(done as int),
                    node as nat,
                    result@,
                ),
            decreases count - done,
        {
            let position = count - 1 - done;
            let sibling = dependencies[done].clone();
            let on_right = index_bit_is_set(node, position);
            proof {
                let rest = all.skip(done as int);
                assert(rest.len() - 1 == position);
                assert(rest[0] == sibling@);
                assert(rest.drop_first() =~= all.skip(done + 1));
            }
            result = if on_right {
                sibling.join(result)
            } else {
                result.join(sibling)
            };
            done += 1;
        }
        result
    }

    /// Whether the index names a leaf of the tree.
    fn index_in_bounds(&self, node: usize) -> (result: bool)
        requires
            self.wf(),
        ensures
            result == (node < self@.len()),
    {
        let depth = self.depth as u64;
        proof {
            vstd::bits::lemma_u64_pow2_no_overflow(depth as nat);
            vstd::bits::lemma_u64_shl_is_mul(1, depth);
        }
        (node as u64) < (1u64 << depth)
    }
}

/// Whether the bit of `index` at the given position is set.
fn index_bit_is_set(index: usize, position: usize) -> (result: bool)
    ensures
        result == (index_bit(index as nat, position as nat) == 1),
{
    if position < 64 {
        let shifted = (index as u64) >> (position as u64);
        proof {
            vstd::bits::lemma_u64_shr_is_div(index as u64, position as u64);
        }
        assert(shifted & 1 == shifted % 2) by (bit_vector);
        shifted & 1 == 1
    } else {
        proof {
            vstd::arithmetic::power2::lemma2_to64_rest();
            if position > 64 {
                vstd::arithmetic::power2::lemma_pow2_strictly_increases(64, position as nat);
            }
            vstd::arithmetic::div_mod::lemma_basic_div(
                index as int,
                pow2(position as nat) as int,
            );
        }
        false
    }
}

} // verus!

//! The tree itself: every digest, from the leaves up to the root, in one
//! flat vector, built once from the data and read-only afterwards.

use crate::hasher::Hasher;
use crate::levels::{
    digest_bytes, entry_at, leaf_digests, lemma_nodes_layout, merkle_nodes, next_length,
    next_level, node_total,
};
use crate::sizing::{capacity_hint, checked_capacity, estimated_height, height_hint};
use vstd::prelude::*;

verus! {

/// The byte sequences behind a slice of byte slices.
pub open spec fn item_bytes(data: Seq<&[u8]>) -> Seq<Seq<u8>> {
    Seq::new(data.len(), |i: int| data[i]@)
}

/// A Merkle tree over the hasher `T`.
#[derive(Debug)]
pub struct MerkleTree<T: Hasher> {
    /// Every digest of the tree: the leaves first, then each level above
    /// them in turn, the root last.
    tree: Vec<T::Hash>,
    /// The number of data items the tree was built from.
    leaves: usize,
    /// The room reserved for the tree: the node count of a complete binary
    /// tree of height `height`. An estimate, not the length of `tree`.
    nodes: usize,
    /// The height estimate, fixed from the number of leaves alone.
    height: usize,
    /// The width in bytes of the hasher's digests.
    hash_size: usize,
}

impl<T: Hasher> MerkleTree<T> {
    /// The stored digests as values of the hasher's digest type, in storage
    /// order.
    pub closed spec fn stored(&self) -> Seq<T::Hash> {
        self.tree@
    }

    /// The stored digests as byte sequences, in storage order.
    pub open spec fn digests(&self) -> Seq<Seq<u8>> {
        digest_bytes::<T>(self.stored())
    }

    /// The number of data items the tree was built from.
    pub closed spec fn leaf_count(&self) -> nat {
        self.leaves as nat
    }

    /// The height estimate.
    pub closed spec fn height_view(&self) -> nat {
        self.height as nat
    }

    /// The room reserved for the digests.
    pub closed spec fn capacity(&self) -> nat {
        self.nodes as nat
    }

    /// The digest width recorded in the tree.
    pub closed spec fn digest_width(&self) -> nat {
        self.hash_size as nat
    }

    /// What holds of every finished tree: its first `leaf_count` digests are
    /// the leaves, what follows them is each level above in turn up to the
    /// root, and the height, the capacity and the digest width are the
    /// figures that belong to that number of leaves and to the hasher.
    pub open spec fn wf(&self) -> bool {
        &&& self.leaf_count() <= self.digests().len()
        &&& self.digests() == merkle_nodes::<T>(self.digests().take(self.leaf_count() as int))
        &&& self.height_view() == height_hint(self.leaf_count())
        &&& self.capacity() == capacity_hint(self.height_view())
        &&& self.digest_width() == T::width()
    }

    /// The tree is the finished tree over `items`: its leaves are the hashes
    /// of the items in order, and every digest above them is in its place.
    pub open spec fn built_from(&self, items: Seq<Seq<u8>>) -> bool {
        &&& self.wf()
        &&& self.leaf_count() == items.len()
        &&& self.digests() == merkle_nodes::<T>(leaf_digests::<T>(items))
    }

    /// A tree with nothing in it yet.
    fn new() -> (tree: Self)
        ensures
            tree.tree@.len() == 0,
            tree.leaves == 0,
            tree.nodes == 0,
            tree.height == 0,
            tree.hash_size == T::width(),
    {
        Self { tree: Vec::new(), leaves: 0, nodes: 0, height: 0, hash_size: T::hash_size() }
    }

    /// Builds the tree over `data`: hashes each item into a leaf, then
    /// combines adjacent digests level by level until one is left.
    ///
    /// No data gives the empty tree, which holds no digest and has height 0.
    /// The capacity that belongs to the number of items has to fit in a
    /// `usize`; every slice of byte slices that fits in memory meets that.
    pub fn from_leaves(data: &[&[u8]]) -> (tree: Self)
        requires
            capacity_hint(height_hint(data@.len())) <= usize::MAX,
        ensures
            tree.built_from(item_bytes(data@)),
            tree.digests().len() == node_total(data@.len()),
            forall|i: int|
                0 <= i < data@.len() ==> #[trigger] tree.digests()[i] == T::digest(data@[i]@),
            tree.height_view() == height_hint(data@.len()),
            tree.capacity() == capacity_hint(height_hint(data@.len())),
    {
        let mut merkle_tree = Self::new();
        let leaves = merkle_tree.hash_leaves(data);
        merkle_tree.build_tree(leaves.as_slice());
        proof {
            let level = leaf_digests::<T>(item_bytes(data@));
            assert(digest_bytes::<T>(leaves@) =~= level);
            lemma_nodes_layout::<T>(level);
            assert forall|i: int| 0 <= i < data@.len() implies #[trigger] merkle_tree.digests()[i]
                == T::digest(data@[i]@) by {
                assert(merkle_nodes::<T>(level).take(level.len() as int)[i] == level[i]);
            }
        }
        merkle_tree
    }

    /// Builds the tree over `data` as `from_leaves` does, and gives `None`
    /// exactly where the capacity for that many items does not fit in a
    /// `usize`.
    pub fn checked_from_leaves(data: &[&[u8]]) -> (tree: Option<Self>)
        ensures
            tree is Some <==> capacity_hint(height_hint(data@.len())) <= usize::MAX,
            tree is Some ==> tree->Some_0.built_from(item_bytes(data@)),
    {
        match checked_capacity(estimated_height(data.len())) {
            Some(_) => Some(Self::from_leaves(data)),
            None => None,
        }
    }

    /// Hashes each item of `data`, in order.
    fn hash_leaves(&self, data: &[&[u8]]) -> (hashed: Vec<T::Hash>)
        ensures
            hashed@.len() == data@.len(),
            digest_bytes::<T>(hashed@) == leaf_digests::<T>(item_bytes(data@)),
    {
        let mut hashed: Vec<T::Hash> = Vec::with_capacity(data.len());
        let mut i: usize = 0;
        while i < data.len()
            invariant
                i <= data@.len(),
                hashed@.len() == i,
                forall|j: int| 0 <= j < i ==> T::bytes(#[trigger] hashed@[j]) == T::digest(data@[j]@),
            decreases data@.len() - i,
        {
            hashed.push(T::hash(data[i]));
            i += 1;
        }
        assert(digest_bytes::<T>(hashed@) =~= leaf_digests::<T>(item_bytes(data@)));
        hashed
    }

    /// Fixes the height and the capacity from the number of leaves, copies
    /// the leaves in and builds every level above them.
    fn build_tree(&mut self, hashed: &[T::Hash])
        requires
            capacity_hint(height_hint(hashed@.len())) <= usize::MAX,
        ensures
            final(self).leaves == hashed@.len(),
            final(self).height == height_hint(hashed@.len()),
            final(self).nodes == capacity_hint(height_hint(hashed@.len())),
            final(self).hash_size == old(self).hash_size,
            digest_bytes::<T>(final(self).tree@) == merkle_nodes::<T>(digest_bytes::<T>(hashed@)),
    {
        self.leaves = hashed.len();
        self.calculate_height(hashed.len());
        self.calculate_nodes();
        self.tree = Vec::with_capacity(self.nodes);
        let mut i: usize = 0;
        while i < hashed.len()
            invariant
                i <= hashed@.len(),
                self.tree@ == hashed@.take(i as int),
                self.leaves == hashed@.len(),
                self.height == height_hint(hashed@.len()),
                self.nodes == capacity_hint(height_hint(hashed@.len())),
                self.hash_size == old(self).hash_size,
            decreases hashed@.len() - i,
        {
            self.tree.push(hashed[i]);
            i += 1;
        }
        assert(self.tree@ =~= hashed@);
        assert(digest_bytes::<T>(self.tree@).skip(0) =~= digest_bytes::<T>(hashed@));
        assert(digest_bytes::<T>(self.tree@).take(0) + merkle_nodes::<T>(digest_bytes::<T>(hashed@))
            =~= merkle_nodes::<T>(digest_bytes::<T>(hashed@)));
        self.build_parents(0, hashed.len());
    }

    /// Appends every level above the one that ends the vector: the level
    /// begins at `start_index` and has `length` entries. Each adjacent pair
    /// gives its parent; an unpaired last entry is copied up unchanged.
    fn build_parents(&mut self, start_index: usize, length: usize)
        requires
            start_index + length == old(self).tree@.len(),
        ensures
            digest_bytes::<T>(final(self).tree@) == digest_bytes::<T>(old(self).tree@).take(
                start_index as int,
            ) + merkle_nodes::<T>(digest_bytes::<T>(old(self).tree@).skip(start_index as int)),
            final(self).leaves == old(self).leaves,
            final(self).height == old(self).height,
            final(self).nodes == old(self).nodes,
            final(self).hash_size == old(self).hash_size,
        decreases length,
    {
        let ghost before = digest_bytes::<T>(self.tree@);
        let ghost level = before.skip(start_index as int);
        if length <= 1 {
            assert(before.take(start_index as int) + level =~= before);
            return ;
        }
        let level_end: usize = self.tree.len();
        let mut new_len: usize = length / 2;
        let mut i: usize = 0;
        while i < new_len
            invariant
                i <= new_len,
                new_len == length / 2,
                level_end == start_index + length,
                level_end == before.len(),
                level == before.skip(start_index as int),
                self.tree@.len() == level_end + i,
                digest_bytes::<T>(self.tree@).take(level_end as int) == before,
                forall|j: int|
                    0 <= j < i ==> T::bytes(#[trigger] self.tree@[level_end + j]) == next_level::<T>(
                        level,
                    )[j],
                self.leaves == old(self).leaves,
                self.height == old(self).height,
                self.nodes == old(self).nodes,
                self.hash_size == old(self).hash_size,
            decreases new_len - i,
        {
            let left_index: usize = start_index + 2 * i;
            let left = self.tree[left_index];
            let right_index: usize = left_index + 1;
            let right: Option<T::Hash> = if right_index < level_end {
                Some(self.tree[right_index])
            } else {
                None
            };
            let parent = T::hash_pair(&left, right.as_ref());
            let ghost earlier = self.tree@;
            self.tree.push(parent);
            proof {
                let stored = digest_bytes::<T>(earlier).take(level_end as int);
                assert(T::bytes(left) == stored[left_index as int]);
                assert(T::bytes(right->Some_0) == stored[right_index as int]);
                assert(entry_at(level, 2 * i + 1) == Some(level[2 * i + 1]));
                assert(digest_bytes::<T>(self.tree@).take(level_end as int) =~= stored);
                assert forall|j: int| 0 <= j < i + 1 implies T::bytes(
                    #[trigger] self.tree@[level_end + j],
                ) == next_level::<T>(level)[j] by {
                    if j < i {
                        assert(self.tree@[level_end + j] == earlier[level_end + j]);
                    }
                }
            }
            i += 1;
        }
        if length % 2 == 1 {
            let index: usize = start_index + length - 1;
            let last = self.tree[index];
            let ghost earlier = self.tree@;
            self.tree.push(last);
            proof {
                let stored = digest_bytes::<T>(earlier).take(level_end as int);
                assert(T::bytes(last) == stored[index as int]);
                assert(entry_at(level, length as int) == None::<Seq<u8>>);
                assert(digest_bytes::<T>(self.tree@).take(level_end as int) =~= stored);
                assert forall|j: int| 0 <= j < new_len + 1 implies T::bytes(
                    #[trigger] self.tree@[level_end + j],
                ) == next_level::<T>(level)[j] by {
                    if j < new_len {
                        assert(self.tree@[level_end + j] == earlier[level_end + j]);
                    }
                }
            }
            new_len += 1;
        }
        let new_start: usize = start_index + length;
        proof {
            let above = next_level::<T>(level);
            let grown = digest_bytes::<T>(self.tree@);
            assert(new_len == next_length(length as nat));
            assert(grown.take(new_start as int) =~= before);
            assert(grown.skip(new_start as int) =~= above) by {
                assert forall|j: int| 0 <= j < above.len() implies grown.skip(new_start as int)[j]
                    == above[j] by {
                    assert(grown[new_start + j] == T::bytes(self.tree@[level_end + j]));
                }
            }
            assert(before + merkle_nodes::<T>(above) =~= before.take(start_index as int)
                + merkle_nodes::<T>(level));
        }
        self.build_parents(new_start, new_len)
    }

    /// Sets the height estimate for `num_leaves` leaves.
    fn calculate_height(&mut self, num_leaves: usize)
        ensures
            final(self).height == height_hint(num_leaves as nat),
            final(self).tree == old(self).tree,
            final(self).leaves == old(self).leaves,
            final(self).nodes == old(self).nodes,
            final(self).hash_size == old(self).hash_size,
    {
        self.height = estimated_height(num_leaves);
    }

    /// Sets the capacity to the node count of a complete binary tree of the
    /// height that is set.
    fn calculate_nodes(&mut self)
        requires
            capacity_hint(old(self).height as nat) <= usize::MAX,
        ensures
            final(self).nodes == capacity_hint(old(self).height as nat),
            final(self).tree == old(self).tree,
            final(self).leaves == old(self).leaves,
            final(self).height == old(self).height,
            final(self).hash_size == old(self).hash_size,
    {
        self.nodes = checked_capacity(self.height).unwrap();
    }

    /// The height estimate.
    pub fn height(&self) -> (height: usize)
        ensures
            height == self.height_view(),
    {
        self.height
    }

    /// The number of digests that the tree holds.
    pub fn nodes(&self) -> (count: usize)
        ensures
            count == self.stored().len(),
            count == self.digests().len(),
    {
        self.tree.len()
    }

    /// The digest stored at `index`, or `None` past the end of the tree.
    pub fn node(&self, index: usize) -> (digest: Option<T::Hash>)
        ensures
            index < self.stored().len() ==> digest == Some(self.stored()[index as int]),
            index >= self.stored().len() ==> digest is None,
    {
        if index < self.tree.len() {
            Some(self.tree[index])
        } else {
            None
        }
    }
}

/// Determinism. Two trees over the same items are alike in every figure and
/// hold the same digest at every index, as bytes and as values.
pub proof fn lemma_build_deterministic<T: Hasher>(
    first: MerkleTree<T>,
    second: MerkleTree<T>,
    items: Seq<Seq<u8>>,
)
    requires
        first.built_from(items),
        second.built_from(items),
    ensures
        first.digests() == second.digests(),
        first.stored() == second.stored(),
        first.leaf_count() == second.leaf_count(),
        first.height_view() == second.height_view(),
        first.capacity() == second.capacity(),
        first.digest_width() == second.digest_width(),
{
    assert forall|i: int| 0 <= i < first.stored().len() implies first.stored()[i]
        == second.stored()[i] by {
        assert(first.digests()[i] == second.digests()[i]);
        T::lemma_bytes_lossless(first.stored()[i], second.stored()[i]);
    }
    assert(first.stored() =~= second.stored());
}

/// The leaves of a finished tree stand first, in the items' order, and the
/// tree holds `node_total` digests in all.
pub proof fn lemma_leaves_first<T: Hasher>(tree: MerkleTree<T>, items: Seq<Seq<u8>>)
    requires
        tree.built_from(items),
    ensures
        tree.digests().len() == node_total(items.len()),
        items.len() <= tree.digests().len(),
        forall|i: int| 0 <= i < items.len() ==> #[trigger] tree.digests()[i] == T::digest(items[i]),
{
    let level = leaf_digests::<T>(items);
    lemma_nodes_layout::<T>(level);
    assert forall|i: int| 0 <= i < items.len() implies #[trigger] tree.digests()[i] == T::digest(
        items[i],
    ) by {
        assert(merkle_nodes::<T>(level).take(level.len() as int)[i] == level[i]);
    }
}

} // verus!

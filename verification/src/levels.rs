//! The shape of the tree as mathematics: how one level of digests gives the
//! next, and the flat sequence of all levels from the leaves to the root.

use crate::hasher::{parent_digest, Hasher};
use vstd::prelude::*;

verus! {

/// The digests of the leaves: the hash of each item, in the items' order.
pub open spec fn leaf_digests<T: Hasher>(items: Seq<Seq<u8>>) -> Seq<Seq<u8>> {
    Seq::new(items.len(), |i: int| T::digest(items[i]))
}

/// The byte sequences that a sequence of digest values stands for.
pub open spec fn digest_bytes<T: Hasher>(nodes: Seq<T::Hash>) -> Seq<Seq<u8>> {
    Seq::new(nodes.len(), |i: int| T::bytes(nodes[i]))
}

/// The entry of `level` at `index`, if the level reaches that far.
pub open spec fn entry_at(level: Seq<Seq<u8>>, index: int) -> Option<Seq<u8>> {
    if 0 <= index < level.len() {
        Some(level[index])
    } else {
        None
    }
}

/// The number of entries in the level above a level of `length` entries:
/// one for each adjacent pair, and one more for an unpaired last entry.
pub open spec fn next_length(length: nat) -> nat {
    ((length + 1) / 2) as nat
}

/// The level above `level`. Entry `i` is the parent of entries `2i` and
/// `2i + 1`; where `level` has odd length, its last entry has no sibling and
/// moves up as it is.
pub open spec fn next_level<T: Hasher>(level: Seq<Seq<u8>>) -> Seq<Seq<u8>> {
    Seq::new(
        next_length(level.len()),
        |i: int| parent_digest::<T>(level[2 * i], entry_at(level, 2 * i + 1)),
    )
}

/// Every digest of the tree over `level`, level by level from `level` itself
/// up to the root, each level left to right. A level of one entry is the
/// root and ends the sequence; an empty level gives an empty sequence.
pub open spec fn merkle_nodes<T: Hasher>(level: Seq<Seq<u8>>) -> Seq<Seq<u8>>
    decreases level.len(),
{
    if level.len() <= 1 {
        level
    } else {
        level + merkle_nodes::<T>(next_level::<T>(level))
    }
}

/// The number of digests in a tree over `leaves` leaves: the lengths of all
/// its levels added up.
pub open spec fn node_total(leaves: nat) -> nat
    decreases leaves,
{
    if leaves <= 1 {
        leaves
    } else {
        leaves + node_total(next_length(leaves))
    }
}

/// The root of the tree over a level of at least one entry: the one digest
/// that is left when the levels have been combined.
pub open spec fn merkle_root<T: Hasher>(level: Seq<Seq<u8>>) -> Seq<u8>
    recommends
        level.len() >= 1,
    decreases level.len(),
{
    if level.len() <= 1 {
        level[0]
    } else {
        merkle_root::<T>(next_level::<T>(level))
    }
}

/// The flat sequence begins with the level it was built over and holds
/// `node_total` digests in all.
pub proof fn lemma_nodes_layout<T: Hasher>(level: Seq<Seq<u8>>)
    ensures
        merkle_nodes::<T>(level).len() == node_total(level.len()),
        merkle_nodes::<T>(level).len() >= level.len(),
        merkle_nodes::<T>(level).take(level.len() as int) == level,
    decreases level.len(),
{
    if level.len() > 1 {
        lemma_nodes_layout::<T>(next_level::<T>(level));
    }
    assert(merkle_nodes::<T>(level).take(level.len() as int) =~= level);
}

/// The root is the last digest of the flat sequence.
pub proof fn lemma_root_is_last<T: Hasher>(level: Seq<Seq<u8>>)
    requires
        level.len() >= 1,
    ensures
        merkle_nodes::<T>(level).len() >= 1,
        merkle_nodes::<T>(level).last() == merkle_root::<T>(level),
    decreases level.len(),
{
    if level.len() > 1 {
        lemma_root_is_last::<T>(next_level::<T>(level));
    }
}

/// Odd-node promotion. Where a level has an odd number of entries, the last
/// entry of the level above is the last entry of the level itself, byte for
/// byte: it is carried up and not hashed.
pub proof fn lemma_odd_node_promoted<T: Hasher>(level: Seq<Seq<u8>>)
    requires
        level.len() % 2 == 1,
    ensures
        next_level::<T>(level).len() == level.len() / 2 + 1,
        next_level::<T>(level).last() == level.last(),
{
}

/// Odd-node promotion in the flat sequence. Over a level of odd length
/// `n > 1`, the digest at index `n + n / 2`, the last of the level above, is
/// the digest at index `n - 1`, the last of the level itself.
pub proof fn lemma_odd_node_promoted_in_tree<T: Hasher>(level: Seq<Seq<u8>>)
    requires
        level.len() % 2 == 1,
        level.len() > 1,
    ensures
        level.len() + level.len() / 2 < merkle_nodes::<T>(level).len(),
        merkle_nodes::<T>(level)[(level.len() + level.len() / 2) as int] == merkle_nodes::<T>(
            level,
        )[level.len() - 1],
{
    let above = next_level::<T>(level);
    lemma_odd_node_promoted::<T>(level);
    lemma_nodes_layout::<T>(above);
    assert(merkle_nodes::<T>(above).take(above.len() as int)[above.len() - 1] == above.last());
}

/// Level `k` of the tree over `leaves`: the leaves themselves for `k = 0`,
/// and each further level the one above the last.
pub open spec fn level_of<T: Hasher>(leaves: Seq<Seq<u8>>, k: nat) -> Seq<Seq<u8>>
    decreases k,
{
    if k == 0 {
        leaves
    } else {
        level_of::<T>(next_level::<T>(leaves), (k - 1) as nat)
    }
}

/// Whether a tree over `leaves` leaves has a level `k`: every level below
/// it has more than one entry.
pub open spec fn has_level(leaves: nat, k: nat) -> bool
    decreases k,
{
    k == 0 || (leaves > 1 && has_level(next_length(leaves), (k - 1) as nat))
}

/// The index in the flat sequence at which level `k` begins: the lengths of
/// the levels below it added up.
pub open spec fn level_start(leaves: nat, k: nat) -> nat
    decreases k,
{
    if k == 0 {
        0
    } else {
        leaves + level_start(next_length(leaves), (k - 1) as nat)
    }
}

/// From the start of any level on, the flat sequence is the tree over that
/// level: the levels lie one after another, each whole and in order.
pub proof fn lemma_level_in_tree<T: Hasher>(leaves: Seq<Seq<u8>>, k: nat)
    requires
        has_level(leaves.len(), k),
    ensures
        level_start(leaves.len(), k) + level_of::<T>(leaves, k).len() <= merkle_nodes::<T>(
            leaves,
        ).len(),
        merkle_nodes::<T>(leaves).skip(level_start(leaves.len(), k) as int) == merkle_nodes::<T>(
            level_of::<T>(leaves, k),
        ),
    decreases k,
{
    if k == 0 {
        lemma_nodes_layout::<T>(leaves);
        assert(merkle_nodes::<T>(leaves).skip(0) =~= merkle_nodes::<T>(leaves));
    } else {
        let above = next_level::<T>(leaves);
        let inner = level_start(above.len(), (k - 1) as nat);
        lemma_level_in_tree::<T>(above, (k - 1) as nat);
        assert(merkle_nodes::<T>(leaves).skip((leaves.len() + inner) as int) =~= merkle_nodes::<T>(
            above,
        ).skip(inner as int));
    }
}

/// Entry `i` of level `k` is the digest at index `level_start + i` of the
/// flat sequence.
pub proof fn lemma_level_entry_in_tree<T: Hasher>(leaves: Seq<Seq<u8>>, k: nat, i: int)
    requires
        has_level(leaves.len(), k),
        0 <= i < level_of::<T>(leaves, k).len(),
    ensures
        level_start(leaves.len(), k) + i < merkle_nodes::<T>(leaves).len(),
        merkle_nodes::<T>(leaves)[(level_start(leaves.len(), k) + i) as int] == level_of::<T>(leaves, k)[i],
{
    let level = level_of::<T>(leaves, k);
    let start = level_start(leaves.len(), k) as int;
    lemma_level_in_tree::<T>(leaves, k);
    lemma_nodes_layout::<T>(level);
    assert(merkle_nodes::<T>(leaves).skip(start)[i] == merkle_nodes::<T>(level).take(
        level.len() as int,
    )[i]);
}

/// Each level is the level above the one before it, and begins where that
/// one ends.
pub proof fn lemma_level_step<T: Hasher>(leaves: Seq<Seq<u8>>, k: nat)
    requires
        has_level(leaves.len(), k + 1),
    ensures
        has_level(leaves.len(), k),
        level_of::<T>(leaves, k).len() > 1,
        level_of::<T>(leaves, k + 1) == next_level::<T>(level_of::<T>(leaves, k)),
        level_start(leaves.len(), k + 1) == level_start(leaves.len(), k) + level_of::<T>(
            leaves,
            k,
        ).len(),
    decreases k,
{
    let above = next_level::<T>(leaves);
    assert(level_of::<T>(leaves, k + 1) == level_of::<T>(above, ((k + 1) - 1) as nat));
    assert(level_start(leaves.len(), k + 1) == leaves.len() + level_start(
        above.len(),
        ((k + 1) - 1) as nat,
    ));
    if k > 0 {
        lemma_level_step::<T>(above, (k - 1) as nat);
        assert(((k - 1) as nat) + 1 == k);
    }
}

/// Every digest above the leaves is made of the level below it. Entry `i`
/// of level `k + 1` is the hash of entries `2i` and `2i + 1` of level `k`,
/// left bytes first; where level `k` ends at `2i`, it is that entry itself.
pub proof fn lemma_parent_in_tree<T: Hasher>(leaves: Seq<Seq<u8>>, k: nat, i: int)
    requires
        has_level(leaves.len(), k + 1),
        0 <= i < level_of::<T>(leaves, k + 1).len(),
    ensures
        ({
            let nodes = merkle_nodes::<T>(leaves);
            let below = level_start(leaves.len(), k) as int;
            let n = level_of::<T>(leaves, k).len() as int;
            &&& below + n + i < nodes.len()
            &&& 2 * i < n
            &&& 2 * i + 1 < n ==> nodes[below + n + i] == T::digest(
                nodes[below + 2 * i] + nodes[below + 2 * i + 1],
            )
            &&& 2 * i + 1 >= n ==> nodes[below + n + i] == nodes[below + 2 * i]
        }),
{
    let level = level_of::<T>(leaves, k);
    lemma_level_step::<T>(leaves, k);
    lemma_next_level_entry::<T>(level, i);
    lemma_level_entry_in_tree::<T>(leaves, k + 1, i);
    lemma_level_entry_in_tree::<T>(leaves, k, 2 * i);
    if 2 * i + 1 < level.len() {
        lemma_level_entry_in_tree::<T>(leaves, k, 2 * i + 1);
    }
}

/// Odd-node promotion at any level of the flat sequence. Where level `k`
/// has an odd number `n > 1` of entries and begins at index `s`, the digest
/// at `s + n + n / 2`, the last of level `k + 1`, is the digest at
/// `s + n - 1`, the last of level `k`.
pub proof fn lemma_odd_node_promoted_at_level<T: Hasher>(leaves: Seq<Seq<u8>>, k: nat)
    requires
        has_level(leaves.len(), k),
        level_of::<T>(leaves, k).len() % 2 == 1,
        level_of::<T>(leaves, k).len() > 1,
    ensures
        ({
            let s = level_start(leaves.len(), k) as int;
            let n = level_of::<T>(leaves, k).len() as int;
            &&& s + n + n / 2 < merkle_nodes::<T>(leaves).len()
            &&& merkle_nodes::<T>(leaves)[s + n + n / 2] == merkle_nodes::<T>(leaves)[s + n - 1]
        }),
{
    let level = level_of::<T>(leaves, k);
    let s = level_start(leaves.len(), k) as int;
    let n = level.len() as int;
    lemma_level_in_tree::<T>(leaves, k);
    lemma_odd_node_promoted_in_tree::<T>(level);
    let rest = merkle_nodes::<T>(leaves).skip(s);
    assert(rest[n + n / 2] == merkle_nodes::<T>(leaves)[s + n + n / 2]);
    assert(rest[n - 1] == merkle_nodes::<T>(leaves)[s + n - 1]);
}

/// Every entry of the level above is the parent of its two children, or the
/// left child itself where the right one is missing.
pub proof fn lemma_next_level_entry<T: Hasher>(level: Seq<Seq<u8>>, i: int)
    requires
        0 <= i < next_length(level.len()),
    ensures
        2 * i < level.len(),
        2 * i + 1 < level.len() ==> next_level::<T>(level)[i] == T::digest(
            level[2 * i] + level[2 * i + 1],
        ),
        2 * i + 1 >= level.len() ==> next_level::<T>(level)[i] == level[2 * i],
{
}

} // verus!

//! The figures that are fixed before any hashing: the height estimate and
//! the capacity that is reserved for it.

use vstd::arithmetic::logarithm::{
    lemma_log0, lemma_log_is_ordered, lemma_log_nonnegative, lemma_log_pow, lemma_log_s, log,
};
use vstd::arithmetic::power2::{
    lemma2_to64, lemma_pow2, lemma_pow2_adds, lemma_pow2_strictly_increases, lemma_pow2_unfold,
    pow2,
};
use vstd::prelude::*;

verus! {

/// The integer nearest to the base-2 logarithm of `m`, for `m >= 1`: half of
/// the floor of the logarithm of `m * m`, rounded up. No integer has a
/// logarithm that lies halfway between two integers, so there are no ties.
pub open spec fn round_log2(m: nat) -> nat {
    ((log(2, (m * m) as int) + 1) / 2) as nat
}

/// The height estimate for a tree over `leaves` leaves: 1 for a single leaf,
/// else the base-2 logarithm of `leaves + 1`, rounded to the nearest integer.
pub open spec fn height_hint(leaves: nat) -> nat {
    if leaves == 1 {
        1
    } else {
        round_log2(leaves + 1)
    }
}

/// The number of nodes of a complete binary tree of the given height, which
/// is what the tree reserves room for.
pub open spec fn capacity_hint(height: nat) -> nat {
    (pow2(height + 1) - 1) as nat
}

/// The floor of the base-2 logarithm brackets its argument between two
/// neighbouring powers of two.
pub proof fn lemma_log2_brackets(x: nat)
    requires
        x >= 1,
    ensures
        log(2, x as int) >= 0,
        pow2(log(2, x as int) as nat) <= x < pow2((log(2, x as int) + 1) as nat),
    decreases x,
{
    lemma2_to64();
    if x < 2 {
        lemma_log0(2, x as int);
    } else {
        lemma_log_s(2, x as int);
        lemma_log2_brackets(x / 2);
        let below = log(2, (x / 2) as int);
        lemma_pow2_unfold((below + 1) as nat);
        lemma_pow2_unfold((below + 2) as nat);
    }
}

/// `round_log2(m)` is the nearest integer to the logarithm of `m`: with
/// `h = round_log2(m)`, the square of `m` lies from `2^(2h - 1)` up to, but
/// not including, `2^(2h + 1)`, stated here with both sides doubled.
pub proof fn lemma_round_log2_nearest(m: nat)
    requires
        m >= 1,
    ensures
        pow2(2 * round_log2(m)) <= 2 * (m * m) < pow2(2 * round_log2(m) + 2),
{
    assert(m * m >= 1) by (nonlinear_arith)
        requires
            m >= 1,
    ;
    lemma_log2_brackets(m * m);
    let floor = log(2, (m * m) as int) as nat;
    let h = round_log2(m);
    lemma_pow2_unfold(floor + 1);
    lemma_pow2_unfold(floor + 2);
    lemma_pow2_unfold(floor + 3);
    if floor % 2 == 0 {
        assert(2 * h == floor);
        assert(2 * h + 2 == floor + 2);
    } else {
        assert(2 * h == floor + 1);
        assert(2 * h + 2 == floor + 3);
    }
}

/// Up to `2^30 - 1` leaves, the capacity fits in a `usize` on every
/// machine: the height estimate is then at most 30.
pub proof fn lemma_capacity_fits(leaves: nat)
    requires
        leaves < 0x4000_0000,
    ensures
        height_hint(leaves) <= 30,
        capacity_hint(height_hint(leaves)) <= usize::MAX,
{
    lemma2_to64();
    lemma_pow2_adds(30, 30);
    let m = leaves + 1;
    assert(1 <= m * m <= 0x4000_0000 * 0x4000_0000) by (nonlinear_arith)
        requires
            1 <= m <= 0x4000_0000,
    ;
    lemma_pow2(60);
    lemma_log_pow(2, 60);
    lemma_log_is_ordered(2, (m * m) as int, pow2(60) as int);
    lemma_log_nonnegative(2, (m * m) as int);
    let height = height_hint(leaves);
    if height + 1 < 31 {
        lemma_pow2_strictly_increases(height + 1, 31);
    }
}

/// The value of `2^128`, one more than the largest `u128`.
proof fn lemma_pow2_128()
    ensures
        pow2(64) == 0x1_0000_0000_0000_0000,
        pow2(128) == 0x1_0000_0000_0000_0000 * 0x1_0000_0000_0000_0000,
        pow2(128) == u128::MAX + 1,
{
    lemma2_to64();
    lemma_pow2_adds(64, 64);
}

/// Computes `round_log2(leaves + 1)` in integers.
pub fn rounded_log2_of_successor(leaves: usize) -> (height: usize)
    ensures
        height == round_log2((leaves + 1) as nat),
        height <= 64,
{
    let m: u128 = leaves as u128 + 1;
    proof {
        lemma_pow2_128();
    }
    if m > 0xFFFF_FFFF_FFFF_FFFF {
        proof {
            assert(m == 0x1_0000_0000_0000_0000);
            assert(m * m == pow2(128));
            lemma_pow2(128);
            lemma_log_pow(2, 128);
        }
        return 64;
    }
    assert(m * m <= 0xFFFF_FFFF_FFFF_FFFF * 0xFFFF_FFFF_FFFF_FFFF) by (nonlinear_arith)
        requires
            1 <= m <= 0xFFFF_FFFF_FFFF_FFFF,
    ;
    let square: u128 = m * m;
    let mut rest: u128 = square;
    let mut floor: usize = 0;
    while rest >= 2
        invariant
            floor <= 128,
            rest < pow2((128 - floor) as nat),
            log(2, square as int) == floor + log(2, rest as int),
        decreases rest,
    {
        proof {
            lemma2_to64();
            lemma_log_s(2, rest as int);
            if floor < 128 {
                lemma_pow2_unfold((128 - floor) as nat);
            }
        }
        rest = rest / 2;
        floor += 1;
    }
    proof {
        lemma_log0(2, rest as int);
    }
    (floor + 1) / 2
}

/// Computes `height_hint(leaves)`.
pub fn estimated_height(leaves: usize) -> (height: usize)
    ensures
        height == height_hint(leaves as nat),
{
    match leaves {
        1 => 1,
        _ => rounded_log2_of_successor(leaves),
    }
}

/// Computes `capacity_hint(height)`, or `None` exactly where that is more
/// than a `usize` can hold.
pub fn checked_capacity(height: usize) -> (nodes: Option<usize>)
    ensures
        nodes is Some <==> capacity_hint(height as nat) <= usize::MAX,
        nodes is Some ==> nodes->Some_0 == capacity_hint(height as nat),
{
    let mut nodes: usize = 1;
    let mut level: usize = 0;
    proof {
        lemma2_to64();
    }
    while level < height
        invariant
            level <= height,
            nodes == pow2((level + 1) as nat) - 1,
        decreases height - level,
    {
        proof {
            lemma_pow2_unfold((level + 2) as nat);
            if level + 2 < height + 1 {
                lemma_pow2_strictly_increases((level + 2) as nat, (height + 1) as nat);
            }
        }
        if nodes > (usize::MAX - 1) / 2 {
            return None;
        }
        nodes = 2 * nodes + 1;
        level += 1;
    }
    Some(nodes)
}

} // verus!

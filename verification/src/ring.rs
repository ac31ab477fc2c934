//! Arithmetic on the `m`-bit identifier ring.
//!
//! Identifiers live in `[0, 2^m)`; distances are measured forward around the
//! ring, modulo `2^m`. `m` is at least 1 and at most 63, so every identifier
//! and every distance fits in a `u64`.

use vstd::prelude::*;
use vstd::arithmetic::power2::{
    pow2, lemma_pow2_pos, lemma_pow2_unfold, lemma_pow2_strictly_increases, lemma2_to64,
    lemma2_to64_rest,
};

verus! {

/// Number of identifiers on a ring of bit width `m`, that is `2^m`.
pub open spec fn ring_size(m: nat) -> nat {
    pow2(m)
}

pub proof fn lemma_ring_size_bounds(m: nat)
    requires
        m <= 63,
    ensures
        1 <= ring_size(m) <= 0x8000_0000_0000_0000,
{
    lemma_pow2_pos(m);
    if m < 63 {
        lemma_pow2_strictly_increases(m, 63);
    }
    lemma2_to64_rest();
}

/// `2^m` as a machine integer.
pub fn ring_size_u64(m: u64) -> (r: u64)
    requires
        m <= 63,
    ensures
        r == ring_size(m as nat),
        r >= 1,
{
    let mut i: u64 = 0;
    let mut p: u64 = 1;
    proof {
        lemma2_to64();
    }
    while i < m
        invariant
            i <= m <= 63,
            p == ring_size(i as nat),
        decreases m - i,
    {
        proof {
            lemma_pow2_unfold((i + 1) as nat);
            lemma_ring_size_bounds((i + 1) as nat);
        }
        p = p * 2;
        i = i + 1;
    }
    proof {
        lemma_ring_size_bounds(m as nat);
    }
    p
}

/// Forward distance from `s` to `k` around the ring, the number of steps a
/// walk in successor direction takes from `s` to reach `k`.
pub open spec fn ring_dist(m: nat, s: nat, k: nat) -> nat {
    if k >= s {
        (k - s) as nat
    } else {
        (ring_size(m) - s + k) as nat
    }
}

/// The conditional form above agrees with the modular form `(k - s) mod 2^m`.
pub proof fn lemma_ring_dist_is_mod(m: nat, s: nat, k: nat)
    requires
        s < ring_size(m),
        k < ring_size(m),
    ensures
        ring_dist(m, s, k) == (k - s) % (ring_size(m) as int),
{
    let size = ring_size(m) as int;
    if k >= s {
        vstd::arithmetic::div_mod::lemma_small_mod((k - s) as nat, size as nat);
    } else {
        vstd::arithmetic::div_mod::lemma_mod_add_multiples_vanish(k - s, size);
        vstd::arithmetic::div_mod::lemma_small_mod((size - s + k) as nat, size as nat);
    }
}

pub proof fn lemma_ring_dist_in_range(m: nat, s: nat, k: nat)
    requires
        s < ring_size(m),
        k < ring_size(m),
    ensures
        ring_dist(m, s, k) < ring_size(m),
        ring_dist(m, s, k) == 0 <==> k == s,
{
}

/// Forward ring distance as a machine integer.
pub fn ring_dist_u64(m: u64, s: u64, k: u64) -> (d: u64)
    requires
        m <= 63,
        s < ring_size(m as nat),
        k < ring_size(m as nat),
    ensures
        d == ring_dist(m as nat, s as nat, k as nat),
        d < ring_size(m as nat),
{
    let size = ring_size_u64(m);
    if k >= s {
        k - s
    } else {
        size - s + k
    }
}

/// Going from `a` to `b` and back around the ring covers it exactly once.
pub proof fn lemma_dist_antisym(m: nat, a: nat, b: nat)
    requires
        a < ring_size(m),
        b < ring_size(m),
        a != b,
    ensures
        ring_dist(m, a, b) + ring_dist(m, b, a) == ring_size(m),
{
}

/// A point `b` on the way from `a` to `c` splits the distance.
pub proof fn lemma_dist_chain(m: nat, a: nat, b: nat, c: nat)
    requires
        a < ring_size(m),
        b < ring_size(m),
        c < ring_size(m),
        ring_dist(m, a, b) <= ring_dist(m, a, c),
    ensures
        ring_dist(m, b, c) == ring_dist(m, a, c) - ring_dist(m, a, b),
{
}

/// Distances add up along a walk that goes less than once around.
pub proof fn lemma_dist_compose(m: nat, a: nat, b: nat, c: nat)
    requires
        a < ring_size(m),
        b < ring_size(m),
        c < ring_size(m),
        ring_dist(m, a, b) + ring_dist(m, b, c) < ring_size(m),
    ensures
        ring_dist(m, a, c) == ring_dist(m, a, b) + ring_dist(m, b, c),
{
}

/// The distance from a fixed point determines the target.
pub proof fn lemma_dist_inj(m: nat, t: nat, a: nat, b: nat)
    requires
        t < ring_size(m),
        a < ring_size(m),
        b < ring_size(m),
        ring_dist(m, t, a) == ring_dist(m, t, b),
    ensures
        a == b,
{
}

/// A finger's target lies exactly its stride forward of the node.
pub proof fn lemma_target_dist(m: nat, key: nat, i: nat)
    requires
        key < ring_size(m),
        i < m,
    ensures
        finger_target(m, key, i) < ring_size(m),
        ring_dist(m, key, finger_target(m, key, i)) == pow2(i),
{
    let size = ring_size(m) as int;
    lemma_pow2_pos(i);
    lemma_pow2_strictly_increases(i, m);
    if key + pow2(i) < size {
        vstd::arithmetic::div_mod::lemma_small_mod((key + pow2(i)) as nat, size as nat);
    } else {
        vstd::arithmetic::div_mod::lemma_mod_add_multiples_vanish(key + pow2(i) - size, size);
        vstd::arithmetic::div_mod::lemma_small_mod((key + pow2(i) - size) as nat, size as nat);
    }
}

/// Floor of the base-2 logarithm.
pub open spec fn log2(d: nat) -> nat
    decreases d,
{
    if d <= 1 {
        0
    } else {
        1 + log2((d / 2) as nat)
    }
}

/// `log2(d)` is the largest exponent whose power of two does not exceed `d`.
pub proof fn lemma_log2_bounds(d: nat)
    requires
        d >= 1,
    ensures
        pow2(log2(d)) <= d < pow2(log2(d) + 1),
    decreases d,
{
    lemma2_to64();
    if d > 1 {
        lemma_log2_bounds((d / 2) as nat);
        lemma_pow2_unfold(log2(d));
        lemma_pow2_unfold(log2(d) + 1);
    }
}

/// On a ring of width `m`, every nonzero distance has `log2` below `m`.
pub proof fn lemma_log2_below_width(m: nat, d: nat)
    requires
        1 <= d < ring_size(m),
    ensures
        log2(d) < m,
{
    lemma_log2_bounds(d);
    if log2(d) >= m {
        if log2(d) > m {
            lemma_pow2_strictly_increases(m, log2(d));
        }
        assert(pow2(log2(d)) >= pow2(m));
    }
}

/// Floor of the base-2 logarithm as a machine integer.
pub fn log2_u64(d: u64) -> (r: u64)
    requires
        d >= 1,
    ensures
        r == log2(d as nat),
{
    let mut x: u64 = d;
    let mut r: u64 = 0;
    proof {
        lemma2_to64_rest();
        lemma_log2_bounds(d as nat);
        if log2(d as nat) > 64 {
            lemma_pow2_strictly_increases(64, log2(d as nat));
        }
    }
    while x > 1
        invariant
            x >= 1,
            log2(d as nat) == r + log2(x as nat),
            log2(d as nat) <= 63,
        decreases x,
    {
        x = x / 2;
        r = r + 1;
    }
    r
}

/// The slot a finger at index `i` aims at: `(key + 2^i) mod 2^m`.
pub open spec fn finger_target(m: nat, key: nat, i: nat) -> nat {
    (key + pow2(i)) % ring_size(m)
}

/// A finger never aims back at its own node.
pub proof fn lemma_finger_target_not_self(m: nat, key: nat, i: nat)
    requires
        key < ring_size(m),
        i < m,
    ensures
        finger_target(m, key, i) != key,
        finger_target(m, key, i) < ring_size(m),
{
    let size = ring_size(m) as int;
    lemma_ring_size_bounds_any(m);
    lemma_pow2_pos(i);
    lemma_pow2_strictly_increases(i, m);
    if key + pow2(i) < size {
        vstd::arithmetic::div_mod::lemma_small_mod((key + pow2(i)) as nat, size as nat);
    } else {
        vstd::arithmetic::div_mod::lemma_mod_add_multiples_vanish(key + pow2(i) - size, size);
        vstd::arithmetic::div_mod::lemma_small_mod((key + pow2(i) - size) as nat, size as nat);
    }
    vstd::arithmetic::div_mod::lemma_mod_bound((key + pow2(i)) as int, size);
}

/// The ring has at least one slot whatever `m` is.
pub proof fn lemma_ring_size_bounds_any(m: nat)
    ensures
        ring_size(m) >= 1,
{
    lemma_pow2_pos(m);
}

/// The finger target as a machine integer.
pub fn finger_target_u64(m: u64, key: u64, i: u64) -> (t: u64)
    requires
        m <= 63,
        key < ring_size(m as nat),
        i < m,
    ensures
        t == finger_target(m as nat, key as nat, i as nat),
        t < ring_size(m as nat),
        t != key,
{
    let size = ring_size_u64(m);
    let stride = ring_size_u64(i);
    proof {
        lemma_ring_size_bounds(m as nat);
        lemma_ring_size_bounds(i as nat);
        lemma_pow2_strictly_increases(i as nat, m as nat);
        lemma_finger_target_not_self(m as nat, key as nat, i as nat);
        let sum = (key + stride) as int;
        if sum < size {
            vstd::arithmetic::div_mod::lemma_small_mod(sum as nat, size as nat);
        } else {
            vstd::arithmetic::div_mod::lemma_mod_add_multiples_vanish(sum - size, size as int);
            vstd::arithmetic::div_mod::lemma_small_mod((sum - size) as nat, size as nat);
        }
    }
    let sum = key + stride;
    if sum < size {
        sum
    } else {
        sum - size
    }
}

} // verus!

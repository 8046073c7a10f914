use vstd::arithmetic::power2::{lemma2_to64, lemma_pow2_adds, lemma_pow2_unfold, pow2};
use vstd::prelude::*;

verus! {

/// How many enemies may be alive at once when the game starts.
pub const MAX_ENEMIES: usize = 1;

/// `floor(log2(n))`, with 0 for 0 and 1.
pub open spec fn log2_floor(n: nat) -> nat
    decreases n,
{
    if n <= 1 {
        0
    } else {
        1 + log2_floor(n / 2)
    }
}

/// A number below `2^b` has a base-2 logarithm of at most `b`.
proof fn lemma_log2_floor_bound(n: nat, b: nat)
    requires
        n < pow2(b),
    ensures
        log2_floor(n) <= b,
    decreases n,
{
    if n > 1 {
        if b == 0 {
            assert(pow2(0) == 1) by {
                lemma2_to64();
            }
        }
        lemma_pow2_unfold(b);
        lemma_log2_floor_bound(n / 2, (b - 1) as nat);
    }
}

/// The score that a body of `len` segments is worth: its length beyond
/// the starting three.
pub open spec fn score_spec(len: nat) -> nat {
    if len >= 3 {
        (len - 3) as nat
    } else {
        0
    }
}

/// The enemy cap for a score: `max(1, floor(2 * log2(score / 5)))`, where
/// a score under 5 (a negative logarithm) counts as no enemy at all.
/// Since `2 * log2(s / 5) = log2(s * s / 25)` and the floor of a base-2
/// logarithm only sees the integer part, this is the integer logarithm of
/// `s * s / 25`.
pub open spec fn cap_spec(score: nat) -> nat {
    let q = score * score / 25;
    if q <= 1 {
        1
    } else {
        log2_floor(q)
    }
}

/// The score of a body of `len` segments.
pub fn score_for_length(len: usize) -> (r: usize)
    ensures
        r == score_spec(len as nat),
{
    if len >= 3 {
        len - 3
    } else {
        0
    }
}

/// The enemy cap for `score`.
pub fn scale_difficulty(score: usize) -> (r: usize)
    ensures
        r == cap_spec(score as nat),
        r >= 1,
{
    let s: u128 = score as u128;
    proof {
        assert(s * s <= u64::MAX * u64::MAX) by (nonlinear_arith)
            requires
                s <= u64::MAX,
        ;
    }
    let q0: u128 = s * s / 25;
    if q0 <= 1 {
        return 1;
    }
    proof {
        lemma2_to64();
        lemma_pow2_adds(64, 64);
        lemma_log2_floor_bound(q0 as nat, 128);
    }
    let mut q: u128 = q0;
    let mut k: usize = 0;
    while q > 1
        invariant
            q >= 1,
            k + log2_floor(q as nat) == log2_floor(q0 as nat),
            log2_floor(q0 as nat) <= 128,
        decreases q,
    {
        q = q / 2;
        k = k + 1;
    }
    k
}

/// The number of enemies allowed to be alive at once.
pub struct MaxEnemies(pub usize);

impl Default for MaxEnemies {
    fn default() -> (r: MaxEnemies)
        ensures
            r.0 == MAX_ENEMIES,
    {
        MaxEnemies(MAX_ENEMIES)
    }
}

impl MaxEnemies {
    /// The cap recomputed from the current score.
    pub fn for_score(score: usize) -> (r: MaxEnemies)
        ensures
            r.0 == cap_spec(score as nat),
    {
        MaxEnemies(scale_difficulty(score))
    }
}

} // verus!

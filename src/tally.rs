//! The mathematical model of a frequency table: how often each byte value
//! occurs in a sequence of bytes.
use vstd::prelude::*;

verus! {

/// Number of occurrences of `b` in `s`.
pub open spec fn count(s: Seq<u8>, b: u8) -> nat
    decreases s.len(),
{
    if s.len() == 0 {
        0
    } else {
        count(s.drop_last(), b) + if s.last() == b { 1nat } else { 0nat }
    }
}

/// The frequency table of `s`: entry `i` is how often byte value `i` occurs.
pub open spec fn counts(s: Seq<u8>) -> Seq<nat> {
    Seq::new(256, |i: int| count(s, i as u8))
}

/// Sum of the first `n` entries of `t`.
pub open spec fn sum_first(t: Seq<nat>, n: int) -> nat
    decreases n,
{
    if n <= 0 {
        0
    } else {
        sum_first(t, n - 1) + t[n - 1]
    }
}

/// `t` read as a sequence of naturals.
pub open spec fn as_nats(t: Seq<u64>) -> Seq<nat> {
    Seq::new(t.len(), |i: int| t[i] as nat)
}

/// A byte occurs no more often than the sequence is long.
pub proof fn lemma_count_le_len(s: Seq<u8>, b: u8)
    ensures
        count(s, b) <= s.len(),
    decreases s.len(),
{
    if s.len() > 0 {
        lemma_count_le_len(s.drop_last(), b);
    }
}

/// Appending one byte raises its own count by one and leaves the others.
pub proof fn lemma_count_push(s: Seq<u8>, x: u8, b: u8)
    ensures
        count(s.push(x), b) == count(s, b) + if x == b { 1nat } else { 0nat },
{
    assert(s.push(x).drop_last() =~= s);
}

proof fn lemma_sum_first_counts_push(s: Seq<u8>, x: u8, n: int)
    requires
        0 <= n <= 256,
    ensures
        sum_first(counts(s.push(x)), n) == sum_first(counts(s), n) + if (x as int) < n {
            1nat
        } else {
            0nat
        },
    decreases n,
{
    if n > 0 {
        lemma_sum_first_counts_push(s, x, n - 1);
        lemma_count_push(s, x, (n - 1) as u8);
    }
}

/// The entries of a frequency table add up to the length of the sequence.
pub proof fn lemma_counts_sum(s: Seq<u8>)
    ensures
        sum_first(counts(s), 256) == s.len(),
    decreases s.len(),
{
    if s.len() == 0 {
        lemma_sum_zero(counts(s), 256);
    } else {
        let p = s.drop_last();
        lemma_counts_sum(p);
        assert(p.push(s.last()) =~= s);
        lemma_sum_first_counts_push(p, s.last(), 256);
    }
}

proof fn lemma_sum_zero(t: Seq<nat>, n: int)
    requires
        0 <= n <= t.len(),
        forall|i: int| 0 <= i < n ==> t[i] == 0,
    ensures
        sum_first(t, n) == 0,
    decreases n,
{
    if n > 0 {
        lemma_sum_zero(t, n - 1);
    }
}

/// A prefix sum never exceeds a longer prefix sum.
pub proof fn lemma_sum_first_mono(t: Seq<nat>, m: int, n: int)
    requires
        0 <= m <= n,
    ensures
        sum_first(t, m) <= sum_first(t, n),
    decreases n,
{
    if m < n {
        lemma_sum_first_mono(t, m, n - 1);
    }
}

/// `(ca, a)` is at most `(cb, b)` in lexicographic order: count first,
/// then byte value.
pub open spec fn pair_le(ca: nat, a: int, cb: nat, b: int) -> bool {
    ca < cb || (ca == cb && a <= b)
}

/// `b` is the entry of `t` whose pair `(t[b], b)` is the largest.
pub open spec fn is_max_entry(t: Seq<nat>, b: int) -> bool {
    &&& 0 <= b < t.len()
    &&& forall|j: int| 0 <= j < t.len() ==> pair_le(t[j], j, t[b], b)
}

/// `b` is the entry of `t` whose pair `(t[b], b)` is the smallest.
pub open spec fn is_min_entry(t: Seq<nat>, b: int) -> bool {
    &&& 0 <= b < t.len()
    &&& forall|j: int| 0 <= j < t.len() ==> pair_le(t[b], b, t[j], j)
}

/// Number of one bits in `n`.
pub open spec fn bit_ones(n: nat) -> nat
    decreases n,
{
    if n == 0 {
        0
    } else {
        n % 2 + bit_ones(n / 2)
    }
}

/// The signed bit walk over the first `n` entries of a frequency table:
/// each occurrence of byte value `i` moves `2 * (ones(i) - 4)` steps, that
/// is one step up per one bit and one step down per zero bit.
pub open spec fn walk_first(t: Seq<nat>, n: int) -> int
    decreases n,
{
    if n <= 0 {
        0
    } else {
        walk_first(t, n - 1) + (bit_ones((n - 1) as nat) - 4) * 2 * t[n - 1]
    }
}

/// A number has no more one bits than its value.
pub proof fn lemma_bit_ones_le(n: nat)
    ensures
        bit_ones(n) <= n,
    decreases n,
{
    if n > 0 {
        lemma_bit_ones_le(n / 2);
    }
}

} // verus!

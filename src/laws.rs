//! Properties of frequency tables and windows that hold for every stream.
use vstd::prelude::*;
use crate::shannon::{chunk_range, chunk_total};
use crate::tally::{
    counts, is_max_entry, is_min_entry, lemma_count_push, lemma_counts_sum, sum_first,
};

verus! {

/// The byte picked by `byte_min` never occurs more often than the byte
/// picked by `byte_max`.
pub proof fn lemma_min_count_le_max_count(t: Seq<nat>, lo: int, hi: int)
    requires
        is_min_entry(t, lo),
        is_max_entry(t, hi),
    ensures
        t[lo] <= t[hi],
{
    assert(is_min_entry(t, lo) ==> (t[lo] < t[hi] || (t[lo] == t[hi] && lo <= hi)));
}

/// All 256 counts of a stream, and not any fewer of them, add up to the
/// number of bytes in it.
pub proof fn lemma_total_is_sum_of_counts(s: Seq<u8>)
    ensures
        sum_first(counts(s), 256) == s.len(),
{
    lemma_counts_sum(s);
}

/// With a window at least as long as a non-empty stream, there is exactly
/// one window, and it holds the whole stream, so its table is the
/// whole-stream table.
pub proof fn lemma_single_window(s: Seq<u8>, cs: nat)
    requires
        0 < s.len() <= cs,
    ensures
        chunk_total(s.len(), cs) == 1,
        chunk_range(s, cs, 0) == s,
        counts(chunk_range(s, cs, 0)) == counts(s),
{
    assert((s.len() - 1) as nat / cs == 0) by (nonlinear_arith)
        requires
            0 < s.len() <= cs,
    ;
    assert(s.subrange(0, s.len() as int) =~= s);
}

/// In a stream of one repeated byte value, that value's count is the
/// stream length and every other count is zero.
pub proof fn lemma_single_value_counts(s: Seq<u8>, b: u8)
    requires
        forall|i: int| 0 <= i < s.len() ==> s[i] == b,
    ensures
        counts(s)[b as int] == s.len(),
        forall|j: int| 0 <= j < 256 && j != b ==> counts(s)[j] == 0,
    decreases s.len(),
{
    if s.len() > 0 {
        let p = s.drop_last();
        lemma_single_value_counts(p, b);
        assert(p.push(b) =~= s);
        lemma_count_push(p, b, b);
        assert forall|j: int| 0 <= j < 256 && j != b implies counts(s)[j] == 0 by {
            assert(counts(p)[j] == 0);
            lemma_count_push(p, b, j as u8);
        }
    }
}

/// When every byte value occurs equally often, each occurs exactly
/// `len / 256` times.
pub proof fn lemma_uniform_counts(s: Seq<u8>)
    requires
        forall|i: int| 0 <= i < 256 ==> #[trigger] counts(s)[i] == counts(s)[0],
    ensures
        forall|i: int| 0 <= i < 256 ==> 256 * counts(s)[i] == s.len(),
{
    lemma_counts_sum(s);
    let c = counts(s)[0];
    lemma_sum_const(counts(s), c, 256);
}

proof fn lemma_sum_const(t: Seq<nat>, c: nat, n: int)
    requires
        0 <= n <= t.len(),
        forall|i: int| 0 <= i < t.len() ==> t[i] == c,
    ensures
        sum_first(t, n) == n * c,
    decreases n,
{
    if n > 0 {
        lemma_sum_const(t, c, n - 1);
        assert((n - 1) * c + c == n * c) by (nonlinear_arith);
        assert(sum_first(t, n) == sum_first(t, n - 1) + t[n - 1]);
    } else {
        assert(n * c == 0) by (nonlinear_arith)
            requires
                n == 0,
        ;
    }
}

} // verus!

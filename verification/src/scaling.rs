//! Histogram scaling: fitting a frequency table into a display width.

use vstd::prelude::*;
use vstd::arithmetic::div_mod::lemma_div_is_ordered;
use vstd::arithmetic::div_mod::lemma_div_multiples_vanish;
use vstd::arithmetic::div_mod::lemma_div_pos_is_pos;
use vstd::arithmetic::mul::lemma_mul_inequality;
use vstd::arithmetic::mul::lemma_mul_is_commutative;

verus! {

/// The largest count in the table; 0 for an empty table.
pub open spec fn seq_max(t: Seq<u32>) -> int
    decreases t.len(),
{
    if t.len() == 0 {
        0
    } else if t.last() as int >= seq_max(t.drop_last()) {
        t.last() as int
    } else {
        seq_max(t.drop_last())
    }
}

/// The table `t` rescaled to the display width `width`. An all-zero table
/// stays all-zero; otherwise each count `c` becomes `c * width / M` in
/// integer arithmetic, where `M` is the largest count — multiplying before
/// dividing, so no precision is lost to an early division.
pub open spec fn scaled(t: Seq<u32>, width: u32) -> Seq<u32> {
    let m = seq_max(t);
    if m == 0 {
        Seq::new(t.len(), |i: int| 0u32)
    } else {
        Seq::new(t.len(), |i: int| (t[i] as int * width as int / m) as u32)
    }
}

/// Every count in the table is at most the largest count.
pub proof fn lemma_seq_max_bound(t: Seq<u32>)
    ensures
        forall|i: int| 0 <= i < t.len() ==> t[i] as int <= seq_max(t),
    decreases t.len(),
{
    if t.len() > 0 {
        lemma_seq_max_bound(t.drop_last());
        assert forall|i: int| 0 <= i < t.len() implies t[i] as int <= seq_max(t) by {
            if i < t.len() - 1 {
                assert(t.drop_last()[i] == t[i]);
            }
        }
    }
}

/// Some bucket of a non-empty table holds the largest count.
pub proof fn lemma_seq_max_witness(t: Seq<u32>)
    requires
        t.len() > 0,
    ensures
        exists|i: int| 0 <= i < t.len() && t[i] as int == seq_max(t),
    decreases t.len(),
{
    if t.last() as int == seq_max(t) {
        assert(t[t.len() - 1] as int == seq_max(t));
    } else {
        assert(t.drop_last().len() > 0) by {
            if t.drop_last().len() == 0 {
                assert(seq_max(t.drop_last()) == 0);
            }
        }
        lemma_seq_max_witness(t.drop_last());
        let j = choose|i: int|
            0 <= i < t.drop_last().len() && t.drop_last()[i] as int == seq_max(t.drop_last());
        assert(t[j] as int == seq_max(t));
    }
}

/// Rescales `counts` in place to fit the display width `width`: each count
/// `c` becomes `c * width / M`, where `M` is the largest count, so that the
/// tallest bar spans exactly `width` columns. An all-zero table is left
/// all-zero — the degenerate case is recognized, never divided by.
pub fn fit_counts_to_termwidth(counts: &mut [u32; 256], width: u32)
    ensures
        final(counts)@ == scaled(old(counts)@, width),
{
    let ghost t0 = counts@;
    let mut widest: u32 = 0;
    let mut j: usize = 0;
    while j < 256
        invariant
            j <= 256,
            counts@ == t0,
            widest as int == seq_max(t0.take(j as int)),
        decreases 256 - j,
    {
        let c = counts[j];
        if c > widest {
            widest = c;
        }
        proof {
            assert(t0.take(j + 1).drop_last() =~= t0.take(j as int));
            assert(t0.take(j + 1).last() == t0[j as int]);
        }
        j = j + 1;
    }
    proof {
        assert(t0.take(256) =~= t0);
    }
    if widest == 0 {
        proof {
            lemma_seq_max_bound(t0);
            assert(counts@ =~= scaled(t0, width));
        }
        return;
    }
    let mut i: usize = 0;
    while i < 256
        invariant
            i <= 256,
            counts@.len() == 256,
            t0.len() == 256,
            widest as int == seq_max(t0),
            widest > 0,
            forall|k: int| 0 <= k < i ==> counts@[k] == scaled(t0, width)[k],
            forall|k: int| i <= k < 256 ==> counts@[k] == t0[k],
        decreases 256 - i,
    {
        let c = counts[i];
        proof {
            assert(c == t0[i as int]);
            lemma_seq_max_bound(t0);
            assert(c as int <= widest as int);
            lemma_mul_inequality(c as int, widest as int, width as int);
            lemma_mul_inequality(width as int, u32::MAX as int, u32::MAX as int);
            lemma_mul_is_commutative(c as int, width as int);
            lemma_mul_is_commutative(widest as int, width as int);
            lemma_mul_inequality(c as int, u32::MAX as int, width as int);
            lemma_div_is_ordered(
                c as int * width as int,
                widest as int * width as int,
                widest as int,
            );
            lemma_div_multiples_vanish(width as int, widest as int);
        }
        let q: u64 = (c as u64) * (width as u64) / (widest as u64);
        counts[i] = q as u32;
        i = i + 1;
    }
    proof {
        assert(counts@ =~= scaled(t0, width));
    }
}

/// Scaling an all-zero table yields an all-zero table, whatever the width.
pub proof fn lemma_scaled_all_zero(t: Seq<u32>, width: u32)
    requires
        forall|i: int| 0 <= i < t.len() ==> t[i] == 0,
    ensures
        forall|i: int| 0 <= i < t.len() ==> scaled(t, width)[i] == 0,
{
    if t.len() > 0 {
        lemma_seq_max_witness(t);
    }
}

/// For a table with at least one non-zero count, every rescaled value lies
/// in `[0, width]`, and the bucket holding the largest count lands on
/// exactly `width`.
pub proof fn lemma_scaled_bounds(t: Seq<u32>, width: u32)
    requires
        seq_max(t) > 0,
    ensures
        forall|i: int| 0 <= i < t.len() ==> scaled(t, width)[i] <= width,
        exists|i: int| 0 <= i < t.len() && scaled(t, width)[i] == width,
{
    let m = seq_max(t);
    lemma_seq_max_bound(t);
    lemma_div_multiples_vanish(width as int, m);
    assert forall|i: int| 0 <= i < t.len() implies scaled(t, width)[i] <= width by {
        lemma_mul_inequality(t[i] as int, m, width as int);
        lemma_div_is_ordered(t[i] as int * width as int, m * width as int, m);
        if t[i] > 0 {
            lemma_div_pos_is_pos(t[i] as int * width as int, m);
        }
    }
    lemma_seq_max_witness(t);
    let j = choose|i: int| 0 <= i < t.len() && t[i] as int == m;
    assert(t[j] as int * width as int == m * width as int);
    assert(scaled(t, width)[j] == width);
}

} // verus!

//! Byte counting: accumulating a 256-bucket frequency table over buffers.

use vstd::prelude::*;
use vstd::slice::slice_subrange;

verus! {

/// Number of occurrences of the byte value `b` in the sequence `s`.
pub open spec fn occurrences(s: Seq<u8>, b: u8) -> nat
    decreases s.len(),
{
    if s.len() == 0 {
        0
    } else {
        occurrences(s.drop_last(), b) + if s.last() == b {
            1nat
        } else {
            0nat
        }
    }
}

/// Addition of counts, saturating at `u32::MAX`.
pub open spec fn sat_add32(a: int, b: int) -> int {
    if a + b > u32::MAX {
        u32::MAX as int
    } else {
        a + b
    }
}

/// The frequency table `t` after counting every byte of `s`: bucket `i`
/// grows by the number of occurrences of byte value `i`, saturating at
/// `u32::MAX`.
pub open spec fn counted(t: Seq<u32>, s: Seq<u8>) -> Seq<u32> {
    Seq::new(t.len(), |i: int| sat_add32(t[i] as int, occurrences(s, i as u8) as int) as u32)
}

proof fn lemma_occurrences_push(s: Seq<u8>, a: u8, b: u8)
    ensures
        occurrences(s.push(a), b) == occurrences(s, b) + if a == b {
            1nat
        } else {
            0nat
        },
{
    assert(s.push(a).drop_last() =~= s);
}

/// Counts every byte of `x` into `counts`: bucket `b` grows by the number of
/// occurrences of `b` in `x`. Counts saturate at `u32::MAX` instead of
/// wrapping or panicking.
pub fn count_bytes(x: &[u8], counts: &mut [u32; 256])
    ensures
        final(counts)@ == counted(old(counts)@, x@),
{
    let ghost t0 = counts@;
    let mut j: usize = 0;
    while j < x.len()
        invariant
            j <= x.len(),
            counts@ == counted(t0, x@.take(j as int)),
        decreases x.len() - j,
    {
        let a = x[j];
        let c = counts[a as usize];
        let bumped = if c < u32::MAX {
            c + 1
        } else {
            u32::MAX
        };
        counts[a as usize] = bumped;
        proof {
            let prefix = x@.take(j as int);
            assert(x@.take(j + 1) =~= prefix.push(x@[j as int]));
            assert forall|i: int| 0 <= i < 256 implies counts@[i] == counted(
                t0,
                x@.take(j + 1),
            )[i] by {
                lemma_occurrences_push(prefix, x@[j as int], i as u8);
            }
            assert(counts@ =~= counted(t0, x@.take(j + 1)));
        }
        j = j + 1;
    }
    proof {
        assert(x@.take(x.len() as int) =~= x@);
    }
}

/// Counting nothing leaves the table as it was.
pub proof fn lemma_counted_empty(t: Seq<u32>)
    ensures
        counted(t, Seq::empty()) == t,
{
    assert(counted(t, Seq::empty()) =~= t);
}

/// Occurrence counts are additive over concatenation: `x + y` holds as many
/// copies of a byte value as `x` and `y` together.
pub proof fn lemma_occurrences_concat(x: Seq<u8>, y: Seq<u8>, b: u8)
    ensures
        occurrences(x + y, b) == occurrences(x, b) + occurrences(y, b),
    decreases y.len(),
{
    if y.len() == 0 {
        assert(x + y =~= x);
    } else {
        assert((x + y).drop_last() =~= x + y.drop_last());
        lemma_occurrences_concat(x, y.drop_last(), b);
    }
}

/// Counting is additive: counting the bytes of `x` and then the bytes of `y`
/// yields the same table as counting the concatenation `x + y` at once.
pub proof fn lemma_count_bytes_concat(t: Seq<u32>, x: Seq<u8>, y: Seq<u8>)
    ensures
        counted(counted(t, x), y) == counted(t, x + y),
{
    assert forall|i: int| 0 <= i < t.len() implies counted(counted(t, x), y)[i] == counted(
        t,
        x + y,
    )[i] by {
        lemma_occurrences_concat(x, y, i as u8);
    }
    assert(counted(counted(t, x), y) =~= counted(t, x + y));
}

/// The frequency table `t` after counting a sequence of chunks, one after the
/// other, in order.
pub open spec fn counted_chunks(t: Seq<u32>, chunks: Seq<Seq<u8>>) -> Seq<u32>
    decreases chunks.len(),
{
    if chunks.len() == 0 {
        t
    } else {
        counted_chunks(counted(t, chunks.first()), chunks.drop_first())
    }
}

/// Counting a stream chunk by chunk yields the same table as counting the
/// whole stream loaded at once: the chunked scan and the full load agree.
pub proof fn lemma_counted_chunks_flatten(t: Seq<u32>, chunks: Seq<Seq<u8>>)
    ensures
        counted_chunks(t, chunks) == counted(t, chunks.flatten()),
    decreases chunks.len(),
{
    if chunks.len() == 0 {
        lemma_counted_empty(t);
    } else {
        lemma_counted_chunks_flatten(counted(t, chunks.first()), chunks.drop_first());
        lemma_count_bytes_concat(t, chunks.first(), chunks.drop_first().flatten());
    }
}

/// The frequency table `t` after counting every byte of `s`, `n` times over.
pub open spec fn times_counted(t: Seq<u32>, s: Seq<u8>, n: nat) -> Seq<u32>
    decreases n,
{
    if n == 0 {
        t
    } else {
        counted(times_counted(t, s, (n - 1) as nat), s)
    }
}

/// Repeating the count `n` times grows each bucket by `n` times the byte's
/// occurrence count, saturating at `u32::MAX` — so every strategy that makes
/// `n` full passes over the same bytes ends on this same table.
pub proof fn lemma_times_counted_closed(t: Seq<u32>, s: Seq<u8>, n: nat)
    ensures
        times_counted(t, s, n).len() == t.len(),
        forall|i: int|
            0 <= i < t.len() ==> times_counted(t, s, n)[i] as int == sat_add32(
                t[i] as int,
                n * occurrences(s, i as u8) as int,
            ),
    decreases n,
{
    if n != 0 {
        lemma_times_counted_closed(t, s, (n - 1) as nat);
        assert forall|i: int|
            0 <= i < t.len() implies times_counted(t, s, n)[i] as int == sat_add32(
            t[i] as int,
            n * occurrences(s, i as u8) as int,
        ) by {
            let o = occurrences(s, i as u8) as int;
            assert(n * o == (n - 1) * o + o) by (nonlinear_arith);
        }
    }
}

/// Counts every byte of `x` into `counts`, `n` times over: one full pass over
/// the buffer per repetition, saturating at `u32::MAX` as `count_bytes` does.
pub fn count_repeated(x: &[u8], n: u32, counts: &mut [u32; 256])
    ensures
        final(counts)@ == times_counted(old(counts)@, x@, n as nat),
{
    let ghost t0 = counts@;
    let mut k: u32 = 0;
    while k < n
        invariant
            k <= n,
            counts@ == times_counted(t0, x@, k as nat),
        decreases n - k,
    {
        count_bytes(x, counts);
        k = k + 1;
    }
}

/// One step of the stream-scan strategy: counts the first `read_count` bytes
/// of `buffer` — the bytes one read delivered — and reports whether the scan
/// should go on. A short read (fewer bytes than the buffer holds) means end
/// of input, so the pass stops.
pub fn scan_step(buffer: &[u8], read_count: usize, counts: &mut [u32; 256]) -> (more: bool)
    requires
        read_count <= buffer@.len(),
    ensures
        final(counts)@ == counted(old(counts)@, buffer@.take(read_count as int)),
        more == (read_count == buffer@.len()),
{
    let chunk = slice_subrange(buffer, 0, read_count);
    proof {
        assert(chunk@ =~= buffer@.take(read_count as int));
    }
    count_bytes(chunk, counts);
    read_count == buffer.len()
}

} // verus!

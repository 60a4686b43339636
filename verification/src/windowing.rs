//! Partition of a token stream into overlapping windows.
//!
//! A stream of `n` tokens (with `n > max_chunk_size`) is covered by windows of
//! `max_chunk_size` tokens whose start offsets are `stride = max_chunk_size - overlap`
//! apart; the final window holds whatever tokens remain past the last full start.

use vstd::prelude::*;
use vstd::arithmetic::div_mod::lemma_fundamental_div_mod;
use vstd::arithmetic::div_mod::lemma_fundamental_div_mod_converse;
use vstd::arithmetic::div_mod::lemma_mod_bound;

verus! {

/// Offset between the starts of consecutive windows.
pub open spec fn spec_stride(max_chunk_size: int, overlap: int) -> int {
    max_chunk_size - overlap
}

/// Number of windows covering a stream of `n` tokens, for `n > max_chunk_size`:
/// `ceil((n - overlap) / stride)`.
pub open spec fn window_count(n: int, max_chunk_size: int, overlap: int) -> int {
    (n - overlap + spec_stride(max_chunk_size, overlap) - 1) / spec_stride(max_chunk_size, overlap)
}

/// End offset (exclusive) of window `k`: a full window, unless the stream ends first.
pub open spec fn window_end(n: int, max_chunk_size: int, overlap: int, k: int) -> int {
    let start = k * spec_stride(max_chunk_size, overlap);
    if start + max_chunk_size <= n {
        start + max_chunk_size
    } else {
        n
    }
}

/// Window `k` of the token stream.
pub open spec fn window_at(tokens: Seq<u32>, max_chunk_size: int, overlap: int, k: int) -> Seq<u32> {
    tokens.subrange(
        k * spec_stride(max_chunk_size, overlap),
        window_end(tokens.len() as int, max_chunk_size, overlap, k),
    )
}

/// All windows of the token stream, in ascending order of start offset.
pub open spec fn spec_windows(tokens: Seq<u32>, max_chunk_size: int, overlap: int) -> Seq<Seq<u32>> {
    Seq::new(
        window_count(tokens.len() as int, max_chunk_size, overlap) as nat,
        |k: int| window_at(tokens, max_chunk_size, overlap, k),
    )
}

/// The inequalities that pin the window count: there are at least two
/// windows, the last window's start leaves more than `overlap` tokens after
/// it, and a full window at that start would reach the end of the stream.
proof fn lemma_count_bounds(n: int, max_chunk_size: int, overlap: int)
    requires
        0 <= overlap < max_chunk_size,
        n > max_chunk_size,
    ensures
        ({
            let st = spec_stride(max_chunk_size, overlap);
            let count = window_count(n, max_chunk_size, overlap);
            &&& count >= 2
            &&& (count - 1) * st + overlap < n
            &&& (count - 1) * st + max_chunk_size >= n
        }),
{
    let st = spec_stride(max_chunk_size, overlap);
    let count = window_count(n, max_chunk_size, overlap);
    let x = n - overlap + st - 1;
    lemma_fundamental_div_mod(x, st);
    lemma_mod_bound(x, st);
    assert((count - 1) * st == st * count - st) by (nonlinear_arith);
    assert(st * count <= x);
    assert(st * count >= x - (st - 1));
    assert(st * count > st) by {
        assert(x >= 2 * st);
    }
    assert(count >= 2) by (nonlinear_arith)
        requires
            st * count > st,
            st > 0,
    ;
}

/// Law: a token stream of `n > max_chunk_size` tokens is cut into
/// `ceil((n - overlap) / stride)` windows, at least two of them, and the
/// final window holds the `n - (count - 1) * stride` remaining tokens,
/// which is more than `overlap` and hence positive.
pub proof fn lemma_window_count(tokens: Seq<u32>, max_chunk_size: int, overlap: int)
    requires
        0 <= overlap < max_chunk_size,
        tokens.len() > max_chunk_size,
    ensures
        ({
            let ws = spec_windows(tokens, max_chunk_size, overlap);
            let st = spec_stride(max_chunk_size, overlap);
            let n = tokens.len() as int;
            let count = window_count(n, max_chunk_size, overlap);
            &&& ws.len() == count
            &&& count >= 2
            &&& ws.last() == tokens.subrange((count - 1) * st, n)
            &&& ws.last().len() == n - (count - 1) * st
            &&& ws.last().len() > overlap
        }),
{
    let ws = spec_windows(tokens, max_chunk_size, overlap);
    let st = spec_stride(max_chunk_size, overlap);
    let n = tokens.len() as int;
    let count = window_count(n, max_chunk_size, overlap);
    lemma_count_bounds(n, max_chunk_size, overlap);
    assert(ws.last() == window_at(tokens, max_chunk_size, overlap, count - 1));
    assert(window_end(n, max_chunk_size, overlap, count - 1) == n);
}

/// Every window but the last is full: it holds exactly `max_chunk_size`
/// tokens, ending before the stream does.
proof fn lemma_full_window(tokens: Seq<u32>, max_chunk_size: int, overlap: int, k: int)
    requires
        0 <= overlap < max_chunk_size,
        tokens.len() > max_chunk_size,
        0 <= k < window_count(tokens.len() as int, max_chunk_size, overlap) - 1,
    ensures
        ({
            let st = spec_stride(max_chunk_size, overlap);
            let n = tokens.len() as int;
            &&& k * st + max_chunk_size < n
            &&& window_end(n, max_chunk_size, overlap, k) == k * st + max_chunk_size
            &&& window_at(tokens, max_chunk_size, overlap, k) == tokens.subrange(
                k * st,
                k * st + max_chunk_size,
            )
        }),
{
    let st = spec_stride(max_chunk_size, overlap);
    let n = tokens.len() as int;
    let count = window_count(n, max_chunk_size, overlap);
    lemma_count_bounds(n, max_chunk_size, overlap);
    assert(k * st + st <= (count - 1) * st) by (nonlinear_arith)
        requires
            k + 1 <= count - 1,
            st > 0,
    ;
    assert(k * st + max_chunk_size <= (count - 1) * st + overlap);
}

/// The token ids of a chunk sequence, re-assembled: the first window whole,
/// and each later window without its first `overlap` ids.
pub open spec fn reassembled(ws: Seq<Seq<u32>>, overlap: int) -> Seq<u32>
    decreases ws.len(),
{
    if ws.len() == 0 {
        Seq::empty()
    } else if ws.len() == 1 {
        ws[0]
    } else {
        reassembled(ws.drop_last(), overlap) + ws.last().skip(overlap)
    }
}

/// Re-assembling the first `j` windows yields the stream up to the end of
/// window `j - 1`.
proof fn lemma_reassembly_prefix(tokens: Seq<u32>, max_chunk_size: int, overlap: int, j: int)
    requires
        0 <= overlap < max_chunk_size,
        tokens.len() > max_chunk_size,
        1 <= j <= window_count(tokens.len() as int, max_chunk_size, overlap),
    ensures
        reassembled(spec_windows(tokens, max_chunk_size, overlap).take(j), overlap)
            == tokens.subrange(
            0,
            window_end(tokens.len() as int, max_chunk_size, overlap, j - 1),
        ),
    decreases j,
{
    let ws = spec_windows(tokens, max_chunk_size, overlap);
    let st = spec_stride(max_chunk_size, overlap);
    let n = tokens.len() as int;
    let count = window_count(n, max_chunk_size, overlap);
    lemma_count_bounds(n, max_chunk_size, overlap);
    if j == 1 {
        assert(ws.take(1).len() == 1);
        assert(ws.take(1)[0] == window_at(tokens, max_chunk_size, overlap, 0));
        assert(0 * st == 0);
        assert(reassembled(ws.take(1), overlap) == tokens.subrange(
            0,
            window_end(n, max_chunk_size, overlap, 0),
        ));
    } else {
        lemma_reassembly_prefix(tokens, max_chunk_size, overlap, j - 1);
        lemma_full_window(tokens, max_chunk_size, overlap, j - 2);
        let prev_end = window_end(n, max_chunk_size, overlap, j - 2);
        let end = window_end(n, max_chunk_size, overlap, j - 1);
        assert(ws.take(j).drop_last() =~= ws.take(j - 1));
        assert(ws.take(j).last() == window_at(tokens, max_chunk_size, overlap, j - 1));
        assert((j - 1) * st == (j - 2) * st + st) by (nonlinear_arith);
        assert((j - 1) * st + overlap == prev_end);
        if j - 1 < count - 1 {
            lemma_full_window(tokens, max_chunk_size, overlap, j - 1);
        } else {
            assert(window_end(n, max_chunk_size, overlap, count - 1) == n);
        }
        assert((j - 1) * st <= prev_end <= end <= n);
        assert(window_at(tokens, max_chunk_size, overlap, j - 1).skip(overlap) =~= tokens.subrange(
            prev_end,
            end,
        ));
        assert(tokens.subrange(0, prev_end) + tokens.subrange(prev_end, end) =~= tokens.subrange(
            0,
            end,
        ));
    }
}

/// Law: concatenating each window's token ids in ascending window order,
/// after dropping the first `overlap` ids of every window but the first,
/// reproduces the original token stream exactly.
pub proof fn lemma_reassembly(tokens: Seq<u32>, max_chunk_size: int, overlap: int)
    requires
        0 <= overlap < max_chunk_size,
        tokens.len() > max_chunk_size,
    ensures
        reassembled(spec_windows(tokens, max_chunk_size, overlap), overlap) == tokens,
{
    let ws = spec_windows(tokens, max_chunk_size, overlap);
    let n = tokens.len() as int;
    let count = window_count(n, max_chunk_size, overlap);
    lemma_count_bounds(n, max_chunk_size, overlap);
    lemma_reassembly_prefix(tokens, max_chunk_size, overlap, count);
    assert(ws.take(count) =~= ws);
    assert(window_end(n, max_chunk_size, overlap, count - 1) == n);
    assert(tokens.subrange(0, n) =~= tokens);
}

/// Copies `tokens[a..b]` into a fresh vector.
fn copy_range(tokens: &Vec<u32>, a: usize, b: usize) -> (r: Vec<u32>)
    requires
        a <= b <= tokens.len(),
    ensures
        r@ == tokens@.subrange(a as int, b as int),
{
    let mut r: Vec<u32> = Vec::new();
    let mut i: usize = a;
    while i < b
        invariant
            a <= i <= b <= tokens.len(),
            r@ == tokens@.subrange(a as int, i as int),
        decreases b - i,
    {
        r.push(tokens[i]);
        proof {
            assert(tokens@.subrange(a as int, i + 1) =~= tokens@.subrange(a as int, i as int).push(
                tokens@[i as int],
            ));
        }
        i = i + 1;
    }
    r
}

/// Computes the windows of `tokens`, each as its own vector, in ascending
/// order of start offset.
pub fn compute_windows(tokens: &Vec<u32>, max_chunk_size: usize, overlap: usize) -> (r: Vec<
    Vec<u32>,
>)
    requires
        overlap < max_chunk_size,
        max_chunk_size < tokens.len(),
    ensures
        r.deep_view() == spec_windows(tokens@, max_chunk_size as int, overlap as int),
{
    let n = tokens.len();
    let stride = max_chunk_size - overlap;
    let mut r: Vec<Vec<u32>> = Vec::new();
    let mut start: usize = 0;
    proof {
        assert(r@.len() * stride == 0) by (nonlinear_arith)
            requires
                r@.len() == 0,
        ;
    }
    while n - start > max_chunk_size
        invariant
            overlap < max_chunk_size < n == tokens.len(),
            stride == max_chunk_size - overlap,
            start == r@.len() * stride,
            n > start + overlap,
            r@.len() > 0 ==> n > (r@.len() - 1) * stride + max_chunk_size,
            forall|i: int|
                0 <= i < r@.len() ==> #[trigger] r@[i]@ == window_at(
                    tokens@,
                    max_chunk_size as int,
                    overlap as int,
                    i,
                ),
        decreases n - start,
    {
        let ghost k = r@.len() as int;
        let w = copy_range(tokens, start, start + max_chunk_size);
        proof {
            assert(window_end(n as int, max_chunk_size as int, overlap as int, k) == start
                + max_chunk_size);
            assert(w@ == window_at(tokens@, max_chunk_size as int, overlap as int, k));
            assert((k + 1) * stride == k * stride + stride) by (nonlinear_arith);
            assert((k + 1 - 1) * stride == k * stride) by (nonlinear_arith);
        }
        r.push(w);
        start = start + stride;
    }
    let ghost k = r@.len() as int;
    let w = copy_range(tokens, start, n);
    proof {
        assert(k >= 1);
        assert(window_end(n as int, max_chunk_size as int, overlap as int, k) == n);
        assert(w@ == window_at(tokens@, max_chunk_size as int, overlap as int, k));
    }
    r.push(w);
    proof {
        let maxi = max_chunk_size as int;
        let ovi = overlap as int;
        let sti = stride as int;
        let x = n - ovi + sti - 1;
        assert((k + 1) * sti == k * sti + sti) by (nonlinear_arith);
        assert(x == (k + 1) * sti + (n - start - ovi - 1));
        lemma_fundamental_div_mod_converse(x, sti, k + 1, n - start - ovi - 1);
        assert(window_count(n as int, maxi, ovi) == k + 1);
        assert(r.deep_view() =~~= spec_windows(tokens@, maxi, ovi));
    }
    r
}

} // verus!

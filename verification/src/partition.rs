//! Splitting a file list of known length into contiguous chunks, one
//! per worker: boundaries depend only on position, every index lands in
//! exactly one chunk, and the chunk count never exceeds the worker count.

use vstd::prelude::*;
use vstd::arithmetic::div_mod::lemma_fundamental_div_mod;
use vstd::arithmetic::div_mod::lemma_fundamental_div_mod_converse_div;

verus! {

/// A contiguous range of indices into the file list, assigned to one
/// worker: the files at `start..end`.
#[derive(Clone, Copy, PartialEq, Eq, Structural, Debug)]
pub struct WorkChunk {
    pub start: usize,
    pub end: usize,
}

/// `a / b` rounded up.
pub open spec fn ceil_div(a: int, b: int) -> int
    recommends
        b >= 1,
{
    if a % b == 0 {
        a / b
    } else {
        a / b + 1
    }
}

/// The number of chunks a list of `f` files is split into for `n` workers.
pub open spec fn spec_chunk_count(f: int, n: int) -> int
    recommends
        n >= 1,
{
    if f == 0 {
        0
    } else {
        ceil_div(f, ceil_div(f, n))
    }
}

/// `chunks` splits the indices `0..f` into consecutive runs of
/// `ceil_div(f, n)` indices each (the last run may be shorter).
pub open spec fn chunks_cover(chunks: Seq<WorkChunk>, f: int, n: int) -> bool {
    let sz = ceil_div(f, n);
    &&& chunks.len() == spec_chunk_count(f, n)
    &&& forall|c: int|
        0 <= c < chunks.len() ==> (#[trigger] chunks[c]).start == c * sz
    &&& forall|c: int|
        0 <= c < chunks.len() ==> (#[trigger] chunks[c]).end == if (c + 1) * sz <= f {
            (c + 1) * sz
        } else {
            f
        }
}

/// `j` is one of the indices assigned by chunk `c`.
pub open spec fn chunk_holds(c: WorkChunk, j: int) -> bool {
    c.start <= j < c.end
}

/// Some chunk of `chunks` is assigned the index `j`.
pub open spec fn some_chunk_holds(chunks: Seq<WorkChunk>, j: int) -> bool {
    exists|c: int| 0 <= c < chunks.len() && chunk_holds(#[trigger] chunks[c], j)
}

proof fn lemma_ceil_div_bounds(a: int, b: int)
    requires
        a >= 0,
        b >= 1,
    ensures
        ceil_div(a, b) >= 0,
        a <= ceil_div(a, b) * b,
        a > 0 ==> (ceil_div(a, b) - 1) * b < a,
        a > 0 ==> ceil_div(a, b) >= 1,
{
    let q = a / b;
    let r = a % b;
    lemma_fundamental_div_mod(a, b);
    assert(q >= 0) by (nonlinear_arith)
        requires
            a >= 0,
            b >= 1,
            a == b * q + r,
            0 <= r < b,
    ;
    if r == 0 {
        assert(a <= q * b && (a > 0 ==> (q - 1) * b < a) && (a > 0 ==> q >= 1))
            by (nonlinear_arith)
            requires
                a >= 0,
                b >= 1,
                q >= 0,
                a == b * q,
        ;
    } else {
        assert(a <= (q + 1) * b && (q + 1 - 1) * b < a && q + 1 >= 1) by (nonlinear_arith)
            requires
                b >= 1,
                q >= 0,
                a == b * q + r,
                0 < r < b,
        ;
    }
}

proof fn lemma_ceil_div_unique(a: int, b: int, k: int)
    requires
        a >= 1,
        b >= 1,
        (k - 1) * b < a,
        a <= k * b,
    ensures
        k == ceil_div(a, b),
{
    let c = ceil_div(a, b);
    lemma_ceil_div_bounds(a, b);
    assert(k == c) by (nonlinear_arith)
        requires
            a >= 1,
            b >= 1,
            (k - 1) * b < a,
            a <= k * b,
            (c - 1) * b < a,
            a <= c * b,
    ;
}

proof fn lemma_chunk_count_le_workers(f: int, n: int)
    requires
        f >= 0,
        n >= 1,
    ensures
        spec_chunk_count(f, n) <= n,
{
    if f > 0 {
        let sz = ceil_div(f, n);
        lemma_ceil_div_bounds(f, n);
        let cnt = ceil_div(f, sz);
        lemma_ceil_div_bounds(f, sz);
        assert(cnt <= n) by (nonlinear_arith)
            requires
                f >= 1,
                n >= 1,
                sz >= 1,
                f <= sz * n,
                (cnt - 1) * sz < f,
        ;
    }
}

/// The size of every chunk but possibly the last: the file count
/// divided by the worker count, rounded up so that at most `workers`
/// chunks arise.
pub fn chunk_size(file_count: usize, workers: usize) -> (sz: usize)
    requires
        workers >= 1,
    ensures
        sz == ceil_div(file_count as int, workers as int),
        file_count > 0 ==> 1 <= sz,
        sz <= file_count,
{
    let q = file_count / workers;
    proof {
        let fi = file_count as int;
        let ni = workers as int;
        lemma_fundamental_div_mod(fi, ni);
        assert(q as int == fi / ni);
    }
    if file_count % workers == 0 {
        proof {
            let fi = file_count as int;
            let ni = workers as int;
            assert(q <= fi && (fi > 0 ==> q >= 1)) by (nonlinear_arith)
                requires
                    fi >= 0,
                    ni >= 1,
                    fi == ni * (q as int),
                    q >= 0,
            ;
        }
        q
    } else {
        proof {
            let fi = file_count as int;
            let ni = workers as int;
            assert(ni >= 2) by {
                if ni == 1 {
                    assert(fi % 1int == 0) by (nonlinear_arith);
                }
            }
            assert(q as int + 1 <= fi) by (nonlinear_arith)
                requires
                    ni >= 2,
                    fi == ni * (q as int) + fi % ni,
                    0 < fi % ni < ni,
                    q >= 0,
            ;
        }
        q + 1
    }
}

/// Split the indices `0..file_count` into consecutive chunks, one per
/// worker: every index lies in a chunk, chunks do not overlap, and at
/// most `workers` chunks are produced. No files means no chunks.
pub fn partition(file_count: usize, workers: usize) -> (chunks: Vec<WorkChunk>)
    requires
        workers >= 1,
    ensures
        chunks_cover(chunks@, file_count as int, workers as int),
        chunks@.len() <= workers,
        forall|c: int|
            0 <= c < chunks@.len() ==> (#[trigger] chunks@[c]).start < chunks@[c].end
                <= file_count,
{
    let mut chunks: Vec<WorkChunk> = Vec::new();
    if file_count == 0 {
        return chunks;
    }
    let sz = chunk_size(file_count, workers);
    let ghost fi = file_count as int;
    let ghost szi = sz as int;
    let mut start: usize = 0;
    proof {
        assert(chunks@.len() == 0);
        assert(chunks@.len() * szi == 0) by (nonlinear_arith)
            requires
                chunks@.len() == 0,
        ;
    }
    while start < file_count
        invariant
            workers >= 1,
            file_count >= 1,
            szi == sz as int,
            fi == file_count as int,
            szi == ceil_div(fi, workers as int),
            1 <= sz <= file_count,
            start <= file_count,
            start as int == if chunks@.len() * szi <= fi {
                chunks@.len() * szi
            } else {
                fi
            },
            forall|c: int|
                0 <= c < chunks@.len() ==> (#[trigger] chunks@[c]).start == c * szi,
            forall|c: int|
                0 <= c < chunks@.len() ==> (#[trigger] chunks@[c]).end == if (c + 1) * szi
                    <= fi {
                    (c + 1) * szi
                } else {
                    fi
                },
            forall|c: int|
                0 <= c < chunks@.len() ==> (#[trigger] chunks@[c]).start < chunks@[c].end
                    <= file_count,
        decreases file_count - start,
    {
        let ghost len = chunks@.len() as int;
        proof {
            assert(start as int == len * szi);
            assert((len + 1) * szi == len * szi + szi) by (nonlinear_arith);
        }
        let end = if file_count - start > sz {
            start + sz
        } else {
            file_count
        };
        chunks.push(WorkChunk { start, end });
        proof {
            assert forall|c: int| 0 <= c < chunks@.len() implies (#[trigger] chunks@[c]).start
                == c * szi by {
                if c < len {
                } else {
                    assert(chunks@[c] == WorkChunk { start, end });
                }
            }
        }
        start = end;
    }
    proof {
        let len = chunks@.len() as int;
        let ni = workers as int;
        assert(len >= 1);
        assert(fi <= len * szi);
        assert(chunks@[len - 1].start == (len - 1) * szi);
        assert((len - 1) * szi < fi);
        lemma_ceil_div_unique(fi, szi, len);
        lemma_chunk_count_le_workers(fi, ni);
    }
    chunks
}

/// Partitioning is a total, non-overlapping cover: every file index
/// lies in exactly one chunk, and there are at most as many chunks as
/// workers.
pub proof fn lemma_partition_total_cover(chunks: Seq<WorkChunk>, f: int, n: int)
    requires
        f >= 0,
        n >= 1,
        chunks_cover(chunks, f, n),
    ensures
        chunks.len() <= n,
        forall|j: int| 0 <= j < f ==> #[trigger] some_chunk_holds(chunks, j),
        forall|c1: int, c2: int, j: int|
            0 <= c1 < chunks.len() && 0 <= c2 < chunks.len() && #[trigger] chunk_holds(
                chunks[c1],
                j,
            ) && #[trigger] chunk_holds(chunks[c2], j) ==> c1 == c2,
{
    lemma_chunk_count_le_workers(f, n);
    let sz = ceil_div(f, n);
    if f > 0 {
        lemma_ceil_div_bounds(f, n);
        lemma_ceil_div_bounds(f, sz);
        assert(chunks.len() == ceil_div(f, sz));
        assert forall|j: int| 0 <= j < f implies #[trigger] some_chunk_holds(chunks, j) by {
            let c = j / sz;
            lemma_fundamental_div_mod(j, sz);
            assert(c * sz <= j < (c + 1) * sz && c >= 0) by (nonlinear_arith)
                requires
                    j >= 0,
                    sz >= 1,
                    j == sz * c + j % sz,
                    0 <= j % sz < sz,
            ;
            assert(c < chunks.len()) by (nonlinear_arith)
                requires
                    sz >= 1,
                    c * sz <= j,
                    j < f,
                    f <= chunks.len() * sz,
            ;
            assert(chunks[c].start == c * sz);
            assert(chunk_holds(chunks[c], j));
        }
        assert forall|c1: int, c2: int, j: int|
            0 <= c1 < chunks.len() && 0 <= c2 < chunks.len() && #[trigger] chunk_holds(
                chunks[c1],
                j,
            ) && #[trigger] chunk_holds(chunks[c2], j) implies c1 == c2 by {
            assert((c1 + 1) * sz == c1 * sz + sz) by (nonlinear_arith);
            assert((c2 + 1) * sz == c2 * sz + sz) by (nonlinear_arith);
            assert(chunks[c1].end <= (c1 + 1) * sz);
            assert(chunks[c2].end <= (c2 + 1) * sz);
            assert(c1 * sz <= j < (c1 + 1) * sz);
            assert(c2 * sz <= j < (c2 + 1) * sz);
            assert(j == c1 * (sz as int) + (j - c1 * sz));
            assert(j == c2 * (sz as int) + (j - c2 * sz));
            lemma_fundamental_div_mod_converse_div(j, sz, c1, j - c1 * sz);
            lemma_fundamental_div_mod_converse_div(j, sz, c2, j - c2 * sz);
        }
    }
}

} // verus!

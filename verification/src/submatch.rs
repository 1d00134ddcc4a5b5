//! The windowed submatch engine.
//!
//! Given the rolling window hashes of a query symbol and of every other
//! symbol, the engine reports the maximal diagonal runs of equal window
//! hashes: sequences of consecutive query positions whose hashes match the
//! other symbol's hashes at a fixed offset. Only query positions inside a
//! caller-given `[start, end]` range take part, and only runs of at least
//! `min_len` windows are reported.
//!
//! The runs are exact at the window-hash level: every counted position is
//! an equal pair of hashes, and every shared opcode stretch yields a run.
//! Reading a run as a shared opcode stretch, or counting runs exactly,
//! additionally takes the 64-bit window hashes to be collision-free, which
//! no contract over a real hash can supply.

use crate::hashing::{spec_padded, spec_window_hashes};
use vstd::prelude::*;

verus! {

/// Whether query window `i` matches window `j` of the other symbol.
pub open spec fn spec_window_match(q: Seq<u64>, w: Seq<u64>, i: int, j: int) -> bool {
    0 <= i < q.len() && 0 <= j < w.len() && q[i] == w[j]
}

/// Length of the run of matching windows beginning at `(i, j)`, counted
/// over at most `fuel` positions.
pub open spec fn spec_run_len_go(q: Seq<u64>, w: Seq<u64>, i: int, j: int, fuel: nat) -> nat
    decreases fuel,
{
    if fuel == 0 {
        0
    } else if spec_window_match(q, w, i, j) {
        1 + spec_run_len_go(q, w, i + 1, j + 1, (fuel - 1) as nat)
    } else {
        0
    }
}

/// Length of the run beginning at `(i, j)`, with query positions capped at
/// `end`.
pub open spec fn spec_run_len(q: Seq<u64>, w: Seq<u64>, end: int, i: int, j: int) -> nat {
    if i <= end {
        spec_run_len_go(q, w, i, j, (end + 1 - i) as nat)
    } else {
        0
    }
}

/// Whether `(i, j)` begins a maximal run within the query range
/// `[start, end]`: the windows match, `i` lies in range, and the run cannot
/// be extended one position to the left without leaving the range.
pub open spec fn spec_run_start(
    q: Seq<u64>,
    w: Seq<u64>,
    start: int,
    end: int,
    i: int,
    j: int,
) -> bool {
    &&& start <= i <= end
    &&& spec_window_match(q, w, i, j)
    &&& !(i > start && spec_window_match(q, w, i - 1, j - 1))
}

/// Whether the run at `(i, j)` is reported: it is a maximal run start and
/// long enough.
pub open spec fn spec_reported(
    q: Seq<u64>,
    w: Seq<u64>,
    start: int,
    end: int,
    min_len: int,
    i: int,
    j: int,
) -> bool {
    spec_run_start(q, w, start, end, i, j) && spec_run_len(q, w, end, i, j) >= min_len
}

/// The reported runs with query position `i` and match position below `j`,
/// in match-position order.
pub open spec fn spec_runs_row(
    q: Seq<u64>,
    w: Seq<u64>,
    start: int,
    end: int,
    min_len: int,
    i: int,
    j: int,
) -> Seq<(int, int, int)>
    decreases j,
{
    if j <= 0 {
        Seq::empty()
    } else {
        spec_runs_row(q, w, start, end, min_len, i, j - 1) + (if spec_reported(
            q,
            w,
            start,
            end,
            min_len,
            i,
            j - 1,
        ) {
            seq![(i, j - 1, spec_run_len(q, w, end, i, j - 1) as int)]
        } else {
            Seq::empty()
        })
    }
}

/// The reported runs with query position below `start + k`, ordered by
/// query position, then match position.
pub open spec fn spec_runs_upto(
    q: Seq<u64>,
    w: Seq<u64>,
    start: int,
    end: int,
    min_len: int,
    k: int,
) -> Seq<(int, int, int)>
    decreases k,
{
    if k <= 0 {
        Seq::empty()
    } else {
        spec_runs_upto(q, w, start, end, min_len, k - 1) + spec_runs_row(
            q,
            w,
            start,
            end,
            min_len,
            start + k - 1,
            w.len() as int,
        )
    }
}

/// All maximal diagonal runs between `q` and `w` of at least `min_len`
/// windows, with query positions in `[start, end]`, ordered by query
/// position, then match position.
pub open spec fn spec_pair_runs(
    q: Seq<u64>,
    w: Seq<u64>,
    start: int,
    end: int,
    min_len: int,
) -> Seq<(int, int, int)> {
    let top = if end + 1 <= q.len() {
        end + 1
    } else {
        q.len() as int
    };
    spec_runs_upto(q, w, start, end, min_len, top - start)
}

/// Length of the matching run beginning at `(i, j)`, scanned forward while
/// the windows keep matching, up to query position `end`.
fn run_len_at(q: &Vec<u64>, w: &Vec<u64>, end: usize, i: usize, j: usize) -> (r: usize)
    requires
        end <= usize::MAX - 1,
    ensures
        r == spec_run_len(q@, w@, end as int, i as int, j as int),
        r <= q@.len(),
{
    if i > end {
        return 0;
    }
    let mut k: usize = 0;
    while i + k <= end && i + k < q.len() && j + k < w.len() && q[i + k] == w[j + k]
        invariant
            end <= usize::MAX - 1,
            i <= end,
            i + k <= end + 1,
            j + k <= usize::MAX,
            k <= q@.len(),
            spec_run_len(q@, w@, end as int, i as int, j as int) == k + spec_run_len_go(
                q@,
                w@,
                i + k,
                j + k,
                (end + 1 - i - k) as nat,
            ),
        decreases end + 1 - i - k,
    {
        k = k + 1;
    }
    proof {
        if i + k <= end {
            assert(spec_run_len_go(q@, w@, i + k, j + k, (end + 1 - i - k) as nat) == 0);
        }
    }
    k
}

/// One reported run between a query symbol and another symbol.
#[derive(Debug, Clone, Copy, PartialEq, Eq, Structural)]
pub struct PairRun {
    /// Start position of the run in the query symbol's windows.
    pub start_qpos: usize,
    /// Start position of the run in the other symbol's windows.
    pub start_spos: usize,
    /// Number of database windows in the run.
    pub len_windows: usize,
}

/// All maximal diagonal runs of at least `min_len` windows between the
/// window-hash vectors `q` and `w`, with query positions limited to
/// `[start, end]`, ordered by query position, then match position.
pub fn pair_runs(q: &Vec<u64>, w: &Vec<u64>, start: usize, end: usize, min_len: usize) -> (r: Vec<
    PairRun,
>)
    requires
        end <= usize::MAX - 1,
    ensures
        r@.len() == spec_pair_runs(q@, w@, start as int, end as int, min_len as int).len(),
        forall|k: int|
            0 <= k < r@.len() ==> (#[trigger] r@[k]).start_qpos == spec_pair_runs(
                q@,
                w@,
                start as int,
                end as int,
                min_len as int,
            )[k].0 && r@[k].start_spos == spec_pair_runs(
                q@,
                w@,
                start as int,
                end as int,
                min_len as int,
            )[k].1 && r@[k].len_windows == spec_pair_runs(
                q@,
                w@,
                start as int,
                end as int,
                min_len as int,
            )[k].2,
{
    let ghost all = spec_pair_runs(q@, w@, start as int, end as int, min_len as int);
    let mut r: Vec<PairRun> = Vec::new();
    let top = if end + 1 <= q.len() {
        end + 1
    } else {
        q.len()
    };
    if top <= start {
        proof {
            assert(all.len() == 0);
        }
        return r;
    }
    let mut i: usize = start;
    while i < top
        invariant
            start <= i <= top,
            end <= usize::MAX - 1,
            top == (if end + 1 <= q@.len() {
                end + 1
            } else {
                q@.len() as int
            }),
            all == spec_pair_runs(q@, w@, start as int, end as int, min_len as int),
            r@.len() == spec_runs_upto(
                q@,
                w@,
                start as int,
                end as int,
                min_len as int,
                i - start,
            ).len(),
            forall|k: int|
                0 <= k < r@.len() ==> (#[trigger] r@[k]).start_qpos == spec_runs_upto(
                    q@,
                    w@,
                    start as int,
                    end as int,
                    min_len as int,
                    i - start,
                )[k].0 && r@[k].start_spos == spec_runs_upto(
                    q@,
                    w@,
                    start as int,
                    end as int,
                    min_len as int,
                    i - start,
                )[k].1 && r@[k].len_windows == spec_runs_upto(
                    q@,
                    w@,
                    start as int,
                    end as int,
                    min_len as int,
                    i - start,
                )[k].2,
        decreases top - i,
    {
        let mut j: usize = 0;
        while j < w.len()
            invariant
                start <= i <= end,
                i < q@.len() || i <= end,
                end <= usize::MAX - 1,
                j <= w@.len(),
                r@.len() == spec_runs_upto(
                    q@,
                    w@,
                    start as int,
                    end as int,
                    min_len as int,
                    i - start,
                ).len() + spec_runs_row(
                    q@,
                    w@,
                    start as int,
                    end as int,
                    min_len as int,
                    i as int,
                    j as int,
                ).len(),
                forall|k: int|
                    0 <= k < r@.len() ==> (#[trigger] r@[k]).start_qpos == (spec_runs_upto(
                        q@,
                        w@,
                        start as int,
                        end as int,
                        min_len as int,
                        i - start,
                    ) + spec_runs_row(
                        q@,
                        w@,
                        start as int,
                        end as int,
                        min_len as int,
                        i as int,
                        j as int,
                    ))[k].0 && r@[k].start_spos == (spec_runs_upto(
                        q@,
                        w@,
                        start as int,
                        end as int,
                        min_len as int,
                        i - start,
                    ) + spec_runs_row(
                        q@,
                        w@,
                        start as int,
                        end as int,
                        min_len as int,
                        i as int,
                        j as int,
                    ))[k].1 && r@[k].len_windows == (spec_runs_upto(
                        q@,
                        w@,
                        start as int,
                        end as int,
                        min_len as int,
                        i - start,
                    ) + spec_runs_row(
                        q@,
                        w@,
                        start as int,
                        end as int,
                        min_len as int,
                        i as int,
                        j as int,
                    ))[k].2,
            decreases w@.len() - j,
        {
            let is_match = i < q.len() && q[i] == w[j];
            if is_match {
                let left_extends = i > start && j > 0 && q[i - 1] == w[j - 1];
                if !left_extends {
                    let len = run_len_at(q, w, end, i, j);
                    if len >= min_len {
                        r.push(PairRun { start_qpos: i, start_spos: j, len_windows: len });
                    }
                }
            }
            j = j + 1;
        }
        i = i + 1;
        proof {
            assert(spec_runs_upto(q@, w@, start as int, end as int, min_len as int, i - start)
                == spec_runs_upto(q@, w@, start as int, end as int, min_len as int, i - 1 - start)
                + spec_runs_row(
                q@,
                w@,
                start as int,
                end as int,
                min_len as int,
                i - 1,
                w@.len() as int,
            ));
        }
    }
    r
}

// ---------------------------------------------------------------------------
// Soundness and completeness of the run predicates
// ---------------------------------------------------------------------------

/// Soundness: every position of a counted run is a window match.
pub proof fn lemma_run_len_sound(q: Seq<u64>, w: Seq<u64>, i: int, j: int, fuel: nat, k: int)
    requires
        0 <= k < spec_run_len_go(q, w, i, j, fuel),
    ensures
        spec_window_match(q, w, i + k, j + k),
    decreases k,
{
    if k > 0 {
        lemma_run_len_sound(q, w, i + 1, j + 1, (fuel - 1) as nat, k - 1);
    }
}

/// A block of `c` consecutive window matches starting at `(i, j)` and
/// staying at or below `end` makes the run at `(i, j)` at least `c` long.
pub proof fn lemma_matches_give_run_len(
    q: Seq<u64>,
    w: Seq<u64>,
    end: int,
    i: int,
    j: int,
    c: int,
)
    requires
        1 <= c,
        i + c - 1 <= end,
        forall|k: int| 0 <= k < c ==> #[trigger] spec_window_match(q, w, i + k, j + k),
    ensures
        spec_run_len(q, w, end, i, j) >= c,
    decreases c,
{
    assert(spec_window_match(q, w, i + 0, j + 0));
    if c > 1 {
        assert forall|k: int| 0 <= k < c - 1 implies #[trigger] spec_window_match(
            q,
            w,
            i + 1 + k,
            j + 1 + k,
        ) by {
            assert(spec_window_match(q, w, i + (k + 1), j + (k + 1)));
        }
        lemma_matches_give_run_len(q, w, end, i + 1, j + 1, c - 1);
    }
}

/// Completeness: a block of `c` consecutive matches beginning at `(i, j)`,
/// lying inside the query range, is covered by a reported maximal run — one
/// that starts at or before `(i, j)` on the same diagonal and counts at
/// least `c` windows.
pub proof fn lemma_block_is_covered(
    q: Seq<u64>,
    w: Seq<u64>,
    start: int,
    end: int,
    i: int,
    j: int,
    c: int,
)
    requires
        1 <= c,
        start <= i,
        i + c - 1 <= end,
        forall|k: int| 0 <= k < c ==> #[trigger] spec_window_match(q, w, i + k, j + k),
    ensures
        exists|i0: int, j0: int|
            {
                &&& #[trigger] spec_run_start(q, w, start, end, i0, j0)
                &&& i0 <= i
                &&& i - i0 == j - j0
                &&& spec_run_len(q, w, end, i0, j0) >= c + i - i0
            },
    decreases i - start,
{
    if i > start && spec_window_match(q, w, i - 1, j - 1) {
        assert forall|k: int| 0 <= k < c + 1 implies #[trigger] spec_window_match(
            q,
            w,
            i - 1 + k,
            j - 1 + k,
        ) by {
            if k > 0 {
                assert(spec_window_match(q, w, i + (k - 1), j + (k - 1)));
            }
        }
        lemma_block_is_covered(q, w, start, end, i - 1, j - 1, c + 1);
        let (i0, j0) = choose|i0: int, j0: int|
            {
                &&& #[trigger] spec_run_start(q, w, start, end, i0, j0)
                &&& i0 <= i - 1
                &&& i - 1 - i0 == j - 1 - j0
                &&& spec_run_len(q, w, end, i0, j0) >= (c + 1) + (i - 1) - i0
            };
        assert(spec_run_start(q, w, start, end, i0, j0));
        assert(spec_run_len(q, w, end, i0, j0) >= c + i - i0);
    } else {
        lemma_matches_give_run_len(q, w, end, i, j, c);
        assert(spec_run_start(q, w, start, end, i, j));
    }
}

/// A run is empty or stays inside the query vector.
pub proof fn lemma_run_len_go_le(q: Seq<u64>, w: Seq<u64>, i: int, j: int, fuel: nat)
    ensures
        spec_run_len_go(q, w, i, j, fuel) == 0 || spec_run_len_go(q, w, i, j, fuel) + i <= q.len(),
    decreases fuel,
{
    if fuel > 0 && spec_window_match(q, w, i, j) {
        lemma_run_len_go_le(q, w, i + 1, j + 1, (fuel - 1) as nat);
    }
}

/// Bounds of every reported run of one pair: the query start lies in
/// `[start, end]`, the match start inside the other vector, and the length
/// between one and the query vector's length.
pub proof fn lemma_pair_runs_bounds(q: Seq<u64>, w: Seq<u64>, start: int, end: int, min_len: int)
    ensures
        forall|u: int|
            0 <= u < spec_pair_runs(q, w, start, end, min_len).len() ==> {
                let r = #[trigger] spec_pair_runs(q, w, start, end, min_len)[u];
                &&& start <= r.0 <= end
                &&& 0 <= r.1 < w.len()
                &&& 1 <= r.2 <= q.len()
            },
{
    let top = if end + 1 <= q.len() {
        end + 1
    } else {
        q.len() as int
    };
    lemma_runs_upto_bounds(q, w, start, end, min_len, top - start);
}

proof fn lemma_runs_row_bounds(q: Seq<u64>, w: Seq<u64>, start: int, end: int, min_len: int, i: int, j: int)
    ensures
        forall|u: int|
            0 <= u < spec_runs_row(q, w, start, end, min_len, i, j).len() ==> {
                let r = #[trigger] spec_runs_row(q, w, start, end, min_len, i, j)[u];
                &&& r.0 == i
                &&& start <= i <= end
                &&& 0 <= r.1 < j
                &&& 1 <= r.2 <= q.len()
            },
    decreases j,
{
    if j > 0 {
        lemma_runs_row_bounds(q, w, start, end, min_len, i, j - 1);
        let pre = spec_runs_row(q, w, start, end, min_len, i, j - 1);
        let cur = spec_runs_row(q, w, start, end, min_len, i, j);
        if spec_reported(q, w, start, end, min_len, i, j - 1) {
            lemma_run_len_go_le(q, w, i, j - 1, (end + 1 - i) as nat);
            assert(spec_window_match(q, w, i, j - 1));
            assert(spec_run_len_go(q, w, i, j - 1, (end + 1 - i) as nat) >= 1);
            assert forall|u: int| 0 <= u < cur.len() implies {
                let r = #[trigger] cur[u];
                &&& r.0 == i
                &&& start <= i <= end
                &&& 0 <= r.1 < j
                &&& 1 <= r.2 <= q.len()
            } by {
                if u < pre.len() {
                    assert(cur[u] == pre[u]);
                } else {
                    assert(cur[u] == (i, j - 1, spec_run_len(q, w, end, i, j - 1) as int));
                }
            }
        } else {
            assert(cur =~= pre);
        }
    }
}

proof fn lemma_runs_upto_bounds(q: Seq<u64>, w: Seq<u64>, start: int, end: int, min_len: int, k: int)
    ensures
        forall|u: int|
            0 <= u < spec_runs_upto(q, w, start, end, min_len, k).len() ==> {
                let r = #[trigger] spec_runs_upto(q, w, start, end, min_len, k)[u];
                &&& start <= r.0 <= end
                &&& 0 <= r.1 < w.len()
                &&& 1 <= r.2 <= q.len()
            },
    decreases k,
{
    if k > 0 {
        lemma_runs_upto_bounds(q, w, start, end, min_len, k - 1);
        lemma_runs_row_bounds(q, w, start, end, min_len, start + k - 1, w.len() as int);
        let pre = spec_runs_upto(q, w, start, end, min_len, k - 1);
        let row = spec_runs_row(q, w, start, end, min_len, start + k - 1, w.len() as int);
        let cur = spec_runs_upto(q, w, start, end, min_len, k);
        assert forall|u: int| 0 <= u < cur.len() implies {
            let r = #[trigger] cur[u];
            &&& start <= r.0 <= end
            &&& 0 <= r.1 < w.len()
            &&& 1 <= r.2 <= q.len()
        } by {
            if u < pre.len() {
                assert(cur[u] == pre[u]);
            } else {
                assert(cur[u] == row[u - pre.len()]);
            }
        }
    }
}

// ---------------------------------------------------------------------------
// From shared opcode stretches to reported runs
// ---------------------------------------------------------------------------

/// Equal opcode stretches hash to equal windows: where two opcode vectors
/// agree on `l` consecutive opcodes, their window hashes agree on the
/// `l - w + 1` aligned window positions.
pub proof fn lemma_equal_stretch_equal_windows(
    a: Seq<u16>,
    b: Seq<u16>,
    w: nat,
    i: int,
    j: int,
    l: int,
)
    requires
        1 <= w <= l,
        0 <= i,
        i + l <= a.len(),
        0 <= j,
        j + l <= b.len(),
        a.subrange(i, i + l) == b.subrange(j, j + l),
    ensures
        forall|k: int|
            0 <= k <= l - w ==> #[trigger] spec_window_hashes(a, w)[i + k] == spec_window_hashes(
                b,
                w,
            )[j + k],
{
    assert forall|k: int| 0 <= k <= l - w implies #[trigger] spec_window_hashes(a, w)[i + k]
        == spec_window_hashes(b, w)[j + k] by {
        assert(spec_padded(a, w) == a);
        assert(spec_padded(b, w) == b);
        assert(a.subrange(i + k, i + k + w) =~= a.subrange(i, i + l).subrange(k, k + w));
        assert(b.subrange(j + k, j + k + w) =~= b.subrange(j, j + l).subrange(k, k + w));
        assert(a.subrange(i + k, i + k + w) == b.subrange(j + k, j + k + w));
    }
}

/// Submatch completeness: a stretch of `l >= w` consecutive opcodes shared
/// between two symbols is covered by a maximal run of their width-`w`
/// window hashes — a reported run start on the stretch's diagonal, at or
/// before its first window, whose run counts at least the stretch's
/// `l - w + 1` windows. Soundness is [`lemma_run_len_sound`]: every counted
/// position of a reported run is a window-hash match.
pub proof fn lemma_shared_stretch_is_found(
    a: Seq<u16>,
    b: Seq<u16>,
    w: nat,
    i: int,
    j: int,
    l: int,
)
    requires
        1 <= w <= l,
        0 <= i,
        i + l <= a.len(),
        0 <= j,
        j + l <= b.len(),
        a.subrange(i, i + l) == b.subrange(j, j + l),
    ensures
        exists|i0: int, j0: int|
            {
                &&& #[trigger] spec_run_start(
                    spec_window_hashes(a, w),
                    spec_window_hashes(b, w),
                    0,
                    spec_window_hashes(a, w).len() - 1,
                    i0,
                    j0,
                )
                &&& i0 <= i
                &&& i - i0 == j - j0
                &&& spec_run_len(
                    spec_window_hashes(a, w),
                    spec_window_hashes(b, w),
                    spec_window_hashes(a, w).len() - 1,
                    i0,
                    j0,
                ) >= (l - w + 1) + (i - i0)
            },
{
    let wa = spec_window_hashes(a, w);
    let wb = spec_window_hashes(b, w);
    lemma_equal_stretch_equal_windows(a, b, w, i, j, l);
    assert(spec_padded(a, w) == a);
    assert(spec_padded(b, w) == b);
    assert(wa.len() == a.len() - w + 1);
    assert(wb.len() == b.len() - w + 1);
    let c = l - w + 1;
    assert forall|k: int| 0 <= k < c implies #[trigger] spec_window_match(wa, wb, i + k, j + k) by {
        assert(spec_window_hashes(a, w)[i + k] == spec_window_hashes(b, w)[j + k]);
    }
    lemma_block_is_covered(wa, wb, 0, wa.len() - 1, i, j, c);
}

} // verus!

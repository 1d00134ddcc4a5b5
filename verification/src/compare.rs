//! In-memory comparison of symbols: bounded edit distance with a normalized
//! similarity score, and grouping of matching window hashes into runs.

use crate::symbol::Symbol;
use crate::text::bytes_eq;
use vstd::prelude::*;

verus! {

// ---------------------------------------------------------------------------
// Levenshtein distance
// ---------------------------------------------------------------------------

/// The least of three naturals.
pub open spec fn spec_min3(a: nat, b: nat, c: nat) -> nat {
    if a <= b && a <= c {
        a
    } else if b <= c {
        b
    } else {
        c
    }
}

/// Levenshtein edit distance between two byte strings: the least number of
/// insertions, deletions and substitutions turning one into the other.
pub open spec fn spec_lev(s: Seq<u8>, t: Seq<u8>) -> nat
    decreases s.len(), t.len(),
{
    if s.len() == 0 {
        t.len()
    } else if t.len() == 0 {
        s.len()
    } else {
        let sub_cost: nat = if s.last() == t.last() {
            0nat
        } else {
            1nat
        };
        spec_min3(
            spec_lev(s.drop_last(), t) + 1,
            spec_lev(s, t.drop_last()) + 1,
            spec_lev(s.drop_last(), t.drop_last()) + sub_cost,
        )
    }
}

/// A string is at distance zero from itself.
pub proof fn lemma_lev_self(s: Seq<u8>)
    ensures
        spec_lev(s, s) == 0,
    decreases s.len(),
{
    if s.len() > 0 {
        lemma_lev_self(s.drop_last());
    }
}

/// Relies on editdistancek's `edit_distance_bounded`: it returns `Some(d)`
/// with the Levenshtein distance `d` whenever that distance is at most `k`,
/// and `None` otherwise. The length bounds keep the library's internal
/// band allocation of `2k + 3` cells well inside `usize`.
#[verifier::external_body]
fn edit_distance_bounded(s: &[u8], t: &[u8], k: usize) -> (r: Option<usize>)
    requires
        s@.len() <= 0x1000_0000,
        t@.len() <= 0x1000_0000,
        k <= s@.len() + t@.len(),
    ensures
        r matches Some(d) ==> d == spec_lev(s@, t@) && d <= k,
        r is None ==> spec_lev(s@, t@) > k,
{
    editdistancek::edit_distance_bounded(s, t, k)
}

// ---------------------------------------------------------------------------
// Similarity
// ---------------------------------------------------------------------------

/// An exact non-negative fraction, used for thresholds and scores.
#[derive(Debug, Clone, Copy, PartialEq, Eq, Structural)]
pub struct Ratio {
    /// Numerator.
    pub num: u64,
    /// Denominator; never zero.
    pub den: u64,
}

/// A fraction standing for a value in `[0, 1]`.
pub open spec fn spec_ratio_wf(r: Ratio) -> bool {
    1 <= r.den && r.num <= r.den
}

/// Each opcode id serialized into two big-endian bytes, the form handed to
/// the distance computation.
pub open spec fn spec_be_bytes(ops: Seq<u16>) -> Seq<u8> {
    Seq::new(
        (2 * ops.len()) as nat,
        |i: int|
            if i % 2 == 0 {
                (ops[i / 2] >> 8) as u8
            } else {
                (ops[i / 2] & 0xFF) as u8
            },
    )
}

/// Serialize opcode ids into big-endian byte pairs.
pub fn be_bytes(ops: &Vec<u16>) -> (r: Vec<u8>)
    requires
        2 * ops@.len() <= usize::MAX,
    ensures
        r@ == spec_be_bytes(ops@),
{
    let mut r: Vec<u8> = Vec::new();
    let mut i: usize = 0;
    while i < ops.len()
        invariant
            i <= ops@.len(),
            2 * ops@.len() <= usize::MAX,
            r@ =~= spec_be_bytes(ops@).subrange(0, 2 * i as int),
        decreases ops@.len() - i,
    {
        let x = ops[i];
        r.push((x >> 8u16) as u8);
        r.push((x & 0xFF) as u8);
        i = i + 1;
        proof {
            assert(r@ =~= spec_be_bytes(ops@).subrange(0, 2 * i as int));
        }
    }
    proof {
        assert(r@ =~= spec_be_bytes(ops@));
    }
    r
}

/// The similarity verdict between two opcode vectors under a threshold
/// `tn / td`, with `same_bytes` telling whether the symbols' bytes agree.
///
/// With `m = l1 + l2` the maximum edit distance: a length difference that
/// already makes the threshold unreachable scores zero; a distance above
/// the bound `m * (td - tn) / td` scores zero; otherwise the score is
/// `(m - d) / m`, clamped to `9999 / 10000` when it would be perfect while
/// the bytes differ.
pub open spec fn spec_similarity(
    ops1: Seq<u16>,
    ops2: Seq<u16>,
    same_bytes: bool,
    tn: int,
    td: int,
) -> Ratio
    recommends
        1 <= td,
        0 <= tn <= td,
{
    let l1 = ops1.len() as int;
    let l2 = ops2.len() as int;
    let m = l1 + l2;
    if m == 0 {
        Ratio { num: 0, den: 1 }
    } else if (if l1 >= l2 {
        l1 - l2
    } else {
        l2 - l1
    }) * td > m * (td - tn) {
        Ratio { num: 0, den: 1 }
    } else {
        let bound = m * (td - tn) / td;
        let d = spec_lev(spec_be_bytes(ops1), spec_be_bytes(ops2)) as int;
        if d > bound {
            Ratio { num: 0, den: 1 }
        } else if d == 0 && !same_bytes {
            Ratio { num: 9999, den: 10000 }
        } else {
            Ratio { num: (m - d) as u64, den: m as u64 }
        }
    }
}

/// Score the similarity of two symbols' opcode vectors, normalized into
/// `[0, 1]` and reported as an exact fraction.
pub fn diff_symbols(sym1: &Symbol, sym2: &Symbol, threshold: Ratio) -> (r: Ratio)
    requires
        spec_ratio_wf(threshold),
        threshold.den <= 1_000_000,
        sym1.opcodes@.len() <= 0x0400_0000,
        sym2.opcodes@.len() <= 0x0400_0000,
    ensures
        r == spec_similarity(
            sym1.opcodes@,
            sym2.opcodes@,
            sym1.bytes@ == sym2.bytes@,
            threshold.num as int,
            threshold.den as int,
        ),
{
    let l1 = sym1.opcodes.len();
    let l2 = sym2.opcodes.len();
    let m = l1 + l2;
    if m == 0 {
        return Ratio { num: 0, den: 1 };
    }
    let tn = threshold.num;
    let td = threshold.den;
    let diff: u64 = if l1 >= l2 {
        (l1 - l2) as u64
    } else {
        (l2 - l1) as u64
    };
    let slack: u64 = td - tn;
    let m64: u64 = m as u64;
    proof {
        assert(diff * td < 0x8000_0000_0000_0000) by (nonlinear_arith)
            requires
                diff <= 0x0800_0000,
                td <= 1_000_000,
        ;
        assert(m64 * slack < 0x8000_0000_0000_0000) by (nonlinear_arith)
            requires
                m64 <= 0x0800_0000,
                slack <= 1_000_000,
        ;
    }
    if diff * td > m64 * slack {
        return Ratio { num: 0, den: 1 };
    }
    let bound64: u64 = m64 * slack / td;
    proof {
        assert(bound64 <= m64) by (nonlinear_arith)
            requires
                bound64 == (m64 * slack) as int / (td as int),
                1 <= td,
                slack <= td,
                0 < m64,
        ;
    }
    let bound = bound64 as usize;
    let b1 = be_bytes(&sym1.opcodes);
    let b2 = be_bytes(&sym2.opcodes);
    let same = bytes_eq(sym1.bytes.as_slice(), sym2.bytes.as_slice());
    match edit_distance_bounded(b1.as_slice(), b2.as_slice(), bound) {
        Some(d) => {
            if d == 0 && !same {
                Ratio { num: 9999, den: 10000 }
            } else {
                Ratio { num: (m - d) as u64, den: m as u64 }
            }
        },
        None => Ratio { num: 0, den: 1 },
    }
}

/// Similarity scores are fractions in `[0, 1]`.
pub proof fn lemma_similarity_bounds(
    ops1: Seq<u16>,
    ops2: Seq<u16>,
    same_bytes: bool,
    tn: int,
    td: int,
)
    requires
        1 <= td,
        0 <= tn <= td,
        ops1.len() + ops2.len() <= u64::MAX,
    ensures
        spec_ratio_wf(spec_similarity(ops1, ops2, same_bytes, tn, td)),
{
    let l1 = ops1.len() as int;
    let l2 = ops2.len() as int;
    let m = l1 + l2;
    if m != 0 {
        assert(m * (td - tn) / td <= m) by (nonlinear_arith)
            requires
                1 <= td,
                0 <= tn <= td,
                0 < m,
        ;
    }
}

/// A symbol with at least one decoded instruction scores a perfect `1`
/// against itself, whatever the threshold.
pub proof fn lemma_similarity_self(a: Symbol, tn: int, td: int)
    requires
        1 <= td,
        0 <= tn <= td,
        a.opcodes@.len() > 0,
    ensures
        spec_similarity(a.opcodes@, a.opcodes@, true, tn, td).num == spec_similarity(
            a.opcodes@,
            a.opcodes@,
            true,
            tn,
            td,
        ).den,
{
    let m = 2 * a.opcodes@.len() as int;
    lemma_lev_self(spec_be_bytes(a.opcodes@));
    assert(0 * td <= m * (td - tn)) by (nonlinear_arith)
        requires
            0 <= tn <= td,
            0 < m,
    ;
    assert(m * (td - tn) / td >= 0) by (nonlinear_arith)
        requires
            1 <= td,
            0 <= tn <= td,
            0 < m,
    ;
}

/// A perfect score is only ever reported for byte-identical symbols: any
/// pair with differing bytes is clamped strictly below `1`.
pub proof fn lemma_perfect_score_means_equal_bytes(
    ops1: Seq<u16>,
    ops2: Seq<u16>,
    same_bytes: bool,
    tn: int,
    td: int,
)
    requires
        1 <= td,
        0 <= tn <= td,
        ops1.len() + ops2.len() <= u64::MAX,
        spec_similarity(ops1, ops2, same_bytes, tn, td).num == spec_similarity(
            ops1,
            ops2,
            same_bytes,
            tn,
            td,
        ).den,
    ensures
        same_bytes || ops1.len() + ops2.len() == 0,
{
    let l1 = ops1.len() as int;
    let l2 = ops2.len() as int;
    let m = l1 + l2;
    if m != 0 && !same_bytes {
        let d = spec_lev(spec_be_bytes(ops1), spec_be_bytes(ops2)) as int;
        let bound = m * (td - tn) / td;
        assert(bound <= m) by (nonlinear_arith)
            requires
                1 <= td,
                0 <= tn <= td,
                0 < m,
                bound == m * (td - tn) / td,
        ;
        if (if l1 >= l2 {
            l1 - l2
        } else {
            l2 - l1
        }) * td <= m * (td - tn) && d <= bound && d != 0 {
            assert(spec_similarity(ops1, ops2, same_bytes, tn, td) == (Ratio {
                num: (m - d) as u64,
                den: m as u64,
            }));
            assert(((m - d) as u64) < (m as u64));
            assert(false);
        }
    }
}

/// Whether a score clears the threshold: `score > t`, compared exactly.
pub open spec fn spec_ratio_gt(score: Ratio, t: Ratio) -> bool {
    score.num * t.den > t.num * score.den
}

/// Whether a score clears the threshold, computed exactly by
/// cross-multiplication.
pub fn ratio_gt(score: Ratio, t: Ratio) -> (r: bool)
    requires
        score.num <= 0x1000_0000,
        score.den <= 0x1000_0000,
        t.num <= 0x1000_0000,
        t.den <= 0x1000_0000,
    ensures
        r == spec_ratio_gt(score, t),
{
    proof {
        assert(score.num * t.den < 0x8000_0000_0000_0000) by (nonlinear_arith)
            requires
                score.num <= 0x1000_0000,
                t.den <= 0x1000_0000,
        ;
        assert(t.num * score.den < 0x8000_0000_0000_0000) by (nonlinear_arith)
            requires
                t.num <= 0x1000_0000,
                score.den <= 0x1000_0000,
        ;
    }
    score.num * t.den > t.num * score.den
}

/// The score of symbol `a` against symbol `b` under threshold `t`.
pub open spec fn spec_pair_score(a: Symbol, b: Symbol, t: Ratio) -> Ratio {
    spec_similarity(a.opcodes@, b.opcodes@, a.bytes@ == b.bytes@, t.num as int, t.den as int)
}

/// The best match for `a` among the first `n` symbols of `bs`: the first
/// index reaching the maximal score, with that score.
pub open spec fn spec_best_fold(a: Symbol, bs: Seq<Symbol>, t: Ratio, n: int) -> (int, Ratio)
    decreases n,
{
    if n <= 0 {
        (-1int, Ratio { num: 0, den: 1 })
    } else {
        let pre = spec_best_fold(a, bs, t, n - 1);
        let sc = spec_pair_score(a, bs[n - 1], t);
        if pre.0 < 0 || spec_ratio_gt(sc, pre.1) {
            (n - 1, sc)
        } else {
            pre
        }
    }
}

/// The best match for symbol `a` among `bs`: the first symbol reaching the
/// maximal similarity score, together with that score; `None` only when
/// `bs` is empty.
pub fn best_match(a: &Symbol, bs: &Vec<Symbol>, threshold: Ratio) -> (r: Option<(usize, Ratio)>)
    requires
        spec_ratio_wf(threshold),
        threshold.den <= 1_000_000,
        a.opcodes@.len() <= 0x0400_0000,
        forall|k: int| 0 <= k < bs@.len() ==> (#[trigger] bs@[k]).opcodes@.len() <= 0x0400_0000,
    ensures
        r is None <==> bs@.len() == 0,
        r matches Some(p) ==> p.0 == spec_best_fold(*a, bs@, threshold, bs@.len() as int).0 && p.1
            == spec_best_fold(*a, bs@, threshold, bs@.len() as int).1,
{
    if bs.len() == 0 {
        return None;
    }
    let mut best_i: usize = 0;
    let mut best: Ratio = diff_symbols(a, &bs[0], threshold);
    proof {
        lemma_similarity_bounds(
            a.opcodes@,
            bs@[0].opcodes@,
            a.bytes@ == bs@[0].bytes@,
            threshold.num as int,
            threshold.den as int,
        );
    }
    proof {
        assert(spec_best_fold(*a, bs@, threshold, 0) == (-1int, Ratio { num: 0, den: 1 }));
        assert(spec_best_fold(*a, bs@, threshold, 1).0 == 0);
        assert(spec_best_fold(*a, bs@, threshold, 1).1 == spec_pair_score(*a, bs@[0], threshold));
    }
    let mut k: usize = 1;
    while k < bs.len()
        invariant
            1 <= k <= bs@.len(),
            best_i < k,
            spec_ratio_wf(threshold),
            threshold.den <= 1_000_000,
            a.opcodes@.len() <= 0x0400_0000,
            forall|t: int| 0 <= t < bs@.len() ==> (#[trigger] bs@[t]).opcodes@.len() <= 0x0400_0000,
            spec_ratio_wf(best),
            best.den <= 0x0800_0000 || best == (Ratio { num: 9999, den: 10000 }),
            spec_best_fold(*a, bs@, threshold, k as int).0 == best_i,
            spec_best_fold(*a, bs@, threshold, k as int).1 == best,
        decreases bs@.len() - k,
    {
        let sc = diff_symbols(a, &bs[k], threshold);
        proof {
            lemma_similarity_bounds(
                a.opcodes@,
                bs@[k as int].opcodes@,
                a.bytes@ == bs@[k as int].bytes@,
                threshold.num as int,
                threshold.den as int,
            );
        }
        if ratio_gt(sc, best) {
            best_i = k;
            best = sc;
        }
        k = k + 1;
    }
    Some((best_i, best))
}

/// The best-match report of two symbol lists: one triple per symbol of `a`
/// with at least `min_len` opcodes, naming the first best-scoring symbol
/// of `b` and the score.
pub open spec fn spec_compare_fold(
    a: Seq<Symbol>,
    b: Seq<Symbol>,
    t: Ratio,
    min_len: int,
    n: int,
) -> Seq<(int, int, Ratio)>
    decreases n,
{
    if n <= 0 {
        Seq::empty()
    } else {
        let pre = spec_compare_fold(a, b, t, min_len, n - 1);
        if a[n - 1].opcodes@.len() >= min_len && b.len() > 0 {
            pre.push(
                (
                    n - 1,
                    spec_best_fold(a[n - 1], b, t, b.len() as int).0,
                    spec_best_fold(a[n - 1], b, t, b.len() as int).1,
                ),
            )
        } else {
            pre
        }
    }
}

/// Compare two symbol lists element by element: every symbol of `a` long
/// enough to be worth scoring is paired with its best match in `b`,
/// reported as `(index in a, index in b, score)`.
pub fn compare_binaries(
    a: &Vec<Symbol>,
    b: &Vec<Symbol>,
    threshold: Ratio,
    min_len: usize,
) -> (r: Vec<(usize, usize, Ratio)>)
    requires
        spec_ratio_wf(threshold),
        threshold.den <= 1_000_000,
        forall|k: int| 0 <= k < a@.len() ==> (#[trigger] a@[k]).opcodes@.len() <= 0x0400_0000,
        forall|k: int| 0 <= k < b@.len() ==> (#[trigger] b@[k]).opcodes@.len() <= 0x0400_0000,
    ensures
        r@.len() == spec_compare_fold(a@, b@, threshold, min_len as int, a@.len() as int).len(),
        forall|k: int|
            0 <= k < r@.len() ==> (#[trigger] r@[k]).0 == spec_compare_fold(
                a@,
                b@,
                threshold,
                min_len as int,
                a@.len() as int,
            )[k].0 && r@[k].1 == spec_compare_fold(
                a@,
                b@,
                threshold,
                min_len as int,
                a@.len() as int,
            )[k].1 && r@[k].2 == spec_compare_fold(
                a@,
                b@,
                threshold,
                min_len as int,
                a@.len() as int,
            )[k].2,
{
    let mut r: Vec<(usize, usize, Ratio)> = Vec::new();
    let mut i: usize = 0;
    while i < a.len()
        invariant
            i <= a@.len(),
            spec_ratio_wf(threshold),
            threshold.den <= 1_000_000,
            forall|k: int| 0 <= k < a@.len() ==> (#[trigger] a@[k]).opcodes@.len() <= 0x0400_0000,
            forall|k: int| 0 <= k < b@.len() ==> (#[trigger] b@[k]).opcodes@.len() <= 0x0400_0000,
            r@.len() == spec_compare_fold(a@, b@, threshold, min_len as int, i as int).len(),
            forall|k: int|
                0 <= k < r@.len() ==> (#[trigger] r@[k]).0 == spec_compare_fold(
                    a@,
                    b@,
                    threshold,
                    min_len as int,
                    i as int,
                )[k].0 && r@[k].1 == spec_compare_fold(
                    a@,
                    b@,
                    threshold,
                    min_len as int,
                    i as int,
                )[k].1 && r@[k].2 == spec_compare_fold(
                    a@,
                    b@,
                    threshold,
                    min_len as int,
                    i as int,
                )[k].2,
        decreases a@.len() - i,
    {
        if a[i].opcodes.len() >= min_len {
            match best_match(&a[i], b, threshold) {
                Some(p) => {
                    r.push((i, p.0, p.1));
                },
                None => {
                },
            }
        }
        i = i + 1;
    }
    r
}

// ---------------------------------------------------------------------------
// Window-hash submatches
// ---------------------------------------------------------------------------

/// A run of matching windows between two symbols: `length` window hashes in
/// a row, starting at `offset1` in the first symbol and `offset2` in the
/// second.
#[derive(Debug, Clone, Copy, PartialEq, Eq, Structural)]
pub struct InsnSeqMatch {
    /// Start position in the first symbol.
    pub offset1: usize,
    /// Start position in the second symbol.
    pub offset2: usize,
    /// Reported length of the match.
    pub length: usize,
}

/// First index of `h` in `hs`, or `hs.len()` when absent.
pub open spec fn spec_first_pos(hs: Seq<u64>, h: u64) -> int
    decreases hs.len(),
{
    if hs.len() == 0 {
        0
    } else if hs[0] == h {
        0
    } else {
        1 + spec_first_pos(hs.drop_first(), h)
    }
}

/// The match points of the first `n` windows of `hashes_1`: each window
/// whose hash occurs in `hashes_2`, paired with that hash's first position
/// there.
pub open spec fn spec_match_points(hashes_1: Seq<u64>, hashes_2: Seq<u64>, n: int) -> Seq<
    (int, int),
>
    decreases n,
{
    if n <= 0 {
        Seq::empty()
    } else {
        let pre = spec_match_points(hashes_1, hashes_2, n - 1);
        let p = spec_first_pos(hashes_2, hashes_1[n - 1]);
        if p < hashes_2.len() {
            pre.push((n - 1, p))
        } else {
            pre
        }
    }
}

/// Group the first `n` match points into runs of consecutive first-symbol
/// positions: the groups so far as `(offset1, offset2, size)`, and the
/// position that would extend the last one.
pub open spec fn spec_group_fold(ps: Seq<(int, int)>, n: int) -> (Seq<(int, int, int)>, int)
    decreases n,
{
    if n <= 0 {
        (Seq::empty(), -2)
    } else {
        let (gs, cur) = spec_group_fold(ps, n - 1);
        let p = ps[n - 1];
        if gs.len() > 0 && p.0 == cur + 1 {
            let last = gs[gs.len() - 1];
            (gs.update(gs.len() - 1, (last.0, last.1, last.2 + 1)), p.0)
        } else {
            (gs.push((p.0, p.1, 1int)), p.0)
        }
    }
}

/// The grouped submatches of two window-hash lists.
pub open spec fn spec_submatch_groups(hashes_1: Seq<u64>, hashes_2: Seq<u64>) -> Seq<
    (int, int, int),
> {
    spec_group_fold(
        spec_match_points(hashes_1, hashes_2, hashes_1.len() as int),
        spec_match_points(hashes_1, hashes_2, hashes_1.len() as int).len() as int,
    ).0
}

/// First index of `h` in `hs`, or `hs.len()` when absent.
fn first_pos(hs: &Vec<u64>, h: u64) -> (r: usize)
    ensures
        r == spec_first_pos(hs@, h),
        r <= hs@.len(),
{
    proof {
        assert(hs@.skip(0) =~= hs@);
    }
    let mut i: usize = 0;
    while i < hs.len()
        invariant
            i <= hs@.len(),
            spec_first_pos(hs@, h) == i + spec_first_pos(hs@.skip(i as int), h),
        decreases hs@.len() - i,
    {
        if hs[i] == h {
            proof {
                assert(hs@.skip(i as int)[0] == hs@[i as int]);
            }
            return i;
        }
        proof {
            assert(hs@.skip(i as int).drop_first() =~= hs@.skip(i + 1));
        }
        i = i + 1;
    }
    proof {
        assert(hs@.skip(hs@.len() as int).len() == 0);
    }
    i
}

/// `spec_first_pos` never goes negative and stays within the list plus one.
proof fn lemma_first_pos_range(hs: Seq<u64>, h: u64)
    ensures
        0 <= spec_first_pos(hs, h) <= hs.len(),
    decreases hs.len(),
{
    if hs.len() > 0 && hs[0] != h {
        lemma_first_pos_range(hs.drop_first(), h);
    }
}

/// Group the windows of `hashes_1` whose hashes occur in `hashes_2` into
/// runs of consecutive positions.
///
/// Each reported match gives the run's start in both lists — the position
/// in `hashes_2` is the first occurrence of the run's first hash — and its
/// length in instructions: the run's window count plus the window width
/// minus one, so that a run of `c` matching windows of width `w` spans
/// `c + w - 1` instructions.
///
/// This is the coarse in-memory triage: runs are grouped by consecutive
/// query positions alone, without holding the match positions to one
/// diagonal. The windowed store query implements the exact diagonal-run
/// semantics; see [`crate::submatch::pair_runs`].
pub fn get_submatches(hashes_1: &Vec<u64>, hashes_2: &Vec<u64>, window_size: usize) -> (r: Vec<
    InsnSeqMatch,
>)
    requires
        1 <= window_size,
        hashes_1@.len() + window_size < usize::MAX,
    ensures
        r@.len() == spec_submatch_groups(hashes_1@, hashes_2@).len(),
        forall|k: int|
            0 <= k < r@.len() ==> #[trigger] r@[k].offset1 == spec_submatch_groups(
                hashes_1@,
                hashes_2@,
            )[k].0 && r@[k].offset2 == spec_submatch_groups(hashes_1@, hashes_2@)[k].1
                && r@[k].length == spec_submatch_groups(hashes_1@, hashes_2@)[k].2 + window_size
                - 1,
{
    let ghost all_points = spec_match_points(hashes_1@, hashes_2@, hashes_1@.len() as int);
    let mut points: Vec<(usize, usize)> = Vec::new();
    let mut i: usize = 0;
    while i < hashes_1.len()
        invariant
            i <= hashes_1@.len(),
            all_points == spec_match_points(hashes_1@, hashes_2@, hashes_1@.len() as int),
            points@.len() <= i,
            points@.len() == spec_match_points(hashes_1@, hashes_2@, i as int).len(),
            forall|k: int|
                0 <= k < points@.len() ==> (#[trigger] points@[k]).0 == spec_match_points(
                    hashes_1@,
                    hashes_2@,
                    i as int,
                )[k].0 && points@[k].1 == spec_match_points(hashes_1@, hashes_2@, i as int)[k].1
                    && points@[k].0 < hashes_1@.len(),
        decreases hashes_1@.len() - i,
    {
        let p = first_pos(hashes_2, hashes_1[i]);
        if p < hashes_2.len() {
            points.push((i, p));
        }
        i = i + 1;
    }
    proof {
        assert(points@.len() == all_points.len());
    }
    let mut r: Vec<InsnSeqMatch> = Vec::new();
    let mut j: usize = 0;
    while j < points.len()
        invariant
            j <= points@.len(),
            1 <= window_size,
            hashes_1@.len() + window_size < usize::MAX,
            points@.len() <= hashes_1@.len(),
            all_points == spec_match_points(hashes_1@, hashes_2@, hashes_1@.len() as int),
            points@.len() == all_points.len(),
            forall|k: int|
                0 <= k < points@.len() ==> (#[trigger] points@[k]).0 == all_points[k].0
                    && points@[k].1 == all_points[k].1 && points@[k].0 < hashes_1@.len(),
            r@.len() == spec_group_fold(all_points, j as int).0.len(),
            r@.len() <= j,
            forall|k: int|
                0 <= k < r@.len() ==> (#[trigger] r@[k]).offset1 == spec_group_fold(
                    all_points,
                    j as int,
                ).0[k].0 && r@[k].offset2 == spec_group_fold(all_points, j as int).0[k].1
                    && r@[k].length == spec_group_fold(all_points, j as int).0[k].2 + window_size
                    - 1 && 1 <= spec_group_fold(all_points, j as int).0[k].2 <= j,
            j > 0 ==> spec_group_fold(all_points, j as int).1 == all_points[j - 1].0,
            j == 0 ==> spec_group_fold(all_points, j as int).1 == -2,
        decreases points@.len() - j,
    {
        let (o1, o2) = points[j];
        let ghost pre = spec_group_fold(all_points, j as int);
        let ghost pre_r = r@;
        let extend = j > 0 && r.len() > 0 && o1 == points[j - 1].0 + 1;
        if extend {
            let last = r.pop();
            match last {
                Some(g) => {
                    r.push(
                        InsnSeqMatch {
                            offset1: g.offset1,
                            offset2: g.offset2,
                            length: g.length + 1,
                        },
                    );
                },
                None => {
                },
            }
        } else {
            r.push(InsnSeqMatch { offset1: o1, offset2: o2, length: window_size });
        }
        j = j + 1;
        proof {
            let post = spec_group_fold(all_points, j as int);
            assert(post == spec_group_fold(all_points, (j - 1) + 1));
            assert forall|k: int|
                0 <= k < r@.len() implies (#[trigger] r@[k]).offset1 == post.0[k].0
                && r@[k].offset2 == post.0[k].1 && r@[k].length == post.0[k].2 + window_size - 1
                && 1 <= post.0[k].2 <= j by {
                if k < r@.len() - 1 {
                    assert(r@[k] == pre_r[k]);
                    assert(post.0[k] == pre.0[k]);
                }
            }
        }
    }
    proof {
        assert(j == all_points.len());
    }
    r
}

} // verus!

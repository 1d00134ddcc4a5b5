//! One-pass greedy clustering of in-memory symbols by pairwise similarity.
//!
//! Symbols are visited in input order; each one long enough joins the first
//! existing cluster whose representative — the cluster's first symbol —
//! scores above the threshold against it, and starts a new cluster
//! otherwise. The pass is deliberately order-dependent: it is a fast
//! triage, not an exhaustive partition. The clusters are finally ordered
//! by size, largest first.

use crate::compare::{diff_symbols, ratio_gt, spec_ratio_gt, spec_ratio_wf, spec_similarity,
    Ratio};
use crate::symbol::Symbol;
use vstd::multiset::Multiset;
use vstd::prelude::*;

verus! {

/// A cluster of similar symbols, by index into the input list.
pub struct Cluster {
    /// Indices of the cluster's symbols; the first is the representative.
    pub syms: Vec<usize>,
}

impl Cluster {
    /// Number of symbols in the cluster.
    pub fn size(&self) -> (r: usize)
        ensures
            r == self.syms@.len(),
    {
        self.syms.len()
    }
}

/// The index models of a cluster list.
pub open spec fn spec_models(s: Seq<Cluster>) -> Seq<Seq<usize>> {
    s.map_values(|c: Cluster| c.syms@)
}

/// The similarity of candidate `s` against the representative of a cluster
/// whose first member is `rep`.
pub open spec fn spec_rep_score(syms: Seq<Symbol>, s: int, rep: int, t: Ratio) -> Ratio {
    spec_similarity(
        syms[s].opcodes@,
        syms[rep].opcodes@,
        syms[s].bytes@ == syms[rep].bytes@,
        t.num as int,
        t.den as int,
    )
}

/// The first cluster the candidate joins: the least index whose
/// representative scores above the threshold, or the cluster count when
/// none does.
pub open spec fn spec_first_fit(clusters: Seq<Seq<usize>>, syms: Seq<Symbol>, s: int, t: Ratio) -> int
    decreases clusters.len(),
{
    if clusters.len() == 0 {
        0
    } else if clusters[0].len() > 0 && spec_ratio_gt(
        spec_rep_score(syms, s, clusters[0][0] as int, t),
        t,
    ) {
        0
    } else {
        1 + spec_first_fit(clusters.drop_first(), syms, s, t)
    }
}

/// The greedy pass over the first `n` symbols: each symbol with at least
/// `min_len` opcodes joins its first fitting cluster or founds a new one.
pub open spec fn spec_cluster_fold(
    syms: Seq<Symbol>,
    t: Ratio,
    min_len: int,
    n: int,
) -> Seq<Seq<usize>>
    decreases n,
{
    if n <= 0 {
        Seq::empty()
    } else {
        let pre = spec_cluster_fold(syms, t, min_len, n - 1);
        if syms[n - 1].opcodes@.len() >= min_len {
            let j = spec_first_fit(pre, syms, n - 1, t);
            if j < pre.len() {
                pre.update(j, pre[j].push((n - 1) as usize))
            } else {
                pre.push(seq![(n - 1) as usize])
            }
        } else {
            pre
        }
    }
}

/// Whether a cluster list is ordered by size, largest first.
pub open spec fn spec_sizes_sorted(s: Seq<Cluster>) -> bool {
    forall|i: int, j: int|
        0 <= i < j < s.len() ==> (#[trigger] s[i]).syms@.len() >= (#[trigger] s[j]).syms@.len()
}

/// The first fitting cluster for candidate `i`, or the cluster count.
fn first_fit(clusters: &Vec<Cluster>, symbols: &Vec<Symbol>, i: usize, threshold: Ratio) -> (j:
    usize)
    requires
        i < symbols@.len(),
        spec_ratio_wf(threshold),
        threshold.den <= 1_000_000,
        forall|k: int|
            0 <= k < symbols@.len() ==> (#[trigger] symbols@[k]).opcodes@.len() <= 0x0400_0000,
        forall|k: int| 0 <= k < clusters@.len() ==> (#[trigger] clusters@[k]).syms@.len() > 0,
        forall|k: int, u: int|
            0 <= k < clusters@.len() && 0 <= u < (#[trigger] clusters@[k]).syms@.len()
                ==> (#[trigger] clusters@[k].syms@[u]) < symbols@.len(),
    ensures
        j == spec_first_fit(spec_models(clusters@), symbols@, i as int, threshold),
        j <= clusters@.len(),
{
    let ghost pre = spec_models(clusters@);
    proof {
        assert(pre.skip(0) =~= pre);
    }
    let mut j: usize = 0;
    while j < clusters.len()
        invariant
            j <= clusters@.len(),
            i < symbols@.len(),
            spec_ratio_wf(threshold),
            threshold.den <= 1_000_000,
            forall|k: int|
                0 <= k < symbols@.len() ==> (#[trigger] symbols@[k]).opcodes@.len() <= 0x0400_0000,
            pre == spec_models(clusters@),
            forall|k: int| 0 <= k < clusters@.len() ==> (#[trigger] clusters@[k]).syms@.len() > 0,
            forall|k: int, u: int|
                0 <= k < clusters@.len() && 0 <= u < (#[trigger] clusters@[k]).syms@.len()
                    ==> (#[trigger] clusters@[k].syms@[u]) < symbols@.len(),
            spec_first_fit(pre, symbols@, i as int, threshold) == j + spec_first_fit(
                pre.skip(j as int),
                symbols@,
                i as int,
                threshold,
            ),
        decreases clusters@.len() - j,
    {
        let rep = clusters[j].syms[0];
        let score = diff_symbols(&symbols[i], &symbols[rep], threshold);
        proof {
            assert(pre.skip(j as int)[0] == pre[j as int]);
            assert(pre[j as int] == clusters@[j as int].syms@);
            crate::compare::lemma_similarity_bounds(
                symbols@[i as int].opcodes@,
                symbols@[rep as int].opcodes@,
                symbols@[i as int].bytes@ == symbols@[rep as int].bytes@,
                threshold.num as int,
                threshold.den as int,
            );
        }
        if ratio_gt(score, threshold) {
            return j;
        }
        proof {
            assert(pre.skip(j as int).drop_first() =~= pre.skip(j + 1));
        }
        j = j + 1;
    }
    proof {
        assert(pre.skip(pre.len() as int).len() == 0);
    }
    j
}

/// Group symbols into similarity clusters: a one-pass greedy assignment in
/// input order, the result ordered by cluster size, largest first.
///
/// The returned clusters are, as index sets, a reordering of the greedy
/// pass's clusters; within each cluster the member order of the pass is
/// kept, the representative first.
pub fn get_clusters(symbols: &Vec<Symbol>, threshold: Ratio, min_len: usize) -> (r: Vec<Cluster>)
    requires
        spec_ratio_wf(threshold),
        threshold.den <= 1_000_000,
        forall|k: int|
            0 <= k < symbols@.len() ==> (#[trigger] symbols@[k]).opcodes@.len() <= 0x0400_0000,
    ensures
        spec_models(r@).to_multiset() == spec_cluster_fold(
            symbols@,
            threshold,
            min_len as int,
            symbols@.len() as int,
        ).to_multiset(),
        spec_sizes_sorted(r@),
{
    broadcast use vstd::seq_lib::group_to_multiset_ensures;

    let mut clusters: Vec<Cluster> = Vec::new();
    let mut i: usize = 0;
    while i < symbols.len()
        invariant
            i <= symbols@.len(),
            spec_ratio_wf(threshold),
            threshold.den <= 1_000_000,
            forall|k: int|
                0 <= k < symbols@.len() ==> (#[trigger] symbols@[k]).opcodes@.len() <= 0x0400_0000,
            spec_models(clusters@) == spec_cluster_fold(
                symbols@,
                threshold,
                min_len as int,
                i as int,
            ),
            forall|k: int|
                0 <= k < clusters@.len() ==> (#[trigger] clusters@[k]).syms@.len() > 0,
            forall|k: int, u: int|
                0 <= k < clusters@.len() && 0 <= u < (#[trigger] clusters@[k]).syms@.len()
                    ==> (#[trigger] clusters@[k].syms@[u]) < symbols@.len(),
        decreases symbols@.len() - i,
    {
        let ghost pre = spec_models(clusters@);
        if symbols[i].opcodes.len() >= min_len {
            let j = first_fit(&clusters, symbols, i, threshold);
            if j < clusters.len() {
                let mut c = clusters.remove(j);
                c.syms.push(i);
                clusters.insert(j, c);
                proof {
                    assert(spec_models(clusters@) =~= pre.update(j as int, pre[j as int].push(i)));
                    assert(spec_models(clusters@) == spec_cluster_fold(
                        symbols@,
                        threshold,
                        min_len as int,
                        i + 1,
                    ));
                }
            } else {
                let mut syms: Vec<usize> = Vec::new();
                syms.push(i);
                clusters.push(Cluster { syms });
                proof {
                    assert(spec_models(clusters@) =~= pre.push(seq![i as usize]));
                }
            }
        }
        i = i + 1;
    }
    proof {
        assert(spec_models(clusters@) == spec_cluster_fold(
            symbols@,
            threshold,
            min_len as int,
            symbols@.len() as int,
        ));
    }
    // order by size, largest first
    let ghost built = spec_models(clusters@);
    let mut rest = clusters;
    let mut out: Vec<Cluster> = Vec::new();
    while rest.len() > 0
        invariant
            spec_models(out@).to_multiset().add(spec_models(rest@).to_multiset())
                == built.to_multiset(),
            spec_sizes_sorted(out@),
            forall|a: int, b: int|
                0 <= a < out@.len() && 0 <= b < rest@.len() ==> (#[trigger] out@[a]).syms@.len()
                    >= (#[trigger] rest@[b]).syms@.len(),
        decreases rest@.len(),
    {
        let mut mi: usize = 0;
        let mut k: usize = 1;
        while k < rest.len()
            invariant
                mi < rest@.len(),
                k <= rest@.len(),
                forall|t: int|
                    0 <= t < k ==> (#[trigger] rest@[t]).syms@.len() <= rest@[mi as int].syms@.len(),
            decreases rest@.len() - k,
        {
            if rest[k].syms.len() > rest[mi].syms.len() {
                mi = k;
            }
            k = k + 1;
        }
        let ghost pre_rest = rest@;
        let ghost pre_out = out@;
        let x = rest.remove(mi);
        out.push(x);
        proof {
            broadcast use vstd::seq_lib::group_to_multiset_ensures;
            broadcast use vstd::multiset::group_multiset_axioms;

            assert(spec_models(rest@) =~= spec_models(pre_rest).remove(mi as int));
            assert(spec_models(out@) =~= spec_models(pre_out).push(pre_rest[mi as int].syms@));
            assert(spec_models(pre_rest).contains(spec_models(pre_rest)[mi as int]));
            assert(spec_models(pre_rest).remove(mi as int).to_multiset() == spec_models(
                pre_rest,
            ).to_multiset().remove(spec_models(pre_rest)[mi as int]));
            assert(spec_models(pre_out).push(pre_rest[mi as int].syms@).to_multiset()
                == spec_models(pre_out).to_multiset().insert(spec_models(pre_rest)[mi as int]));
            assert(spec_models(out@).to_multiset().add(spec_models(rest@).to_multiset())
                =~= built.to_multiset());
            assert forall|a: int, b: int|
                0 <= a < out@.len() && 0 <= b < rest@.len() implies (#[trigger] out@[a]).syms@.len()
                >= (#[trigger] rest@[b]).syms@.len() by {
                if b < mi {
                    assert(rest@[b] == pre_rest[b]);
                } else {
                    assert(rest@[b] == pre_rest[b + 1]);
                }
            }
        }
    }
    proof {
        assert(spec_models(rest@).to_multiset() =~= Multiset::<Seq<usize>>::empty());
        assert(spec_models(out@).to_multiset() =~= built.to_multiset());
    }
    out
}

} // verus!

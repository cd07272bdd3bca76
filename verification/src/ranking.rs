use vstd::prelude::*;

use crate::layout::{
    rank_cap, relax_edge, relax_pass_upto, relax_rounds, spec_eff_edges, spec_final_ranks,
    spec_oriented, spec_ranks, spec_stable,
};

verus! {

// ---------------------------------------------------------------------------
// Longest paths over forward edges
// ---------------------------------------------------------------------------

/// Edges that always step from a lower node index to a higher one and
/// stay inside `n` nodes; the oriented fallback produces exactly such a
/// set, which can hold no cycle.
pub open spec fn forward_edges(edges: Seq<(usize, usize)>, n: nat) -> bool {
    forall|k: int|
        0 <= k < edges.len() ==> (#[trigger] edges[k]).0 < edges[k].1 && edges[k].1 < n
}

/// The longest-path depth of node `v`, considering the first `k` edges
/// that end at `v`: zero with no incoming edge, else one more than the
/// deepest predecessor.
pub open spec fn depth_via(edges: Seq<(usize, usize)>, v: int, k: int) -> int
    decreases v, k when 0 <= v && 0 <= k <= edges.len()
{
    if k <= 0 {
        0
    } else {
        let prev = depth_via(edges, v, k - 1);
        let e = edges[k - 1];
        if e.1 == v && e.0 < v {
            let c = depth_of(edges, e.0 as int) + 1;
            if c > prev {
                c
            } else {
                prev
            }
        } else {
            prev
        }
    }
}

/// The longest-path depth of node `v` over all edges.
pub open spec fn depth_of(edges: Seq<(usize, usize)>, v: int) -> int
    decreases v, edges.len() + 1 when 0 <= v
{
    depth_via(edges, v, edges.len() as int)
}

/// Depth never exceeds the node's index, and never falls below zero.
pub proof fn lemma_depth_via_bounds(edges: Seq<(usize, usize)>, v: int, k: int)
    requires
        0 <= v,
        0 <= k <= edges.len(),
    ensures
        0 <= depth_via(edges, v, k) <= v,
    decreases v, k,
{
    if k > 0 {
        lemma_depth_via_bounds(edges, v, k - 1);
        let e = edges[k - 1];
        if e.1 == v && e.0 < v {
            lemma_depth_via_bounds(edges, e.0 as int, edges.len() as int);
            assert(depth_of(edges, e.0 as int) == depth_via(edges, e.0 as int, edges.len() as int));
            assert(depth_of(edges, e.0 as int) + 1 <= v);
        }
    }
}

/// Depth never exceeds the node's index, and never falls below zero.
pub proof fn lemma_depth_bounds(edges: Seq<(usize, usize)>, v: int)
    requires
        0 <= v,
    ensures
        0 <= depth_of(edges, v) <= v,
{
    lemma_depth_via_bounds(edges, v, edges.len() as int);
}

/// The depth fold never shrinks as more edges are considered.
pub proof fn lemma_depth_via_monotone(edges: Seq<(usize, usize)>, v: int, k1: int, k2: int)
    requires
        0 <= v,
        0 <= k1 <= k2 <= edges.len(),
    ensures
        depth_via(edges, v, k1) <= depth_via(edges, v, k2),
    decreases k2 - k1,
{
    if k1 < k2 {
        lemma_depth_via_monotone(edges, v, k1, k2 - 1);
    }
}

/// Along every forward edge the depth grows by at least one.
pub proof fn lemma_depth_edge(edges: Seq<(usize, usize)>, k: int)
    requires
        0 <= k < edges.len(),
        edges[k].0 < edges[k].1,
    ensures
        depth_of(edges, edges[k].1 as int) >= depth_of(edges, edges[k].0 as int) + 1,
{
    let v = edges[k].1 as int;
    assert(depth_via(edges, v, k + 1) >= depth_of(edges, edges[k].0 as int) + 1);
    lemma_depth_via_monotone(edges, v, k + 1, edges.len() as int);
}

/// A positive depth is witnessed by some incoming forward edge whose
/// source is exactly one level shallower.
pub proof fn lemma_depth_witness(edges: Seq<(usize, usize)>, v: int, k: int)
    requires
        0 <= v,
        0 <= k <= edges.len(),
    ensures
        depth_via(edges, v, k) == 0 || exists|j: int|
            0 <= j < k && (#[trigger] edges[j]).1 == v && edges[j].0 < v && depth_via(edges, v, k)
                == depth_of(edges, edges[j].0 as int) + 1,
    decreases k,
{
    if k > 0 {
        lemma_depth_witness(edges, v, k - 1);
        let e = edges[k - 1];
        if e.1 == v && e.0 < v && depth_of(edges, e.0 as int) + 1 > depth_via(edges, v, k - 1) {
            assert((#[trigger] edges[k - 1]).1 == v && edges[k - 1].0 < v && depth_via(edges, v, k)
                == depth_of(edges, edges[k - 1].0 as int) + 1);
        } else {
            if depth_via(edges, v, k - 1) != 0 {
                let j = choose|j: int|
                    0 <= j < k - 1 && (#[trigger] edges[j]).1 == v && edges[j].0 < v && depth_via(
                        edges,
                        v,
                        k - 1,
                    ) == depth_of(edges, edges[j].0 as int) + 1;
                assert((#[trigger] edges[j]).1 == v && edges[j].0 < v && depth_via(edges, v, k)
                    == depth_of(edges, edges[j].0 as int) + 1);
            }
        }
    }
}

// ---------------------------------------------------------------------------
// Relaxation against depth
// ---------------------------------------------------------------------------

/// Every rank stays at or below its node's depth across a pass prefix.
pub proof fn lemma_pass_upper(
    edges: Seq<(usize, usize)>,
    ranks: Seq<i64>,
    i: int,
    cap: i64,
    n: nat,
)
    requires
        0 <= i <= edges.len(),
        forward_edges(edges, n),
        ranks.len() == n,
        forall|w: int| 0 <= w < ranks.len() ==> #[trigger] ranks[w] <= depth_of(edges, w),
    ensures
        forall|w: int|
            0 <= w < relax_pass_upto(ranks, edges, i, cap).len() ==> #[trigger] relax_pass_upto(
                ranks,
                edges,
                i,
                cap,
            )[w] <= depth_of(edges, w),
    decreases i,
{
    if i > 0 {
        lemma_pass_upper(edges, ranks, i - 1, cap, n);
        let prev = relax_pass_upto(ranks, edges, i - 1, cap);
        let cur = relax_pass_upto(ranks, edges, i, cap);
        let e = edges[i - 1];
        assert(cur == relax_edge(prev, e.0, e.1, cap));
        assert forall|w: int| 0 <= w < cur.len() implies #[trigger] cur[w] <= depth_of(
            edges,
            w,
        ) by {
            if cur[w] != prev[w] {
                assert(w == e.1 as int);
                lemma_depth_edge(edges, i - 1);
                assert(prev[e.0 as int] <= depth_of(edges, e.0 as int));
            }
        }
    }
}

/// A later pass prefix never lowers any rank.
pub proof fn lemma_pass_monotone(
    edges: Seq<(usize, usize)>,
    ranks: Seq<i64>,
    i1: int,
    i2: int,
    cap: i64,
)
    requires
        0 <= i1 <= i2 <= edges.len(),
    ensures
        forall|w: int|
            0 <= w < ranks.len() ==> #[trigger] relax_pass_upto(ranks, edges, i1, cap)[w]
                <= relax_pass_upto(ranks, edges, i2, cap)[w],
        relax_pass_upto(ranks, edges, i1, cap).len() == ranks.len(),
        relax_pass_upto(ranks, edges, i2, cap).len() == ranks.len(),
    decreases i2 - i1,
{
    crate::laws::lemma_relax_pass_len(ranks, edges, i1, cap);
    crate::laws::lemma_relax_pass_len(ranks, edges, i2, cap);
    if i1 < i2 {
        lemma_pass_monotone(edges, ranks, i1, i2 - 1, cap);
    }
}

/// One pass lifts every rank to its depth or to the next level, whichever
/// is lower: the pass relaxes each witness edge after its source has
/// already reached the previous level.
pub proof fn lemma_pass_lower(edges: Seq<(usize, usize)>, ranks: Seq<i64>, cap: i64, b: int, n: nat)
    requires
        forward_edges(edges, n),
        ranks.len() == n,
        n <= cap,
        0 <= b,
        forall|w: int|
            0 <= w < ranks.len() ==> #[trigger] ranks[w] >= (if depth_of(edges, w) < b {
                depth_of(edges, w)
            } else {
                b
            }),
        forall|w: int| 0 <= w < ranks.len() ==> 0 <= #[trigger] ranks[w] <= depth_of(edges, w),
    ensures
        forall|w: int|
            0 <= w < ranks.len() ==> #[trigger] relax_pass_upto(ranks, edges, edges.len() as int, cap)[w]
                >= (if depth_of(edges, w) < b + 1 {
                depth_of(edges, w)
            } else {
                b + 1
            }),
{
    let full = edges.len() as int;
    let done = relax_pass_upto(ranks, edges, full, cap);
    lemma_pass_monotone(edges, ranks, 0, full, cap);
    assert forall|w: int| 0 <= w < ranks.len() implies #[trigger] done[w] >= (if depth_of(
        edges,
        w,
    ) < b + 1 {
        depth_of(edges, w)
    } else {
        b + 1
    }) by {
        let d = depth_of(edges, w);
        lemma_depth_bounds(edges, w);
        if d <= b {
            // already reached: monotonicity keeps it
            assert(ranks[w] >= d);
            assert(relax_pass_upto(ranks, edges, 0, cap) == ranks);
            assert(done[w] >= ranks[w]);
        } else {
            // the witness edge lifts the rank to level b + 1
            lemma_depth_witness(edges, w, edges.len() as int);
            assert(d != 0);
            let j = choose|j: int|
                0 <= j < edges.len() && (#[trigger] edges[j]).1 == w && edges[j].0 < w && d
                    == depth_of(edges, edges[j].0 as int) + 1;
            let u = edges[j].0 as int;
            let before = relax_pass_upto(ranks, edges, j, cap);
            let after = relax_pass_upto(ranks, edges, j + 1, cap);
            assert(after == relax_edge(before, edges[j].0, edges[j].1, cap));
            lemma_pass_monotone(edges, ranks, 0, j, cap);
            assert(relax_pass_upto(ranks, edges, 0, cap) == ranks);
            assert(before[u] >= ranks[u]);
            lemma_depth_bounds(edges, u);
            assert(depth_of(edges, u) == d - 1 >= b);
            assert(ranks[u] >= b);
            lemma_pass_upper(edges, ranks, j, cap, n);
            assert(before[u] <= depth_of(edges, u));
            assert(before[u] < cap) by {
                assert(depth_of(edges, u) <= u < n <= cap);
            }
            assert(after[w] >= before[u] + 1 >= b + 1);
            lemma_pass_monotone(edges, ranks, j + 1, full, cap);
            assert(done[w] >= after[w]);
        }
    }
}

/// After `p` rounds every rank has climbed to its depth or to level `p`,
/// and never beyond its depth.
pub proof fn lemma_rounds_converge(
    edges: Seq<(usize, usize)>,
    n: nat,
    cap: i64,
    p: nat,
)
    requires
        forward_edges(edges, n),
        n <= cap,
    ensures
        ({
            let ranks = relax_rounds(Seq::new(n, |i: int| 0i64), edges, p, cap);
            &&& ranks.len() == n
            &&& forall|w: int|
                0 <= w < n ==> #[trigger] ranks[w] >= (if depth_of(edges, w) < p {
                    depth_of(edges, w)
                } else {
                    p as int
                })
            &&& forall|w: int| 0 <= w < n ==> 0 <= #[trigger] ranks[w] <= depth_of(edges, w)
        }),
    decreases p,
{
    let zeros = Seq::new(n, |i: int| 0i64);
    crate::laws::lemma_relax_rounds_len(zeros, edges, p, cap);
    if p == 0 {
        assert forall|w: int| 0 <= w < n implies 0 <= #[trigger] zeros[w] <= depth_of(
            edges,
            w,
        ) by {
            lemma_depth_bounds(edges, w);
        }
    } else {
        lemma_rounds_converge(edges, n, cap, (p - 1) as nat);
        let prev = relax_rounds(zeros, edges, (p - 1) as nat, cap);
        let cur = relax_rounds(zeros, edges, p, cap);
        assert(cur == relax_pass_upto(prev, edges, edges.len() as int, cap));
        crate::laws::lemma_relax_rounds_len(zeros, edges, (p - 1) as nat, cap);
        assert(prev.len() == n);
        assert forall|w: int| 0 <= w < prev.len() implies #[trigger] prev[w] >= (
        if depth_of(edges, w) < p - 1 {
            depth_of(edges, w)
        } else {
            p - 1
        }) by {
            assert(prev[w] >= (if depth_of(edges, w) < (p - 1) as nat {
                depth_of(edges, w)
            } else {
                ((p - 1) as nat) as int
            }));
        }
        lemma_pass_lower(edges, prev, cap, p - 1, n);
        lemma_pass_upper(edges, prev, edges.len() as int, cap, n);
        assert forall|w: int| 0 <= w < n implies #[trigger] cur[w] >= (if depth_of(edges, w) < p {
            depth_of(edges, w)
        } else {
            p as int
        }) by {
            assert(cur[w] >= (if depth_of(edges, w) < (p - 1) + 1 {
                depth_of(edges, w)
            } else {
                (p - 1) + 1
            }));
        }
        assert forall|w: int| 0 <= w < n implies 0 <= #[trigger] cur[w] <= depth_of(edges, w) by {
            lemma_depth_bounds(edges, w);
        }
    }
}

/// Forward edges always rank stably: after enough rounds every node sits
/// exactly at its longest-path depth, and every edge descends by at least
/// one rank.
pub proof fn lemma_forward_ranking_stable(n: nat, edges: Seq<(usize, usize)>)
    requires
        n <= 0x10_0000,
        forward_edges(edges, n),
    ensures
        spec_stable(spec_ranks(n, edges), edges),
        forall|w: int|
            0 <= w < n ==> #[trigger] spec_ranks(n, edges)[w] == depth_of(edges, w),
{
    let cap = rank_cap(n);
    assert(cap == n as i64);
    let rounds = (cap + 1) as nat;
    lemma_rounds_converge(edges, n, cap, rounds);
    let ranks = spec_ranks(n, edges);
    assert forall|w: int| 0 <= w < n implies #[trigger] ranks[w] == depth_of(edges, w) by {
        lemma_depth_bounds(edges, w);
        assert(depth_of(edges, w) <= w < n < rounds);
    }
    assert forall|k: int| 0 <= k < edges.len() implies {
        let (u, v) = #[trigger] edges[k];
        u < ranks.len() && v < ranks.len() && ranks[u as int] + 1 <= ranks[v as int]
    } by {
        let (u, v) = edges[k];
        lemma_depth_edge(edges, k);
        assert(ranks[u as int] == depth_of(edges, u as int));
        assert(ranks[v as int] == depth_of(edges, v as int));
    }
}

/// Layered ranking: over any self-loop-free edge set on nodes within the
/// cap, the effective edges the layout ranks by always rank stably, so
/// every one of them points from a lower rank to a strictly higher rank.
/// Declared edges that already rank stably are used as they are; any
/// other set is oriented along declaration order first, which breaks its
/// cycles.
pub proof fn lemma_layering_descends(n: nat, edges: Seq<(usize, usize)>)
    requires
        n <= 0x10_0000,
        forall|k: int|
            0 <= k < edges.len() ==> (#[trigger] edges[k]).0 < n && edges[k].1 < n && edges[k].0
                != edges[k].1,
    ensures
        spec_stable(spec_final_ranks(n, edges), spec_eff_edges(n, edges)),
{
    if !spec_stable(spec_ranks(n, edges), edges) {
        let o = spec_oriented(edges);
        assert(forward_edges(o, n)) by {
            assert forall|k: int| 0 <= k < o.len() implies (#[trigger] o[k]).0 < o[k].1 && o[k].1
                < n by {
                assert(edges[k].0 < n && edges[k].1 < n && edges[k].0 != edges[k].1);
            }
        }
        lemma_forward_ranking_stable(n, o);
    }
}

} // verus!

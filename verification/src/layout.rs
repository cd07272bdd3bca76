use vstd::prelude::*;

use vstd::relations::{sorted_by, total_ordering};
use vstd::seq_lib::lemma_sorted_unique;

verus! {

// ---------------------------------------------------------------------------
// Bounds
// ---------------------------------------------------------------------------

/// Cap on ranks and on positions inside a rank: coordinates stay well
/// inside `i64` whatever the input size.
pub const LAYOUT_CAP: i64 = 0x10_0000;

/// Number of barycenter sweeps over the ranks.
pub const ORDER_SWEEPS: u64 = 3;

/// `v`, saturated at `LAYOUT_CAP`.
pub open spec fn sat_cap(v: int) -> i64 {
    if v > LAYOUT_CAP {
        LAYOUT_CAP
    } else {
        v as i64
    }
}

// ---------------------------------------------------------------------------
// Ranking: longest-path by capped relaxation
// ---------------------------------------------------------------------------

/// One relaxation of edge `(u, v)`: `v` moves just below `u` when it is
/// not there yet and the cap allows.  Out-of-range indices change nothing.
pub open spec fn relax_edge(ranks: Seq<i64>, u: usize, v: usize, cap: i64) -> Seq<i64> {
    if u < ranks.len() && v < ranks.len() && ranks[u as int] < cap && ranks[u as int] + 1
        > ranks[v as int] {
        ranks.update(v as int, (ranks[u as int] + 1) as i64)
    } else {
        ranks
    }
}

/// Relaxation of the first `i` edges, in order.
pub open spec fn relax_pass_upto(ranks: Seq<i64>, edges: Seq<(usize, usize)>, i: int, cap: i64) -> Seq<
    i64,
>
    decreases i when 0 <= i <= edges.len()
{
    if i <= 0 {
        ranks
    } else {
        let prev = relax_pass_upto(ranks, edges, i - 1, cap);
        relax_edge(prev, edges[i - 1].0, edges[i - 1].1, cap)
    }
}

/// `round` full passes of relaxation over all edges.
pub open spec fn relax_rounds(ranks: Seq<i64>, edges: Seq<(usize, usize)>, rounds: nat, cap: i64) -> Seq<
    i64,
>
    decreases rounds,
{
    if rounds == 0 {
        ranks
    } else {
        relax_pass_upto(relax_rounds(ranks, edges, (rounds - 1) as nat, cap), edges, edges.len() as int, cap)
    }
}

/// The rank cap for `n` nodes: the longest simple path, saturated.
pub open spec fn rank_cap(n: nat) -> i64 {
    sat_cap(n as int)
}

/// The ranks of `n` nodes under `edges`: longest-path layering computed by
/// capped relaxation from rank 0, run for one round more than the cap.
pub open spec fn spec_ranks(n: nat, edges: Seq<(usize, usize)>) -> Seq<i64> {
    relax_rounds(Seq::new(n, |i: int| 0i64), edges, (rank_cap(n) + 1) as nat, rank_cap(n))
}

/// Whether the ranking is stable: every edge steps down by at least one
/// rank.  An edge set with a cycle can never rank stably, so instability
/// is how the layout detects that the cycle-breaking fallback is needed.
pub open spec fn spec_stable(ranks: Seq<i64>, edges: Seq<(usize, usize)>) -> bool {
    forall|k: int|
        0 <= k < edges.len() ==> {
            let (u, v) = #[trigger] edges[k];
            u < ranks.len() && v < ranks.len() && ranks[u as int] + 1 <= ranks[v as int]
        }
}

/// Every edge turned to point from the earlier-declared node to the later
/// one; self-loops are left as they are.  The result is acyclic.
pub open spec fn spec_oriented(edges: Seq<(usize, usize)>) -> Seq<(usize, usize)> {
    edges.map_values(
        |e: (usize, usize)|
            if e.0 <= e.1 {
                e
            } else {
                (e.1, e.0)
            },
    )
}

fn relax_pass(ranks: &mut Vec<i64>, edges: &Vec<(usize, usize)>, cap: i64)
    requires
        0 <= cap <= 0x10_0000,
        forall|i: int| 0 <= i < old(ranks)@.len() ==> 0 <= #[trigger] old(ranks)@[i] <= cap,
    ensures
        final(ranks)@ == relax_pass_upto(old(ranks)@, edges@, edges@.len() as int, cap),
        final(ranks)@.len() == old(ranks)@.len(),
        forall|i: int| 0 <= i < final(ranks)@.len() ==> 0 <= #[trigger] final(ranks)@[i] <= cap,
{
    let mut k: usize = 0;
    while k < edges.len()
        invariant
            0 <= cap <= 0x10_0000,
            k <= edges@.len(),
            ranks@ == relax_pass_upto(old(ranks)@, edges@, k as int, cap),
            ranks@.len() == old(ranks)@.len(),
            forall|i: int| 0 <= i < ranks@.len() ==> 0 <= #[trigger] ranks@[i] <= cap,
        decreases edges@.len() - k,
    {
        let (u, v) = edges[k];
        if u < ranks.len() && v < ranks.len() && ranks[u] < cap && ranks[u] + 1 > ranks[v] {
            let nv = ranks[u] + 1;
            ranks.set(v, nv);
        }
        k = k + 1;
    }
}

/// Longest-path ranks for `n` nodes, and whether the ranking is stable
/// (it is whenever the edges are acyclic and no cap was hit).
pub fn compute_ranks(n: usize, edges: &Vec<(usize, usize)>) -> (r: (Vec<i64>, bool))
    ensures
        r.0@ == spec_ranks(n as nat, edges@),
        r.1 == spec_stable(r.0@, edges@),
        r.0@.len() == n,
        forall|i: int| 0 <= i < r.0@.len() ==> 0 <= #[trigger] r.0@[i] <= rank_cap(n as nat),
{
    let cap: i64 = if n > 0x10_0000 {
        0x10_0000
    } else {
        n as i64
    };
    let mut ranks: Vec<i64> = Vec::new();
    let mut i: usize = 0;
    while i < n
        invariant
            i <= n,
            ranks@.len() == i,
            forall|j: int| 0 <= j < i ==> #[trigger] ranks@[j] == 0i64,
        decreases n - i,
    {
        ranks.push(0);
        i = i + 1;
    }
    proof {
        assert(ranks@ =~= Seq::new(n as nat, |i: int| 0i64));
    }
    let rounds: u64 = (cap + 1) as u64;
    let mut round: u64 = 0;
    while round < rounds
        invariant
            0 <= cap <= 0x10_0000,
            cap == rank_cap(n as nat),
            round <= rounds,
            rounds == cap + 1,
            ranks@ == relax_rounds(Seq::new(n as nat, |i: int| 0i64), edges@, round as nat, cap),
            ranks@.len() == n,
            forall|i: int| 0 <= i < ranks@.len() ==> 0 <= #[trigger] ranks@[i] <= cap,
        decreases rounds - round,
    {
        relax_pass(&mut ranks, edges, cap);
        round = round + 1;
    }
    let mut stable = true;
    let mut k: usize = 0;
    while k < edges.len()
        invariant
            k <= edges@.len(),
            ranks@.len() == n,
            forall|i: int| 0 <= i < ranks@.len() ==> 0 <= #[trigger] ranks@[i] <= 0x10_0000,
            stable == (forall|j: int|
                0 <= j < k ==> {
                    let (u, v) = #[trigger] edges@[j];
                    u < ranks@.len() && v < ranks@.len()
                        && ranks@[u as int] + 1 <= ranks@[v as int]
                }),
        decreases edges@.len() - k,
    {
        let (u, v) = edges[k];
        if !(u < ranks.len() && v < ranks.len() && ranks[u] + 1 <= ranks[v]) {
            stable = false;
        }
        k = k + 1;
    }
    (ranks, stable)
}

/// The edges reoriented along declaration order.
pub fn orient_edges(edges: &Vec<(usize, usize)>) -> (r: Vec<(usize, usize)>)
    ensures
        r@ == spec_oriented(edges@),
{
    let mut out: Vec<(usize, usize)> = Vec::new();
    let mut k: usize = 0;
    while k < edges.len()
        invariant
            k <= edges@.len(),
            out@ =~= spec_oriented(edges@.take(k as int)),
        decreases edges@.len() - k,
    {
        let (u, v) = edges[k];
        if u <= v {
            out.push((u, v));
        } else {
            out.push((v, u));
        }
        proof {
            assert(edges@.take(k + 1 as int).drop_last() =~= edges@.take(k as int));
            assert(out@ =~= spec_oriented(edges@.take(k + 1 as int)));
        }
        k = k + 1;
    }
    proof {
        assert(edges@.take(edges@.len() as int) =~= edges@);
    }
    out
}

// ---------------------------------------------------------------------------
// Ordering within ranks: iterative barycenter
// ---------------------------------------------------------------------------

/// Whether nodes `a` and `b` are connected by some edge, in either
/// direction.
pub open spec fn adjacent(edges: Seq<(usize, usize)>, a: usize, b: usize) -> bool {
    exists|k: int|
        0 <= k < edges.len() && (#[trigger] edges[k] == (a, b) || edges[k] == (b, a))
}

fn adjacent_c(edges: &Vec<(usize, usize)>, a: usize, b: usize) -> (r: bool)
    ensures
        r == adjacent(edges@, a, b),
{
    let mut k: usize = 0;
    while k < edges.len()
        invariant
            k <= edges@.len(),
            forall|j: int|
                0 <= j < k ==> !(#[trigger] edges@[j] == (a, b) || edges@[j] == (b, a)),
        decreases edges@.len() - k,
    {
        let (x, y) = edges[k];
        if (x == a && y == b) || (x == b && y == a) {
            return true;
        }
        k = k + 1;
    }
    false
}

/// Saturating accumulation of the barycenter numerator and denominator of
/// node `v` over the first `i` candidate neighbours: a neighbour one rank
/// above contributes its current position.
pub open spec fn bary_upto(
    ranks: Seq<i64>,
    pos: Seq<i64>,
    edges: Seq<(usize, usize)>,
    v: usize,
    r: i64,
    i: int,
) -> (i64, i64)
    decreases i when 0 <= i <= pos.len()
{
    if i <= 0 {
        (0, 0)
    } else {
        let (sum, cnt) = bary_upto(ranks, pos, edges, v, r, i - 1);
        let u = i - 1;
        if u < ranks.len() && ranks[u] == r - 1 && adjacent(edges, u as usize, v) {
            let p = if 0 <= pos[u] <= 0x10_0000 {
                pos[u]
            } else {
                0
            };
            let nsum = if sum + p > 0x4000_0000_0000 {
                0x4000_0000_0000i64
            } else {
                (sum + p) as i64
            };
            let ncnt = if cnt + 1 > 0x4000_0000_0000 {
                0x4000_0000_0000i64
            } else {
                (cnt + 1) as i64
            };
            (nsum, ncnt)
        } else {
            (sum, cnt)
        }
    }
}

/// The barycenter sort key of node `v` in rank `r`: the mean current
/// position of its neighbours one rank above, or its own current position
/// when it has none.
pub open spec fn bary_key(
    ranks: Seq<i64>,
    pos: Seq<i64>,
    edges: Seq<(usize, usize)>,
    v: usize,
    r: i64,
) -> i64 {
    let (sum, cnt) = bary_upto(ranks, pos, edges, v, r, pos.len() as int);
    if cnt == 0 {
        if v < pos.len() {
            pos[v as int]
        } else {
            0
        }
    } else {
        (sum / cnt) as i64
    }
}

fn bary_key_c(
    ranks: &Vec<i64>,
    pos: &Vec<i64>,
    edges: &Vec<(usize, usize)>,
    v: usize,
    r: i64,
) -> (key: i64)
    requires
        ranks@.len() == pos@.len(),
        0 <= r,
    ensures
        key == bary_key(ranks@, pos@, edges@, v, r),
{
    let mut sum: i64 = 0;
    let mut cnt: i64 = 0;
    let mut u: usize = 0;
    while u < pos.len()
        invariant
            ranks@.len() == pos@.len(),
            0 <= r,
            u <= pos@.len(),
            (sum, cnt) == bary_upto(ranks@, pos@, edges@, v, r, u as int),
            0 <= sum <= 0x4000_0000_0000,
            0 <= cnt <= 0x4000_0000_0000,
        decreases pos@.len() - u,
    {
        proof {
            lemma_bary_upto_bounds(ranks@, pos@, edges@, v, r, u + 1);
        }
        if ranks[u] == r - 1 && adjacent_c(edges, u, v) {
            let p: i64 = if 0 <= pos[u] && pos[u] <= 0x10_0000 {
                pos[u]
            } else {
                0
            };
            sum = if sum + p > 0x4000_0000_0000 {
                0x4000_0000_0000
            } else {
                sum + p
            };
            cnt = if cnt + 1 > 0x4000_0000_0000 {
                0x4000_0000_0000
            } else {
                cnt + 1
            };
        }
        u = u + 1;
    }
    if cnt == 0 {
        if v < pos.len() {
            pos[v]
        } else {
            0
        }
    } else {
        sum / cnt
    }
}

/// The accumulated barycenter numerator and denominator stay within their
/// caps and never go negative.
pub proof fn lemma_bary_upto_bounds(
    ranks: Seq<i64>,
    pos: Seq<i64>,
    edges: Seq<(usize, usize)>,
    v: usize,
    r: i64,
    i: int,
)
    requires
        0 <= i <= pos.len(),
    ensures
        0 <= bary_upto(ranks, pos, edges, v, r, i).0 <= 0x4000_0000_0000,
        0 <= bary_upto(ranks, pos, edges, v, r, i).1 <= 0x4000_0000_0000,
    decreases i,
{
    if i > 0 {
        lemma_bary_upto_bounds(ranks, pos, edges, v, r, i - 1);
    }
}

// ---------------------------------------------------------------------------
// Sorting rank members by key
// ---------------------------------------------------------------------------

/// Lexicographic order on (key, current position, node index): a total
/// order, so a sorted permutation is unique.
pub open spec fn triple_leq(a: (i64, i64, usize), b: (i64, i64, usize)) -> bool {
    a.0 < b.0 || (a.0 == b.0 && (a.1 < b.1 || (a.1 == b.1 && a.2 <= b.2)))
}

/// The order as a value, for `sort_by`.
pub open spec fn triple_le() -> spec_fn((i64, i64, usize), (i64, i64, usize)) -> bool {
    |a: (i64, i64, usize), b: (i64, i64, usize)| triple_leq(a, b)
}

/// The triple order is total.
pub proof fn lemma_triple_le_total()
    ensures
        total_ordering(triple_le()),
{
}

fn triple_leq_c(a: (i64, i64, usize), b: (i64, i64, usize)) -> (r: bool)
    ensures
        r == triple_leq(a, b),
{
    a.0 < b.0 || (a.0 == b.0 && (a.1 < b.1 || (a.1 == b.1 && a.2 <= b.2)))
}

/// Selection sort of key triples; the result is the unique permutation
/// sorted by the total order `triple_le()`.
pub fn sort_triples(arr: &mut Vec<(i64, i64, usize)>)
    ensures
        final(arr)@ == old(arr)@.sort_by(triple_le()),
{
    let ghost orig = arr@;
    let mut i: usize = 0;
    while i < arr.len()
        invariant
            i <= arr@.len(),
            arr@.len() == orig.len(),
            arr@.to_multiset() == orig.to_multiset(),
            sorted_by(arr@.take(i as int), triple_le()),
            forall|a: int, b: int|
                0 <= a < i <= b < arr@.len() ==> triple_leq(arr@[a], arr@[b]),
        decreases arr@.len() - i,
    {
        let mut m: usize = i;
        let mut j: usize = i + 1;
        while j < arr.len()
            invariant
                i <= m < j <= arr@.len(),
                forall|k: int| i <= k < j ==> triple_leq(arr@[m as int], #[trigger] arr@[k]),
            decreases arr@.len() - j,
        {
            if triple_leq_c(arr[j], arr[m]) {
                m = j;
            }
            j = j + 1;
        }
        let ghost before = arr@;
        let ai = arr[i];
        let am = arr[m];
        arr.set(i, am);
        arr.set(m, ai);
        proof {
            broadcast use vstd::seq_lib::group_to_multiset_ensures;
            broadcast use vstd::seq_lib::to_multiset_update;
            broadcast use vstd::multiset::group_multiset_axioms;

            let bi = before[i as int];
            let bm = before[m as int];
            let s1 = before.update(i as int, bm);
            assert(arr@ =~= s1.update(m as int, bi));
            assert(s1.to_multiset() == before.to_multiset().insert(bm).remove(bi));
            assert(s1[m as int] == bm);
            assert(arr@.to_multiset() == s1.to_multiset().insert(bi).remove(bm));
            assert(before.contains(bi)) by {
                assert(before[i as int] == bi);
            }
            assert(before.to_multiset().count(bi) > 0);
            assert(arr@.to_multiset() =~= before.to_multiset());
            assert(arr@.take(i + 1 as int).drop_last() =~= arr@.take(i as int));
            assert(arr@.take(i as int) =~= before.take(i as int));
        }
        i = i + 1;
    }
    proof {
        assert(arr@.take(arr@.len() as int) =~= arr@);
        lemma_triple_le_total();
        orig.lemma_sort_by_ensures(triple_le());
        lemma_sorted_unique(arr@, orig.sort_by(triple_le()), triple_le());
    }
}

// ---------------------------------------------------------------------------
// Initial order and sweeps
// ---------------------------------------------------------------------------

/// How many of the first `i` nodes hold rank `r`.
pub open spec fn count_rank_upto(ranks: Seq<i64>, r: i64, i: int) -> int
    decreases i when 0 <= i <= ranks.len()
{
    if i <= 0 {
        0
    } else {
        count_rank_upto(ranks, r, i - 1) + if ranks[i - 1] == r {
            1int
        } else {
            0int
        }
    }
}

/// The initial position of every node inside its rank: its place among
/// the nodes of that rank in declaration order, saturated at the cap.
pub open spec fn spec_initial_pos(ranks: Seq<i64>) -> Seq<i64> {
    Seq::new(ranks.len(), |v: int| sat_cap(count_rank_upto(ranks, ranks[v], v)))
}

/// The key triples of the nodes holding rank `r` among the first `i`
/// nodes, in declaration order: barycenter key, current position, node.
pub open spec fn triples_upto(
    ranks: Seq<i64>,
    pos: Seq<i64>,
    edges: Seq<(usize, usize)>,
    r: i64,
    i: int,
) -> Seq<(i64, i64, usize)>
    decreases i when 0 <= i <= ranks.len()
{
    if i <= 0 {
        Seq::empty()
    } else {
        let prev = triples_upto(ranks, pos, edges, r, i - 1);
        if ranks[i - 1] == r && i - 1 < pos.len() {
            prev.push((bary_key(ranks, pos, edges, (i - 1) as usize, r), pos[i - 1], (i - 1) as usize))
        } else {
            prev
        }
    }
}

/// New positions after walking the first `q` sorted triples: the node of
/// the `k`-th triple moves to position `k`, saturated at the cap.
pub open spec fn assign_upto(pos: Seq<i64>, sorted: Seq<(i64, i64, usize)>, q: int) -> Seq<i64>
    decreases q when 0 <= q <= sorted.len()
{
    if q <= 0 {
        pos
    } else {
        let prev = assign_upto(pos, sorted, q - 1);
        let t = sorted[q - 1];
        if t.2 < prev.len() {
            prev.update(t.2 as int, sat_cap(q - 1))
        } else {
            prev
        }
    }
}

/// Reorder the nodes of rank `r` by their barycenter keys: collect the
/// rank's key triples, sort them, and hand out positions in sorted order.
pub open spec fn spec_reorder_rank(
    ranks: Seq<i64>,
    pos: Seq<i64>,
    edges: Seq<(usize, usize)>,
    r: i64,
) -> Seq<i64> {
    let sorted = triples_upto(ranks, pos, edges, r, ranks.len() as int).sort_by(triple_le());
    assign_upto(pos, sorted, sorted.len() as int)
}

/// One sweep over ranks `1..=r`, top rank first.
pub open spec fn spec_sweep_upto(
    ranks: Seq<i64>,
    pos: Seq<i64>,
    edges: Seq<(usize, usize)>,
    r: int,
) -> Seq<i64>
    decreases r when r >= 0
{
    if r <= 0 {
        pos
    } else {
        spec_reorder_rank(ranks, spec_sweep_upto(ranks, pos, edges, r - 1), edges, r as i64)
    }
}

/// The greatest rank among the first `i` nodes (0 when there are none).
pub open spec fn max_rank_upto(ranks: Seq<i64>, i: int) -> i64
    decreases i when 0 <= i <= ranks.len()
{
    if i <= 0 {
        0
    } else {
        let prev = max_rank_upto(ranks, i - 1);
        if ranks[i - 1] > prev {
            ranks[i - 1]
        } else {
            prev
        }
    }
}

/// The greatest rank of any node.
pub open spec fn max_rank(ranks: Seq<i64>) -> i64 {
    max_rank_upto(ranks, ranks.len() as int)
}

/// `t` barycenter sweeps over all ranks.
pub open spec fn spec_order_iters(
    ranks: Seq<i64>,
    pos: Seq<i64>,
    edges: Seq<(usize, usize)>,
    t: nat,
) -> Seq<i64>
    decreases t,
{
    if t == 0 {
        pos
    } else {
        spec_sweep_upto(
            ranks,
            spec_order_iters(ranks, pos, edges, (t - 1) as nat),
            edges,
            max_rank(ranks) as int,
        )
    }
}

/// The edge set the layout ranks by: the declared edges when they already
/// rank stably (they are acyclic), else every edge oriented along
/// declaration order, which breaks each cycle at its backward edges.
pub open spec fn spec_eff_edges(n: nat, edges: Seq<(usize, usize)>) -> Seq<(usize, usize)> {
    if spec_stable(spec_ranks(n, edges), edges) {
        edges
    } else {
        spec_oriented(edges)
    }
}

/// The ranks the layout uses: longest-path ranks of the effective edges.
pub open spec fn spec_final_ranks(n: nat, edges: Seq<(usize, usize)>) -> Seq<i64> {
    spec_ranks(n, spec_eff_edges(n, edges))
}

/// The final in-rank positions after the barycenter sweeps.
pub open spec fn spec_final_pos(n: nat, edges: Seq<(usize, usize)>) -> Seq<i64> {
    let ranks = spec_final_ranks(n, edges);
    spec_order_iters(
        ranks,
        spec_initial_pos(ranks),
        spec_eff_edges(n, edges),
        ORDER_SWEEPS as nat,
    )
}

/// Every node's centre coordinates: its in-rank position spread by the
/// horizontal spacing, and its rank spread by the vertical spacing.  Rank
/// 0 sits at the top; y grows downwards.
pub open spec fn spec_layout(n: nat, edges: Seq<(usize, usize)>, hs: i64, vs: i64) -> Seq<
    (i64, i64),
> {
    let ranks = spec_final_ranks(n, edges);
    let pos = spec_final_pos(n, edges);
    Seq::new(
        n,
        |v: int|
            (
                (sat_cap(if v < pos.len() {
                    pos[v] as int
                } else {
                    0
                }) * hs) as i64,
                ((if v < ranks.len() {
                    ranks[v] as int
                } else {
                    0
                }) * vs) as i64,
            ),
    )
}

fn initial_pos(ranks: &Vec<i64>) -> (r: Vec<i64>)
    ensures
        r@ == spec_initial_pos(ranks@),
        r@.len() == ranks@.len(),
        forall|i: int| 0 <= i < r@.len() ==> 0 <= #[trigger] r@[i] <= 0x10_0000,
{
    let mut out: Vec<i64> = Vec::new();
    let mut v: usize = 0;
    while v < ranks.len()
        invariant
            v <= ranks@.len(),
            out@.len() == v,
            forall|i: int| 0 <= i < v ==> #[trigger] out@[i] == spec_initial_pos(ranks@)[i],
            forall|i: int| 0 <= i < v ==> 0 <= #[trigger] out@[i] <= 0x10_0000,
        decreases ranks@.len() - v,
    {
        let mut count: i64 = 0;
        let mut j: usize = 0;
        while j < v
            invariant
                j <= v < ranks@.len(),
                count == count_rank_upto(ranks@, ranks@[v as int], j as int) || count
                    == 0x10_0000 && count_rank_upto(ranks@, ranks@[v as int], j as int)
                    >= 0x10_0000,
                0 <= count <= 0x10_0000,
            decreases v - j,
        {
            proof {
                lemma_count_rank_monotone(ranks@, ranks@[v as int], j as int);
            }
            if ranks[j] == ranks[v] && count < 0x10_0000 {
                count = count + 1;
            }
            j = j + 1;
        }
        proof {
            lemma_count_rank_monotone(ranks@, ranks@[v as int], v as int);
        }
        out.push(count);
        proof {
            assert(out@[v as int] == sat_cap(count_rank_upto(ranks@, ranks@[v as int], v as int)));
        }
        v = v + 1;
    }
    proof {
        assert(out@ =~= spec_initial_pos(ranks@));
    }
    out
}

/// Counting rank members never decreases along the prefix.
pub proof fn lemma_count_rank_monotone(ranks: Seq<i64>, r: i64, i: int)
    requires
        0 <= i <= ranks.len(),
    ensures
        0 <= count_rank_upto(ranks, r, i) <= i,
        i > 0 ==> count_rank_upto(ranks, r, i - 1) <= count_rank_upto(ranks, r, i)
            <= count_rank_upto(ranks, r, i - 1) + 1,
    decreases i,
{
    if i > 0 {
        lemma_count_rank_monotone(ranks, r, i - 1);
    }
}

fn reorder_rank(ranks: &Vec<i64>, pos: &mut Vec<i64>, edges: &Vec<(usize, usize)>, r: i64)
    requires
        ranks@.len() == old(pos)@.len(),
        1 <= r,
        forall|i: int| 0 <= i < old(pos)@.len() ==> 0 <= #[trigger] old(pos)@[i] <= 0x10_0000,
    ensures
        final(pos)@ == spec_reorder_rank(ranks@, old(pos)@, edges@, r),
        final(pos)@.len() == old(pos)@.len(),
        forall|i: int| 0 <= i < final(pos)@.len() ==> 0 <= #[trigger] final(pos)@[i] <= 0x10_0000,
{
    let ghost pos0 = pos@;
    let mut tr: Vec<(i64, i64, usize)> = Vec::new();
    let mut v: usize = 0;
    while v < ranks.len()
        invariant
            ranks@.len() == pos@.len(),
            1 <= r,
            pos@ == pos0,
            v <= ranks@.len(),
            tr@ == triples_upto(ranks@, pos@, edges@, r, v as int),
        decreases ranks@.len() - v,
    {
        if ranks[v] == r {
            let key = bary_key_c(ranks, pos, edges, v, r);
            tr.push((key, pos[v], v));
        }
        v = v + 1;
    }
    sort_triples(&mut tr);
    let ghost sorted = triples_upto(ranks@, pos0, edges@, r, ranks@.len() as int).sort_by(
        triple_le(),
    );
    let mut q: usize = 0;
    while q < tr.len()
        invariant
            tr@ == sorted,
            q <= sorted.len(),
            pos@ == assign_upto(pos0, sorted, q as int),
            pos@.len() == pos0.len(),
            forall|i: int| 0 <= i < pos@.len() ==> 0 <= #[trigger] pos@[i] <= 0x10_0000,
        decreases sorted.len() - q,
    {
        let t = tr[q];
        if t.2 < pos.len() {
            let p: i64 = if q > 0x10_0000 {
                0x10_0000
            } else {
                q as i64
            };
            pos.set(t.2, p);
        }
        q = q + 1;
    }
}

/// Centre coordinates for `n` nodes: ranks from capped longest-path
/// layering over the effective edge set, in-rank order from barycenter
/// sweeps, spread by the two spacings.
pub fn layout_positions(n: usize, edges: &Vec<(usize, usize)>, hs: i64, vs: i64) -> (r: Vec<
    (i64, i64),
>)
    requires
        0 < hs <= 0x2_0000,
        0 < vs <= 0x10_0000,
    ensures
        r@ == spec_layout(n as nat, edges@, hs, vs),
        r@.len() == n,
        forall|v: int|
            0 <= v < r@.len() ==> 0 <= #[trigger] r@[v].0 <= 0x20_0000_0000 && 0 <= r@[v].1
                <= 0x100_0000_0000,
{
    let oriented = orient_edges(edges);
    let (ranks1, stable) = compute_ranks(n, edges);
    let eff: &Vec<(usize, usize)> = if stable {
        edges
    } else {
        &oriented
    };
    let ranks: Vec<i64> = if stable {
        ranks1
    } else {
        let (ranks2, _) = compute_ranks(n, &oriented);
        ranks2
    };
    proof {
        assert(eff@ == spec_eff_edges(n as nat, edges@));
        assert(ranks@ == spec_final_ranks(n as nat, edges@));
    }
    let mut maxr: i64 = 0;
    let mut i: usize = 0;
    while i < ranks.len()
        invariant
            i <= ranks@.len(),
            maxr == max_rank_upto(ranks@, i as int),
            forall|j: int| 0 <= j < ranks@.len() ==> 0 <= #[trigger] ranks@[j] <= 0x10_0000,
            0 <= maxr <= 0x10_0000,
        decreases ranks@.len() - i,
    {
        if ranks[i] > maxr {
            maxr = ranks[i];
        }
        i = i + 1;
    }
    let mut pos = initial_pos(&ranks);
    let ghost pos0 = pos@;
    let mut it: u64 = 0;
    while it < ORDER_SWEEPS
        invariant
            it <= ORDER_SWEEPS,
            ranks@.len() == pos@.len(),
            maxr == max_rank(ranks@),
            0 <= maxr <= 0x10_0000,
            pos@ == spec_order_iters(ranks@, pos0, eff@, it as nat),
            forall|i: int| 0 <= i < pos@.len() ==> 0 <= #[trigger] pos@[i] <= 0x10_0000,
        decreases ORDER_SWEEPS - it,
    {
        let ghost sweep_start = pos@;
        let mut r: i64 = 1;
        while r <= maxr
            invariant
                1 <= r <= maxr + 1,
                0 <= maxr <= 0x10_0000,
                ranks@.len() == pos@.len(),
                pos@ == spec_sweep_upto(ranks@, sweep_start, eff@, r - 1),
                forall|i: int| 0 <= i < pos@.len() ==> 0 <= #[trigger] pos@[i] <= 0x10_0000,
            decreases maxr + 1 - r,
        {
            reorder_rank(&ranks, &mut pos, eff, r);
            r = r + 1;
        }
        it = it + 1;
    }
    proof {
        assert(pos@ == spec_final_pos(n as nat, edges@));
    }
    let mut out: Vec<(i64, i64)> = Vec::new();
    let mut v: usize = 0;
    while v < n
        invariant
            v <= n,
            out@.len() == v,
            pos@ == spec_final_pos(n as nat, edges@),
            ranks@ == spec_final_ranks(n as nat, edges@),
            pos@.len() == n,
            ranks@.len() == n,
            0 < hs <= 0x2_0000,
            0 < vs <= 0x10_0000,
            forall|i: int| 0 <= i < pos@.len() ==> 0 <= #[trigger] pos@[i] <= 0x10_0000,
            forall|j: int| 0 <= j < ranks@.len() ==> 0 <= #[trigger] ranks@[j] <= 0x10_0000,
            forall|i: int| 0 <= i < v ==> #[trigger] out@[i] == spec_layout(
                n as nat,
                edges@,
                hs,
                vs,
            )[i],
            forall|i: int|
                0 <= i < v ==> 0 <= #[trigger] out@[i].0 <= 0x20_0000_0000 && 0 <= out@[i].1
                    <= 0x100_0000_0000,
        decreases n - v,
    {
        proof {
            assert(0 <= pos@[v as int] <= 0x10_0000);
            assert(0 <= ranks@[v as int] <= 0x10_0000);
        }
        let p: i64 = if pos[v] > 0x10_0000 {
            0x10_0000
        } else {
            pos[v]
        };
        let rk: i64 = ranks[v];
        proof {
            assert(0 <= p as int * hs as int <= 0x20_0000_0000) by (nonlinear_arith)
                requires
                    0 <= p <= 0x10_0000,
                    0 < hs <= 0x2_0000,
            ;
            assert(0 <= rk as int * vs as int <= 0x100_0000_0000) by (nonlinear_arith)
                requires
                    0 <= rk <= 0x10_0000,
                    0 < vs <= 0x10_0000,
            ;
        }
        let x: i64 = p * hs;
        let y: i64 = rk * vs;
        proof {
            assert(0 <= x <= 0x20_0000_0000);
            assert(0 <= y <= 0x100_0000_0000);
            assert((x, y) == spec_layout(n as nat, edges@, hs, vs)[v as int]);
        }
        out.push((x, y));
        v = v + 1;
    }
    proof {
        assert(out@ =~= spec_layout(n as nat, edges@, hs, vs));
    }
    out
}

} // verus!

use vstd::prelude::*;

use crate::anchor::{head_clear, is_isqrt, spec_anchor, spec_isqrt};
use crate::edge::EdgeM;
use crate::graph::{
    edges_distinct, empty_model, has_edge, has_node, edge_idx, lemma_size_nodes_props, node_idx,
    nodes_distinct, spec_add_edge, spec_insert_node, spec_resolve_upto, spec_size_nodes_upto,
    spec_upsert_node, ModelM,
};
use crate::layout::{
    assign_upto, bary_key, count_rank_upto, lemma_count_rank_monotone, sat_cap, spec_final_pos,
    spec_final_ranks, spec_initial_pos, spec_layout, spec_order_iters, spec_reorder_rank,
    spec_sweep_upto, triple_le, triples_upto, max_rank,
};
use crate::node::NodeM;
use crate::parser::{apply_stmt, build_model_from, spec_model, StmtM};
use crate::CompileError;
use crate::spec_generate;

verus! {

// ---------------------------------------------------------------------------
// Determinism
// ---------------------------------------------------------------------------

/// Compiling the same text twice against the same font yields identical
/// output.  `generate_graph` promises its result equals
/// `spec_generate(text, font)`, a function of the text and font alone; any
/// two results that keep that promise are therefore byte-identical.
pub proof fn lemma_generate_deterministic(
    text: Seq<char>,
    font: Seq<u8>,
    r1: Result<Seq<char>, CompileError>,
    r2: Result<Seq<char>, CompileError>,
)
    requires
        r1 == spec_generate(text, font),
        r2 == spec_generate(text, font),
    ensures
        r1 == r2,
{
}

// ---------------------------------------------------------------------------
// The model invariant at the spec level
// ---------------------------------------------------------------------------

/// Node ids and edge endpoint pairs of a model are distinct.
pub open spec fn model_wf(m: ModelM) -> bool {
    nodes_distinct(m.nodes) && edges_distinct(m.edges)
}

/// The node a model holds under an id.
pub open spec fn the_node(nodes: Seq<NodeM>, id: Seq<char>) -> NodeM {
    nodes[node_idx(nodes, id)]
}

/// The edge a model holds under an ordered endpoint pair.
pub open spec fn the_edge(
    edges: Seq<crate::graph::EdgeRecM>,
    source: Seq<char>,
    target: Seq<char>,
) -> EdgeM {
    edges[edge_idx(edges, source, target)].edge
}

/// Inserting without overwrite keeps the invariant; the node under the
/// inserted id is the old one when present, else the new one; every other
/// id is untouched.
pub proof fn lemma_insert_node(m: ModelM, n: NodeM)
    requires
        model_wf(m),
    ensures
        model_wf(spec_insert_node(m, n)),
        has_node(spec_insert_node(m, n).nodes, n.id),
        !has_node(m.nodes, n.id) ==> the_node(spec_insert_node(m, n).nodes, n.id) == n,
        has_node(m.nodes, n.id) ==> spec_insert_node(m, n) == m,
        forall|id: Seq<char>|
            id != n.id ==> (#[trigger] has_node(spec_insert_node(m, n).nodes, id) == has_node(
                m.nodes,
                id,
            ) && (has_node(m.nodes, id) ==> the_node(spec_insert_node(m, n).nodes, id) == the_node(
                m.nodes,
                id,
            ))),
        spec_insert_node(m, n).edges == m.edges,
{
    if !has_node(m.nodes, n.id) {
        let nodes2 = m.nodes.push(n);
        assert(nodes2[nodes2.len() - 1] == n);
        assert forall|id: Seq<char>| id != n.id implies #[trigger] has_node(nodes2, id)
            == has_node(m.nodes, id) by {
            if has_node(nodes2, id) {
                let j = choose|j: int| 0 <= j < nodes2.len() && nodes2[j].id == id;
                assert(j < m.nodes.len() && m.nodes[j].id == id);
            }
            if has_node(m.nodes, id) {
                let j = choose|j: int| 0 <= j < m.nodes.len() && m.nodes[j].id == id;
                assert(nodes2[j].id == id);
            }
        }
        assert forall|id: Seq<char>| id != n.id && has_node(m.nodes, id) implies the_node(
            nodes2,
            id,
        ) == the_node(m.nodes, id) by {
            let j1 = node_idx(nodes2, id);
            let j2 = node_idx(m.nodes, id);
            assert(0 <= j2 < m.nodes.len() && m.nodes[j2].id == id);
            assert(nodes2[j2].id == id);
            assert(0 <= j1 < nodes2.len() && nodes2[j1].id == id);
            assert(j1 < m.nodes.len());
            if j1 != j2 {
                assert(m.nodes[j1].id == m.nodes[j2].id);
                assert(false);
            }
        }
        assert(the_node(nodes2, n.id) == n) by {
            let j = node_idx(nodes2, n.id);
            assert(nodes2[nodes2.len() - 1].id == n.id);
            assert(0 <= j < nodes2.len() && nodes2[j].id == n.id);
            if j != nodes2.len() - 1 {
                assert(m.nodes[j].id == n.id);
                assert(has_node(m.nodes, n.id));
                assert(false);
            }
        }
    }
}

/// Overwriting insert keeps the invariant; the node under the inserted id
/// becomes exactly the new node; every other id is untouched.
pub proof fn lemma_upsert_node(m: ModelM, n: NodeM)
    requires
        model_wf(m),
    ensures
        model_wf(spec_upsert_node(m, n)),
        has_node(spec_upsert_node(m, n).nodes, n.id),
        the_node(spec_upsert_node(m, n).nodes, n.id) == n,
        forall|id: Seq<char>|
            id != n.id ==> (#[trigger] has_node(spec_upsert_node(m, n).nodes, id) == has_node(
                m.nodes,
                id,
            ) && (has_node(m.nodes, id) ==> the_node(spec_upsert_node(m, n).nodes, id) == the_node(
                m.nodes,
                id,
            ))),
        spec_upsert_node(m, n).edges == m.edges,
{
    if has_node(m.nodes, n.id) {
        let k = node_idx(m.nodes, n.id);
        assert(0 <= k < m.nodes.len() && m.nodes[k].id == n.id);
        let nodes2 = m.nodes.update(k, n);
        assert(nodes2[k] == n);
        assert forall|i: int, j: int| 0 <= i < j < nodes2.len() implies nodes2[i].id
            != nodes2[j].id by {
            assert(m.nodes[i].id != m.nodes[j].id);
        }
        assert forall|id: Seq<char>| id != n.id implies #[trigger] has_node(nodes2, id)
            == has_node(m.nodes, id) by {
            if has_node(nodes2, id) {
                let j = choose|j: int| 0 <= j < nodes2.len() && nodes2[j].id == id;
                assert(j != k);
                assert(m.nodes[j].id == id);
            }
            if has_node(m.nodes, id) {
                let j = choose|j: int| 0 <= j < m.nodes.len() && m.nodes[j].id == id;
                assert(j != k);
                assert(nodes2[j].id == id);
            }
        }
        assert forall|id: Seq<char>| id != n.id && has_node(m.nodes, id) implies the_node(
            nodes2,
            id,
        ) == the_node(m.nodes, id) by {
            let j1 = node_idx(nodes2, id);
            let j2 = node_idx(m.nodes, id);
            assert(0 <= j2 < m.nodes.len() && m.nodes[j2].id == id);
            assert(j2 != k);
            assert(nodes2[j2].id == id);
            assert(0 <= j1 < nodes2.len() && nodes2[j1].id == id);
            assert(j1 != k);
            if j1 != j2 {
                assert(m.nodes[j1].id == m.nodes[j2].id);
                assert(false);
            }
        }
        assert(the_node(nodes2, n.id) == n) by {
            let j = node_idx(nodes2, n.id);
            assert(0 <= j < nodes2.len() && nodes2[j].id == n.id);
            if j != k {
                assert(m.nodes[j].id == n.id);
                assert(false);
            }
        }
    } else {
        lemma_insert_node(m, n);
    }
}

/// Adding an edge keeps the invariant and the nodes; the edge under the
/// pair becomes exactly the new edge; every other pair is untouched.
pub proof fn lemma_add_edge(m: ModelM, s: Seq<char>, t: Seq<char>, e: EdgeM)
    requires
        model_wf(m),
    ensures
        model_wf(spec_add_edge(m, s, t, e)),
        has_edge(spec_add_edge(m, s, t, e).edges, s, t),
        the_edge(spec_add_edge(m, s, t, e).edges, s, t) == e,
        forall|a: Seq<char>, b: Seq<char>|
            !(a == s && b == t) ==> (#[trigger] has_edge(spec_add_edge(m, s, t, e).edges, a, b)
                == has_edge(m.edges, a, b) && (has_edge(m.edges, a, b) ==> the_edge(
                spec_add_edge(m, s, t, e).edges,
                a,
                b,
            ) == the_edge(m.edges, a, b))),
        spec_add_edge(m, s, t, e).nodes == m.nodes,
{
    let rec = crate::graph::EdgeRecM { source: s, target: t, edge: e };
    if has_edge(m.edges, s, t) {
        let k = edge_idx(m.edges, s, t);
        assert(0 <= k < m.edges.len() && m.edges[k].source == s && m.edges[k].target == t);
        let edges2 = m.edges.update(k, rec);
        assert(edges2[k] == rec);
        assert forall|i: int, j: int| 0 <= i < j < edges2.len() implies !(edges2[i].source
            == edges2[j].source && edges2[i].target == edges2[j].target) by {
            assert(!(m.edges[i].source == m.edges[j].source && m.edges[i].target
                == m.edges[j].target));
        }
        assert forall|a: Seq<char>, b: Seq<char>| !(a == s && b == t) implies #[trigger] has_edge(
            edges2,
            a,
            b,
        ) == has_edge(m.edges, a, b) by {
            if has_edge(edges2, a, b) {
                let j = choose|j: int|
                    0 <= j < edges2.len() && edges2[j].source == a && edges2[j].target == b;
                assert(j != k);
                assert(m.edges[j].source == a && m.edges[j].target == b);
            }
            if has_edge(m.edges, a, b) {
                let j = choose|j: int|
                    0 <= j < m.edges.len() && m.edges[j].source == a && m.edges[j].target == b;
                assert(j != k);
                assert(edges2[j].source == a && edges2[j].target == b);
            }
        }
        assert forall|a: Seq<char>, b: Seq<char>|
            !(a == s && b == t) && has_edge(m.edges, a, b) implies the_edge(edges2, a, b)
            == the_edge(m.edges, a, b) by {
            let j1 = edge_idx(edges2, a, b);
            let j2 = edge_idx(m.edges, a, b);
            assert(0 <= j2 < m.edges.len() && m.edges[j2].source == a && m.edges[j2].target == b);
            assert(j2 != k);
            assert(edges2[j2].source == a && edges2[j2].target == b);
            assert(0 <= j1 < edges2.len() && edges2[j1].source == a && edges2[j1].target == b);
            assert(j1 != k);
            if j1 != j2 {
                assert(false);
            }
        }
        assert(the_edge(edges2, s, t) == e) by {
            let j = edge_idx(edges2, s, t);
            assert(0 <= j < edges2.len() && edges2[j].source == s && edges2[j].target == t);
            if j != k {
                assert(false);
            }
        }
    } else {
        let edges2 = m.edges.push(rec);
        assert(edges2[edges2.len() - 1] == rec);
        assert forall|a: Seq<char>, b: Seq<char>| !(a == s && b == t) implies #[trigger] has_edge(
            edges2,
            a,
            b,
        ) == has_edge(m.edges, a, b) by {
            if has_edge(edges2, a, b) {
                let j = choose|j: int|
                    0 <= j < edges2.len() && edges2[j].source == a && edges2[j].target == b;
                assert(j < m.edges.len() && m.edges[j].source == a && m.edges[j].target == b);
            }
            if has_edge(m.edges, a, b) {
                let j = choose|j: int|
                    0 <= j < m.edges.len() && m.edges[j].source == a && m.edges[j].target == b;
                assert(edges2[j].source == a && edges2[j].target == b);
            }
        }
        assert forall|a: Seq<char>, b: Seq<char>|
            !(a == s && b == t) && has_edge(m.edges, a, b) implies the_edge(edges2, a, b)
            == the_edge(m.edges, a, b) by {
            let j1 = edge_idx(edges2, a, b);
            let j2 = edge_idx(m.edges, a, b);
            assert(0 <= j2 < m.edges.len() && m.edges[j2].source == a && m.edges[j2].target == b);
            assert(edges2[j2].source == a && edges2[j2].target == b);
            assert(0 <= j1 < edges2.len() && edges2[j1].source == a && edges2[j1].target == b);
            if j1 != j2 {
                if j1 < m.edges.len() && j2 < m.edges.len() {
                    assert(false);
                }
                assert(false);
            }
        }
        assert(the_edge(edges2, s, t) == e) by {
            let j = edge_idx(edges2, s, t);
            assert(edges2[edges2.len() - 1].source == s && edges2[edges2.len() - 1].target == t);
            assert(0 <= j < edges2.len() && edges2[j].source == s && edges2[j].target == t);
            if j != edges2.len() - 1 {
                assert(m.edges[j].source == s && m.edges[j].target == t);
                assert(has_edge(m.edges, s, t));
                assert(false);
            }
        }
    }
}

/// Every statement keeps the model invariant.
pub proof fn lemma_apply_stmt_wf(m: ModelM, s: StmtM)
    requires
        model_wf(m),
    ensures
        model_wf(apply_stmt(m, s)),
{
    match s {
        StmtM::NodeDecl(n) => {
            lemma_upsert_node(m, n);
        },
        StmtM::EdgeDecl(src, tgt, e) => {
            lemma_insert_node(m, src);
            let m1 = spec_insert_node(m, src);
            lemma_insert_node(m1, tgt);
            let m2 = spec_insert_node(m1, tgt);
            lemma_add_edge(m2, src.id, tgt.id, e);
        },
    }
}

/// The model of any statement prefix satisfies the invariant: node ids
/// and edge endpoint pairs are distinct.
pub proof fn lemma_model_wf(stmts: Seq<StmtM>, i: int)
    requires
        0 <= i <= stmts.len(),
    ensures
        model_wf(build_model_from(empty_model(), stmts, i)),
    decreases i,
{
    if i > 0 {
        lemma_model_wf(stmts, i - 1);
        lemma_apply_stmt_wf(build_model_from(empty_model(), stmts, i - 1), stmts[i - 1]);
    }
}

// ---------------------------------------------------------------------------
// Node identity
// ---------------------------------------------------------------------------

/// The ids one statement mentions.
pub open spec fn stmt_ids(s: StmtM) -> Set<Seq<char>> {
    match s {
        StmtM::NodeDecl(n) => set![n.id],
        StmtM::EdgeDecl(a, b, _) => set![a.id, b.id],
    }
}

/// The ids the first `i` statements mention.
pub open spec fn referenced_ids_upto(stmts: Seq<StmtM>, i: int) -> Set<Seq<char>>
    decreases i when 0 <= i <= stmts.len()
{
    if i <= 0 {
        Set::empty()
    } else {
        referenced_ids_upto(stmts, i - 1).union(stmt_ids(stmts[i - 1]))
    }
}

/// The set of ids a node list holds.
pub open spec fn node_ids(nodes: Seq<NodeM>) -> Set<Seq<char>> {
    nodes.map_values(|n: NodeM| n.id).to_set()
}

/// An id is in the id set exactly when some node holds it.
pub proof fn lemma_node_ids_has(nodes: Seq<NodeM>, id: Seq<char>)
    ensures
        node_ids(nodes).contains(id) == has_node(nodes, id),
{
    let ids = nodes.map_values(|n: NodeM| n.id);
    if has_node(nodes, id) {
        let j = choose|j: int| 0 <= j < nodes.len() && nodes[j].id == id;
        assert(ids[j] == id);
        assert(ids.contains(id));
    }
    if ids.to_set().contains(id) {
        let j = choose|j: int| 0 <= j < ids.len() && ids[j] == id;
        assert(nodes[j].id == id);
    }
}

/// One statement grows the model's id set by exactly the ids it mentions.
pub proof fn lemma_apply_stmt_ids(m: ModelM, s: StmtM)
    requires
        model_wf(m),
    ensures
        node_ids(apply_stmt(m, s).nodes) =~= node_ids(m.nodes).union(stmt_ids(s)),
{
    match s {
        StmtM::NodeDecl(n) => {
            lemma_upsert_node(m, n);
            let nodes2 = spec_upsert_node(m, n).nodes;
            assert forall|id: Seq<char>| #[trigger]
                node_ids(nodes2).contains(id) == (node_ids(m.nodes).union(stmt_ids(s)).contains(
                    id,
                )) by {
                lemma_node_ids_has(nodes2, id);
                lemma_node_ids_has(m.nodes, id);
            }
        },
        StmtM::EdgeDecl(a, b, _) => {
            lemma_insert_node(m, a);
            let m1 = spec_insert_node(m, a);
            lemma_insert_node(m1, b);
            let m2 = spec_insert_node(m1, b);
            let nodes3 = apply_stmt(m, s).nodes;
            assert(nodes3 == m2.nodes);
            assert forall|id: Seq<char>| #[trigger]
                node_ids(nodes3).contains(id) == (node_ids(m.nodes).union(stmt_ids(s)).contains(
                    id,
                )) by {
                lemma_node_ids_has(nodes3, id);
                lemma_node_ids_has(m1.nodes, id);
                lemma_node_ids_has(m.nodes, id);
            }
        },
    }
}

/// The model of the first `i` statements holds exactly the ids they
/// mention.
pub proof fn lemma_node_identity_upto(stmts: Seq<StmtM>, i: int)
    requires
        0 <= i <= stmts.len(),
    ensures
        node_ids(build_model_from(empty_model(), stmts, i).nodes) =~= referenced_ids_upto(
            stmts,
            i,
        ),
    decreases i,
{
    if i <= 0 {
        assert forall|id: Seq<char>| !(#[trigger] node_ids(empty_model().nodes).contains(id)) by {
            lemma_node_ids_has(empty_model().nodes, id);
        }
    } else {
        lemma_node_identity_upto(stmts, i - 1);
        lemma_model_wf(stmts, i - 1);
        lemma_apply_stmt_ids(build_model_from(empty_model(), stmts, i - 1), stmts[i - 1]);
    }
}

/// Node identity: the model holds one node per distinct id mentioned in
/// the statements, so the number of its nodes equals the number of
/// distinct mentioned ids.
pub proof fn lemma_node_identity(stmts: Seq<StmtM>)
    ensures
        node_ids(spec_model(stmts).nodes) =~= referenced_ids_upto(stmts, stmts.len() as int),
        spec_model(stmts).nodes.len() == referenced_ids_upto(stmts, stmts.len() as int).len(),
{
    lemma_node_identity_upto(stmts, stmts.len() as int);
    lemma_model_wf(stmts, stmts.len() as int);
    let nodes = spec_model(stmts).nodes;
    let ids = nodes.map_values(|n: NodeM| n.id);
    assert(ids.no_duplicates()) by {
        assert forall|i: int, j: int| 0 <= i < ids.len() && 0 <= j < ids.len() && i != j implies
            ids[i] != ids[j] by {
            assert(nodes[i].id == ids[i] && nodes[j].id == ids[j]);
        }
    }
    ids.unique_seq_to_set();
}

// ---------------------------------------------------------------------------
// Explicit over implicit
// ---------------------------------------------------------------------------

/// The last explicit declaration of an id among the first `i` statements.
pub open spec fn last_explicit_upto(stmts: Seq<StmtM>, id: Seq<char>, i: int) -> Option<NodeM>
    decreases i when 0 <= i <= stmts.len()
{
    if i <= 0 {
        Option::None
    } else {
        match stmts[i - 1] {
            StmtM::NodeDecl(d) => if d.id == id {
                Option::Some(d)
            } else {
                last_explicit_upto(stmts, id, i - 1)
            },
            _ => last_explicit_upto(stmts, id, i - 1),
        }
    }
}

/// Explicit over implicit: whenever an id has an explicit declaration,
/// the model's node under that id carries the label and shape of the last
/// such declaration, no matter how many edge mentions of the id come
/// before or after it.
pub proof fn lemma_explicit_over_implicit(stmts: Seq<StmtM>, id: Seq<char>, i: int)
    requires
        0 <= i <= stmts.len(),
    ensures
        match last_explicit_upto(stmts, id, i) {
            Option::Some(d) => {
                let m = build_model_from(empty_model(), stmts, i);
                has_node(m.nodes, id) && the_node(m.nodes, id).label == d.label && the_node(
                    m.nodes,
                    id,
                ).shape == d.shape
            },
            Option::None => true,
        },
    decreases i,
{
    if i > 0 {
        lemma_explicit_over_implicit(stmts, id, i - 1);
        lemma_model_wf(stmts, i - 1);
        let m = build_model_from(empty_model(), stmts, i - 1);
        match stmts[i - 1] {
            StmtM::NodeDecl(d) => {
                lemma_upsert_node(m, d);
            },
            StmtM::EdgeDecl(a, b, e) => {
                lemma_insert_node(m, a);
                let m1 = spec_insert_node(m, a);
                lemma_insert_node(m1, b);
                let m2 = spec_insert_node(m1, b);
                lemma_add_edge(m2, a.id, b.id, e);
                match last_explicit_upto(stmts, id, i - 1) {
                    Option::Some(d) => {
                        assert(has_node(m.nodes, id));
                        if a.id == id {
                            assert(m1 == m);
                        } else {
                            assert(has_node(m1.nodes, id) == has_node(m.nodes, id));
                            assert(the_node(m1.nodes, id) == the_node(m.nodes, id));
                        }
                        assert(has_node(m1.nodes, id));
                        assert(the_node(m1.nodes, id) == the_node(m.nodes, id));
                        if b.id == id {
                            assert(m2 == m1);
                        } else {
                            assert(has_node(m2.nodes, id) == has_node(m1.nodes, id));
                            assert(the_node(m2.nodes, id) == the_node(m1.nodes, id));
                        }
                        assert(has_node(m2.nodes, id));
                        assert(the_node(m2.nodes, id) == the_node(m.nodes, id));
                        let mf = build_model_from(empty_model(), stmts, i);
                        assert(mf == spec_add_edge(m2, a.id, b.id, e));
                        assert(mf.nodes == m2.nodes);
                    },
                    Option::None => {},
                }
            },
        }
    }
}

// ---------------------------------------------------------------------------
// Edge replace-by-key
// ---------------------------------------------------------------------------

/// The last edge declaration for an ordered endpoint pair among the first
/// `i` statements.
pub open spec fn last_edge_decl_upto(
    stmts: Seq<StmtM>,
    s: Seq<char>,
    t: Seq<char>,
    i: int,
) -> Option<EdgeM>
    decreases i when 0 <= i <= stmts.len()
{
    if i <= 0 {
        Option::None
    } else {
        match stmts[i - 1] {
            StmtM::EdgeDecl(a, b, e) => if a.id == s && b.id == t {
                Option::Some(e)
            } else {
                last_edge_decl_upto(stmts, s, t, i - 1)
            },
            _ => last_edge_decl_upto(stmts, s, t, i - 1),
        }
    }
}

/// Replace by key: the model keeps exactly one edge per ordered endpoint
/// pair, and it is the edge of the last declaration for that pair.
pub proof fn lemma_edge_replace(stmts: Seq<StmtM>, s: Seq<char>, t: Seq<char>, i: int)
    requires
        0 <= i <= stmts.len(),
    ensures
        edges_distinct(build_model_from(empty_model(), stmts, i).edges),
        match last_edge_decl_upto(stmts, s, t, i) {
            Option::Some(e) => {
                let m = build_model_from(empty_model(), stmts, i);
                has_edge(m.edges, s, t) && the_edge(m.edges, s, t) == e
            },
            Option::None => true,
        },
    decreases i,
{
    lemma_model_wf(stmts, i);
    if i > 0 {
        lemma_edge_replace(stmts, s, t, i - 1);
        lemma_model_wf(stmts, i - 1);
        let m = build_model_from(empty_model(), stmts, i - 1);
        match stmts[i - 1] {
            StmtM::NodeDecl(d) => {
                lemma_upsert_node(m, d);
            },
            StmtM::EdgeDecl(a, b, e) => {
                lemma_insert_node(m, a);
                let m1 = spec_insert_node(m, a);
                lemma_insert_node(m1, b);
                let m2 = spec_insert_node(m1, b);
                lemma_add_edge(m2, a.id, b.id, e);
                assert(m2.edges == m.edges);
            },
        }
    }
}

// ---------------------------------------------------------------------------
// Anchor non-degeneracy
// ---------------------------------------------------------------------------

/// Every non-negative number has an integer square root.
pub proof fn lemma_isqrt_exists(n: int)
    requires
        n >= 0,
    ensures
        is_isqrt(n, spec_isqrt(n)),
    decreases n,
{
    if n == 0 {
        assert(is_isqrt(0, 0)) by (nonlinear_arith);
    } else {
        lemma_isqrt_exists(n - 1);
        let r = spec_isqrt(n - 1);
        if (r + 1) * (r + 1) <= n {
            assert(is_isqrt(n, r + 1)) by (nonlinear_arith)
                requires
                    is_isqrt(n - 1, r),
                    (r + 1) * (r + 1) <= n,
            ;
        } else {
            assert(is_isqrt(n, r)) by (nonlinear_arith)
                requires
                    is_isqrt(n - 1, r),
                    (r + 1) * (r + 1) > n,
            ;
        }
        let w = choose|w: int| is_isqrt(n, w);
        assert(is_isqrt(n, w));
    }
}

/// No two nodes of one rank hold the same in-rank position.
pub open spec fn rank_pos_distinct(ranks: Seq<i64>, pos: Seq<i64>) -> bool {
    forall|u: int, v: int|
        0 <= u < v < ranks.len() && v < pos.len() && ranks[u] == ranks[v] ==> #[trigger] pos[u]
            != #[trigger] pos[v]
}

/// Counting rank members strictly grows across a member.
pub proof fn lemma_count_rank_strict(ranks: Seq<i64>, r: i64, u: int, v: int)
    requires
        0 <= u < v <= ranks.len(),
        ranks[u] == r,
    ensures
        count_rank_upto(ranks, r, u) < count_rank_upto(ranks, r, v),
    decreases v - u,
{
    lemma_count_rank_monotone(ranks, r, u + 1);
    if v == u + 1 {
    } else {
        lemma_count_rank_strict(ranks, r, u, v - 1);
        lemma_count_rank_monotone(ranks, r, v);
    }
}

/// The initial in-rank positions are distinct within every rank, when the
/// node count stays below the cap.
pub proof fn lemma_initial_pos_distinct(ranks: Seq<i64>)
    requires
        ranks.len() <= 0x10_0000,
    ensures
        rank_pos_distinct(ranks, spec_initial_pos(ranks)),
        forall|w: int|
            0 <= w < ranks.len() ==> #[trigger] spec_initial_pos(ranks)[w] == count_rank_upto(
                ranks,
                ranks[w],
                w,
            ),
{
    let pos = spec_initial_pos(ranks);
    assert forall|w: int| 0 <= w < ranks.len() implies #[trigger] pos[w] == count_rank_upto(
        ranks,
        ranks[w],
        w,
    ) by {
        lemma_count_rank_monotone(ranks, ranks[w], w);
    }
    assert forall|u: int, v: int|
        0 <= u < v < ranks.len() && v < pos.len() && ranks[u] == ranks[v] implies #[trigger] pos[u]
        != #[trigger] pos[v] by {
        lemma_count_rank_strict(ranks, ranks[u], u, v);
        lemma_count_rank_monotone(ranks, ranks[u], u);
        lemma_count_rank_monotone(ranks, ranks[v], v);
    }
}

/// The collected key triples of a rank: their node components strictly
/// increase (so they are distinct), they are exactly the members of the
/// rank, and each member below `i` appears.
pub proof fn lemma_triples_props(
    ranks: Seq<i64>,
    pos: Seq<i64>,
    edges: Seq<(usize, usize)>,
    r: i64,
    i: int,
)
    requires
        0 <= i <= ranks.len(),
        ranks.len() == pos.len(),
        ranks.len() <= usize::MAX,
    ensures
        ({
            let t = triples_upto(ranks, pos, edges, r, i);
            &&& forall|q: int|
                0 <= q < t.len() ==> (#[trigger] t[q]).2 < i && ranks[t[q].2 as int] == r && t[q]
                    == (bary_key(ranks, pos, edges, t[q].2, r), pos[t[q].2 as int], t[q].2)
            &&& forall|q1: int, q2: int|
                0 <= q1 < q2 < t.len() ==> (#[trigger] t[q1]).2 < (#[trigger] t[q2]).2
            &&& forall|w: int|
                0 <= w < i && ranks[w] == r ==> exists|q: int|
                    0 <= q < t.len() && (#[trigger] t[q]).2 == w
        }),
    decreases i,
{
    if i > 0 {
        lemma_triples_props(ranks, pos, edges, r, i - 1);
        let prev = triples_upto(ranks, pos, edges, r, i - 1);
        let t = triples_upto(ranks, pos, edges, r, i);
        if ranks[i - 1] == r {
            assert(t == prev.push(
                (bary_key(ranks, pos, edges, (i - 1) as usize, r), pos[i - 1], (i - 1) as usize),
            ));
            assert forall|w: int| 0 <= w < i && ranks[w] == r implies exists|q: int|
                0 <= q < t.len() && (#[trigger] t[q]).2 == w by {
                if w < i - 1 {
                    let q = choose|q: int| 0 <= q < prev.len() && (#[trigger] prev[q]).2 == w;
                    assert(t[q].2 == w);
                } else {
                    assert(t[t.len() - 1].2 == w);
                }
            }
        } else {
            assert forall|w: int| 0 <= w < i && ranks[w] == r implies exists|q: int|
                0 <= q < t.len() && (#[trigger] t[q]).2 == w by {
                let q = choose|q: int| 0 <= q < prev.len() && (#[trigger] prev[q]).2 == w;
                assert(t[q].2 == w);
            }
        }
    }
}

/// Two sequences with one multiset hold the same elements.
pub proof fn lemma_same_multiset_same_members(
    a: Seq<(i64, i64, usize)>,
    b: Seq<(i64, i64, usize)>,
)
    requires
        a.to_multiset() == b.to_multiset(),
    ensures
        forall|x: (i64, i64, usize)| a.contains(x) == b.contains(x),
{
    broadcast use vstd::seq_lib::group_to_multiset_ensures;

    assert forall|x: (i64, i64, usize)| a.contains(x) == b.contains(x) by {
        assert(a.to_multiset().count(x) == b.to_multiset().count(x));
        assert(a.contains(x) <==> a.to_multiset().count(x) > 0);
        assert(b.contains(x) <==> b.to_multiset().count(x) > 0);
    }
}

/// Walking sorted triples hands each mentioned node its position in the
/// walk; every other node keeps its old position.  Needs the node
/// components to be distinct.
pub proof fn lemma_assign_upto(pos: Seq<i64>, sorted: Seq<(i64, i64, usize)>, k: int)
    requires
        0 <= k <= sorted.len(),
        forall|q1: int, q2: int|
            0 <= q1 < q2 < sorted.len() ==> (#[trigger] sorted[q1]).2 != (#[trigger] sorted[q2]).2,
    ensures
        assign_upto(pos, sorted, k).len() == pos.len(),
        forall|w: int|
            0 <= w < pos.len() && !(exists|q: int|
                0 <= q < k && (#[trigger] sorted[q]).2 == w) ==> #[trigger] assign_upto(
                pos,
                sorted,
                k,
            )[w] == pos[w],
        forall|q: int|
            0 <= q < k && (#[trigger] sorted[q]).2 < pos.len() ==> assign_upto(pos, sorted, k)[sorted[q].2 as int] == sat_cap(q),
    decreases k,
{
    if k > 0 {
        lemma_assign_upto(pos, sorted, k - 1);
        let prev = assign_upto(pos, sorted, k - 1);
        let t = sorted[k - 1];
        let cur = assign_upto(pos, sorted, k);
        assert forall|w: int|
            0 <= w < pos.len() && !(exists|q: int|
                0 <= q < k && (#[trigger] sorted[q]).2 == w) implies #[trigger] cur[w]
            == pos[w] by {
            assert(!(exists|q: int| 0 <= q < k - 1 && (#[trigger] sorted[q]).2 == w));
            assert(t.2 != w);
        }
        assert forall|q: int|
            0 <= q < k && (#[trigger] sorted[q]).2 < pos.len() implies cur[sorted[q].2 as int]
            == sat_cap(q) by {
            if q == k - 1 {
            } else {
                assert(sorted[q].2 != t.2);
            }
        }
    }
}

/// In-rank positions stay between zero and the cap.
pub open spec fn pos_bounded(pos: Seq<i64>) -> bool {
    forall|w: int| 0 <= w < pos.len() ==> 0 <= #[trigger] pos[w] <= 0x10_0000
}

/// Reordering one rank keeps in-rank positions distinct and bounded: the
/// rank's members receive the distinct positions of their sorted triples,
/// and every other node keeps its position.
pub proof fn lemma_reorder_rank_distinct(
    ranks: Seq<i64>,
    pos: Seq<i64>,
    edges: Seq<(usize, usize)>,
    r: i64,
)
    requires
        ranks.len() == pos.len(),
        ranks.len() <= 0x10_0000,
        rank_pos_distinct(ranks, pos),
        pos_bounded(pos),
    ensures
        spec_reorder_rank(ranks, pos, edges, r).len() == pos.len(),
        rank_pos_distinct(ranks, spec_reorder_rank(ranks, pos, edges, r)),
        pos_bounded(spec_reorder_rank(ranks, pos, edges, r)),
{
    broadcast use vstd::seq_lib::group_to_multiset_ensures;

    let t = triples_upto(ranks, pos, edges, r, ranks.len() as int);
    lemma_triples_props(ranks, pos, edges, r, ranks.len() as int);
    let sorted = t.sort_by(triple_le());
    crate::layout::lemma_triple_le_total();
    t.lemma_sort_by_ensures(triple_le());
    lemma_same_multiset_same_members(t, sorted);
    // the collected triples are pairwise distinct
    assert(t.no_duplicates()) by {
        assert forall|q1: int, q2: int|
            0 <= q1 < t.len() && 0 <= q2 < t.len() && q1 != q2 implies t[q1] != t[q2] by {
            if q1 < q2 {
                assert(t[q1].2 < t[q2].2);
            } else {
                assert(t[q2].2 < t[q1].2);
            }
        }
    }
    t.lemma_multiset_has_no_duplicates();
    sorted.lemma_multiset_has_no_duplicates_conv();
    // every sorted triple is a collected one, so its node has rank `r`
    assert forall|q: int| 0 <= q < sorted.len() implies (#[trigger] sorted[q]).2 < ranks.len()
        && ranks[sorted[q].2 as int] == r by {
        assert(sorted.contains(sorted[q]));
        assert(t.contains(sorted[q]));
        let j = choose|j: int| 0 <= j < t.len() && t[j] == sorted[q];
    }
    // distinct sorted triples have distinct nodes
    assert forall|q1: int, q2: int| 0 <= q1 < q2 < sorted.len() implies (#[trigger] sorted[q1]).2
        != (#[trigger] sorted[q2]).2 by {
        assert(sorted.contains(sorted[q1]));
        assert(sorted.contains(sorted[q2]));
        assert(t.contains(sorted[q1]));
        assert(t.contains(sorted[q2]));
        let j1 = choose|j: int| 0 <= j < t.len() && t[j] == sorted[q1];
        let j2 = choose|j: int| 0 <= j < t.len() && t[j] == sorted[q2];
        if sorted[q1].2 == sorted[q2].2 {
            if j1 < j2 {
                assert(t[j1].2 < t[j2].2);
            }
            if j2 < j1 {
                assert(t[j2].2 < t[j1].2);
            }
            assert(j1 == j2);
            assert(sorted[q1] == sorted[q2]);
        }
    }
    lemma_assign_upto(pos, sorted, sorted.len() as int);
    let p2 = spec_reorder_rank(ranks, pos, edges, r);
    assert(p2 == assign_upto(pos, sorted, sorted.len() as int));
    assert(sorted.len() == t.len()) by {
        assert(t.to_multiset() == sorted.to_multiset());
        assert(t.len() == t.to_multiset().len());
        assert(sorted.len() == sorted.to_multiset().len());
    }
    assert(t.len() <= ranks.len()) by {
        lemma_triples_len(ranks, pos, edges, r, ranks.len() as int);
    }
    // members of the rank appear among the sorted triples
    assert forall|w: int| 0 <= w < ranks.len() && ranks[w] == r implies exists|q: int|
        0 <= q < sorted.len() && (#[trigger] sorted[q]).2 == w by {
        let q0 = choose|q: int| 0 <= q < t.len() && (#[trigger] t[q]).2 == w;
        assert(t.contains(t[q0]));
        assert(sorted.contains(t[q0]));
        let q1 = choose|q: int| 0 <= q < sorted.len() && sorted[q] == t[q0];
        assert(sorted[q1].2 == w);
    }
    // positions stay bounded
    assert forall|w: int| 0 <= w < p2.len() implies 0 <= #[trigger] p2[w] <= 0x10_0000 by {
        if exists|q: int| 0 <= q < sorted.len() && (#[trigger] sorted[q]).2 == w {
            let q = choose|q: int| 0 <= q < sorted.len() && (#[trigger] sorted[q]).2 == w;
            assert(p2[w] == sat_cap(q));
        } else {
            assert(p2[w] == pos[w]);
        }
    }
    // positions stay distinct within every rank
    assert forall|u: int, v: int|
        0 <= u < v < ranks.len() && v < p2.len() && ranks[u] == ranks[v] implies #[trigger] p2[u]
        != #[trigger] p2[v] by {
        if ranks[u] == r {
            let qu = choose|q: int| 0 <= q < sorted.len() && (#[trigger] sorted[q]).2 == u;
            let qv = choose|q: int| 0 <= q < sorted.len() && (#[trigger] sorted[q]).2 == v;
            assert(p2[u] == sat_cap(qu));
            assert(p2[v] == sat_cap(qv));
            assert(qu != qv);
            assert(sat_cap(qu) == qu && sat_cap(qv) == qv);
        } else {
            assert forall|q: int| 0 <= q < sorted.len() implies (#[trigger] sorted[q]).2 != u
                && sorted[q].2 != v by {
                assert(ranks[sorted[q].2 as int] == r);
            }
            assert(p2[u] == pos[u]);
            assert(p2[v] == pos[v]);
        }
    }
}

/// At most one triple is collected per node.
pub proof fn lemma_triples_len(
    ranks: Seq<i64>,
    pos: Seq<i64>,
    edges: Seq<(usize, usize)>,
    r: i64,
    i: int,
)
    requires
        0 <= i <= ranks.len(),
    ensures
        triples_upto(ranks, pos, edges, r, i).len() <= i,
    decreases i,
{
    if i > 0 {
        lemma_triples_len(ranks, pos, edges, r, i - 1);
    }
}

/// A whole sweep keeps in-rank positions distinct and bounded.
pub proof fn lemma_sweep_distinct(
    ranks: Seq<i64>,
    pos: Seq<i64>,
    edges: Seq<(usize, usize)>,
    rr: int,
)
    requires
        ranks.len() == pos.len(),
        ranks.len() <= 0x10_0000,
        rank_pos_distinct(ranks, pos),
        pos_bounded(pos),
        rr >= 0,
    ensures
        spec_sweep_upto(ranks, pos, edges, rr).len() == pos.len(),
        rank_pos_distinct(ranks, spec_sweep_upto(ranks, pos, edges, rr)),
        pos_bounded(spec_sweep_upto(ranks, pos, edges, rr)),
    decreases rr,
{
    if rr > 0 {
        lemma_sweep_distinct(ranks, pos, edges, rr - 1);
        lemma_reorder_rank_distinct(
            ranks,
            spec_sweep_upto(ranks, pos, edges, rr - 1),
            edges,
            rr as i64,
        );
    }
}

/// Any number of sweeps keeps in-rank positions distinct and bounded.
pub proof fn lemma_iters_distinct(
    ranks: Seq<i64>,
    pos: Seq<i64>,
    edges: Seq<(usize, usize)>,
    t: nat,
)
    requires
        ranks.len() == pos.len(),
        ranks.len() <= 0x10_0000,
        rank_pos_distinct(ranks, pos),
        pos_bounded(pos),
    ensures
        spec_order_iters(ranks, pos, edges, t).len() == pos.len(),
        rank_pos_distinct(ranks, spec_order_iters(ranks, pos, edges, t)),
        pos_bounded(spec_order_iters(ranks, pos, edges, t)),
    decreases t,
{
    if t > 0 {
        lemma_iters_distinct(ranks, pos, edges, (t - 1) as nat);
        lemma_max_rank_nonneg(ranks, ranks.len() as int);
        lemma_sweep_distinct(
            ranks,
            spec_order_iters(ranks, pos, edges, (t - 1) as nat),
            edges,
            max_rank(ranks) as int,
        );
    }
}

/// The greatest rank never falls below zero.
pub proof fn lemma_max_rank_nonneg(ranks: Seq<i64>, i: int)
    requires
        0 <= i <= ranks.len(),
    ensures
        crate::layout::max_rank_upto(ranks, i) >= 0,
    decreases i,
{
    if i > 0 {
        lemma_max_rank_nonneg(ranks, i - 1);
    }
}

/// One relaxation pass keeps the rank list's length.
pub proof fn lemma_relax_pass_len(
    ranks: Seq<i64>,
    edges: Seq<(usize, usize)>,
    i: int,
    cap: i64,
)
    requires
        0 <= i <= edges.len(),
    ensures
        crate::layout::relax_pass_upto(ranks, edges, i, cap).len() == ranks.len(),
    decreases i,
{
    if i > 0 {
        lemma_relax_pass_len(ranks, edges, i - 1, cap);
    }
}

/// Any number of relaxation rounds keeps the rank list's length.
pub proof fn lemma_relax_rounds_len(
    ranks: Seq<i64>,
    edges: Seq<(usize, usize)>,
    rounds: nat,
    cap: i64,
)
    ensures
        crate::layout::relax_rounds(ranks, edges, rounds, cap).len() == ranks.len(),
    decreases rounds,
{
    if rounds > 0 {
        lemma_relax_rounds_len(ranks, edges, (rounds - 1) as nat, cap);
        lemma_relax_pass_len(
            crate::layout::relax_rounds(ranks, edges, (rounds - 1) as nat, cap),
            edges,
            edges.len() as int,
            cap,
        );
    }
}

/// There is one rank per node.
pub proof fn lemma_final_ranks_len(n: nat, edges: Seq<(usize, usize)>)
    ensures
        spec_final_ranks(n, edges).len() == n,
{
    lemma_relax_rounds_len(
        Seq::new(n, |i: int| 0i64),
        crate::layout::spec_eff_edges(n, edges),
        (crate::layout::rank_cap(n) + 1) as nat,
        crate::layout::rank_cap(n),
    );
}

/// One relaxation pass keeps every rank between zero and the cap.
pub proof fn lemma_relax_pass_bounds(
    ranks: Seq<i64>,
    edges: Seq<(usize, usize)>,
    i: int,
    cap: i64,
)
    requires
        0 <= i <= edges.len(),
        0 <= cap,
        forall|w: int| 0 <= w < ranks.len() ==> 0 <= #[trigger] ranks[w] <= cap,
    ensures
        forall|w: int|
            0 <= w < crate::layout::relax_pass_upto(ranks, edges, i, cap).len() ==> 0
                <= #[trigger] crate::layout::relax_pass_upto(ranks, edges, i, cap)[w] <= cap,
    decreases i,
{
    if i > 0 {
        lemma_relax_pass_bounds(ranks, edges, i - 1, cap);
        let prev = crate::layout::relax_pass_upto(ranks, edges, i - 1, cap);
        let cur = crate::layout::relax_pass_upto(ranks, edges, i, cap);
        assert(cur == crate::layout::relax_edge(prev, edges[i - 1].0, edges[i - 1].1, cap));
        assert forall|w: int| 0 <= w < cur.len() implies 0 <= #[trigger] cur[w] <= cap by {
            assert(0 <= prev[w] <= cap);
        }
    }
}

/// Any number of relaxation rounds keeps every rank between zero and the
/// cap.
pub proof fn lemma_relax_rounds_bounds(
    ranks: Seq<i64>,
    edges: Seq<(usize, usize)>,
    rounds: nat,
    cap: i64,
)
    requires
        0 <= cap,
        forall|w: int| 0 <= w < ranks.len() ==> 0 <= #[trigger] ranks[w] <= cap,
    ensures
        forall|w: int|
            0 <= w < crate::layout::relax_rounds(ranks, edges, rounds, cap).len() ==> 0
                <= #[trigger] crate::layout::relax_rounds(ranks, edges, rounds, cap)[w] <= cap,
    decreases rounds,
{
    if rounds > 0 {
        lemma_relax_rounds_bounds(ranks, edges, (rounds - 1) as nat, cap);
        lemma_relax_pass_len(
            crate::layout::relax_rounds(ranks, edges, (rounds - 1) as nat, cap),
            edges,
            edges.len() as int,
            cap,
        );
        lemma_relax_pass_bounds(
            crate::layout::relax_rounds(ranks, edges, (rounds - 1) as nat, cap),
            edges,
            edges.len() as int,
            cap,
        );
    }
}

/// Every final rank lies between zero and the rank cap.
pub proof fn lemma_final_ranks_bounds(n: nat, edges: Seq<(usize, usize)>)
    ensures
        forall|w: int|
            0 <= w < spec_final_ranks(n, edges).len() ==> 0 <= #[trigger] spec_final_ranks(
                n,
                edges,
            )[w] <= 0x10_0000,
{
    let eff = crate::layout::spec_eff_edges(n, edges);
    let cap = crate::layout::rank_cap(n);
    lemma_relax_rounds_bounds(Seq::new(n, |i: int| 0i64), eff, (cap + 1) as nat, cap);
}

/// Distinct placement: any two distinct nodes receive distinct centres,
/// whether they share a rank (their x coordinates then differ) or not
/// (their y coordinates then differ).
pub proof fn lemma_positions_distinct(n: nat, edges: Seq<(usize, usize)>, hs: i64, vs: i64)
    requires
        n <= 0x10_0000,
        0 < hs <= 0x2_0000,
        0 < vs <= 0x10_0000,
    ensures
        forall|u: int, v: int|
            0 <= u < v < n ==> (#[trigger] spec_layout(n, edges, hs, vs)[u]) != (
            #[trigger] spec_layout(n, edges, hs, vs)[v]),
{
    lemma_final_ranks_len(n, edges);
    lemma_final_ranks_bounds(n, edges);
    lemma_layout_separation(n, edges, hs, vs);
    let ranks = spec_final_ranks(n, edges);
    assert forall|u: int, v: int| 0 <= u < v < n implies (#[trigger] spec_layout(
        n,
        edges,
        hs,
        vs,
    )[u]) != (#[trigger] spec_layout(n, edges, hs, vs)[v]) by {
        if ranks[u] == ranks[v] {
            assert(spec_layout(n, edges, hs, vs)[u].0 != spec_layout(n, edges, hs, vs)[v].0);
        } else {
            let yu = spec_layout(n, edges, hs, vs)[u].1;
            let yv = spec_layout(n, edges, hs, vs)[v].1;
            assert(yu as int == ranks[u] as int * vs as int && yv as int == ranks[v] as int
                * vs as int) by {
                assert(0 <= ranks[u] as int * vs as int <= 0x100_0000_0000) by (nonlinear_arith)
                    requires
                        0 <= ranks[u] <= 0x10_0000,
                        0 < vs <= 0x10_0000,
                ;
                assert(0 <= ranks[v] as int * vs as int <= 0x100_0000_0000) by (nonlinear_arith)
                    requires
                        0 <= ranks[v] <= 0x10_0000,
                        0 < vs <= 0x10_0000,
                ;
            }
            assert(ranks[u] as int * vs as int != ranks[v] as int * vs as int)
                by (nonlinear_arith)
                requires
                    ranks[u] != ranks[v],
                    0 < vs,
            ;
        }
    }
}

/// Separation within a rank: two distinct nodes that the layout puts in
/// one rank receive centres at least one horizontal spacing apart.
pub proof fn lemma_layout_separation(n: nat, edges: Seq<(usize, usize)>, hs: i64, vs: i64)
    requires
        n <= 0x10_0000,
        0 < hs <= 0x2_0000,
        0 < vs <= 0x10_0000,
    ensures
        forall|u: int, v: int|
            0 <= u < v < n && spec_final_ranks(n, edges)[u] == spec_final_ranks(n, edges)[v]
                ==> (#[trigger] spec_layout(n, edges, hs, vs)[u]).0 + hs <= (#[trigger] spec_layout(
                n,
                edges,
                hs,
                vs,
            )[v]).0 || spec_layout(n, edges, hs, vs)[v].0 + hs <= spec_layout(n, edges, hs, vs)[u].0,
{
    let ranks = spec_final_ranks(n, edges);
    let eff = crate::layout::spec_eff_edges(n, edges);
    lemma_final_ranks_len(n, edges);
    let pos0 = spec_initial_pos(ranks);
    lemma_initial_pos_distinct(ranks);
    assert(pos_bounded(pos0)) by {
        assert forall|w: int| 0 <= w < pos0.len() implies 0 <= #[trigger] pos0[w] <= 0x10_0000 by {
            lemma_count_rank_monotone(ranks, ranks[w], w);
        }
    }
    lemma_iters_distinct(ranks, pos0, eff, crate::layout::ORDER_SWEEPS as nat);
    let pos = spec_final_pos(n, edges);
    assert(pos == spec_order_iters(ranks, pos0, eff, crate::layout::ORDER_SWEEPS as nat));
    assert forall|u: int, v: int|
        0 <= u < v < n && ranks[u] == ranks[v] implies (#[trigger] spec_layout(
        n,
        edges,
        hs,
        vs,
    )[u]).0 + hs <= (#[trigger] spec_layout(n, edges, hs, vs)[v]).0 || spec_layout(
        n,
        edges,
        hs,
        vs,
    )[v].0 + hs <= spec_layout(n, edges, hs, vs)[u].0 by {
        assert(pos[u] != pos[v]);
        assert(0 <= pos[u] <= 0x10_0000 && 0 <= pos[v] <= 0x10_0000);
        let xu = spec_layout(n, edges, hs, vs)[u].0;
        let xv = spec_layout(n, edges, hs, vs)[v].0;
        assert(sat_cap(pos[u] as int) == pos[u] && sat_cap(pos[v] as int) == pos[v]);
        assert(xu as int == pos[u] as int * hs as int && xv as int == pos[v] as int * hs as int)
            by {
            assert(0 <= pos[u] as int * hs as int <= 0x20_0000_0000) by (nonlinear_arith)
                requires
                    0 <= pos[u] <= 0x10_0000,
                    0 < hs <= 0x2_0000,
            ;
            assert(0 <= pos[v] as int * hs as int <= 0x20_0000_0000) by (nonlinear_arith)
                requires
                    0 <= pos[v] <= 0x10_0000,
                    0 < hs <= 0x2_0000,
            ;
        }
        if pos[u] < pos[v] {
            assert(pos[u] as int * hs as int + hs as int <= pos[v] as int * hs as int)
                by (nonlinear_arith)
                requires
                    pos[u] < pos[v],
                    0 < hs,
            ;
        } else {
            assert(pos[v] as int * hs as int + hs as int <= pos[u] as int * hs as int)
                by (nonlinear_arith)
                requires
                    pos[v] < pos[u],
                    0 < hs,
            ;
        }
    }
}

/// The widest-text fold dominates every element and stays between its
/// floor and the sizing cap.
pub proof fn lemma_max_text_w_bounds(sized: Seq<NodeM>, i: int)
    requires
        0 <= i <= sized.len(),
        forall|j: int|
            0 <= j < sized.len() ==> match (#[trigger] sized[j]).size {
                Option::Some(sz) => 20 <= sz.0 <= 0x1_0000 + 20 && 10 <= sz.1 <= 2 * 0x1_0000
                    + 10,
                Option::None => false,
            },
    ensures
        50 <= crate::graph::max_text_w_upto(sized, i) <= 0x1_0000,
        forall|j: int|
            0 <= j < i ==> match (#[trigger] sized[j]).size {
                Option::Some(sz) => sz.0 - 20 <= crate::graph::max_text_w_upto(sized, i),
                Option::None => true,
            },
    decreases i,
{
    if i > 0 {
        lemma_max_text_w_bounds(sized, i - 1);
    }
}

/// No self-overlap: in a successfully built diagram, two distinct nodes
/// that the layout puts in one rank have horizontally disjoint boxes:
/// the distance between their centres, doubled, exceeds the sum of their
/// widths.  The bound on the node count is no loss: a model beyond the
/// layout cap never builds (see `lemma_build_capacity`), so together the
/// two lemmas cover every successful build.
pub proof fn lemma_no_rank_overlap(
    m: ModelM,
    font: Seq<u8>,
    sized: Seq<NodeM>,
    rs: Seq<(usize, usize)>,
)
    requires
        m.nodes.len() <= 0x10_0000,
        spec_size_nodes_upto(font, m.nodes, m.nodes.len() as int) == Result::<
            Seq<NodeM>,
            CompileError,
        >::Ok(sized),
        spec_resolve_upto(sized, m.edges, m.edges.len() as int) == Result::<
            Seq<(usize, usize)>,
            CompileError,
        >::Ok(rs),
    ensures
        ({
            let ledges = crate::graph::spec_layout_edges_upto(rs, rs.len() as int);
            let hs = crate::graph::spec_h_spacing(sized);
            let vs = crate::graph::spec_v_spacing(sized);
            let posns = spec_layout(sized.len(), ledges, hs as i64, vs as i64);
            let ranks = spec_final_ranks(sized.len(), ledges);
            forall|u: int, v: int|
                0 <= u < v < sized.len() && ranks[u] == ranks[v] ==> match (
                    (#[trigger] sized[u]).size,
                    (#[trigger] sized[v]).size,
                ) {
                    (Option::Some(su), Option::Some(sv)) => {
                        let xu = posns[u].0 as int;
                        let xv = posns[v].0 as int;
                        2 * (xv - xu) > su.0 + sv.0 || 2 * (xu - xv) > su.0 + sv.0
                    },
                    _ => false,
                }
        }),
{
    lemma_size_nodes_props(font, m.nodes, sized, m.nodes.len() as int);
    lemma_max_text_w_bounds(sized, sized.len() as int);
    let ledges = crate::graph::spec_layout_edges_upto(rs, rs.len() as int);
    let maxw = crate::graph::max_text_w_upto(sized, sized.len() as int);
    let hs = crate::graph::spec_h_spacing(sized);
    let vs = crate::graph::spec_v_spacing(sized);
    assert(50 <= maxw <= 0x1_0000);
    assert(hs == maxw * 3 / 2);
    assert(2 * hs >= 3 * maxw - 1 && hs <= 0x2_0000 && hs >= 75) by (nonlinear_arith)
        requires
            hs == maxw * 3 / 2,
            50 <= maxw <= 0x1_0000,
    ;
    assert(0 < vs <= 0x10_0000) by {
        lemma_max_h_bounds(sized, sized.len() as int);
    }
    lemma_layout_separation(sized.len(), ledges, hs as i64, vs as i64);
    let posns = spec_layout(sized.len(), ledges, hs as i64, vs as i64);
    let ranks = spec_final_ranks(sized.len(), ledges);
    assert forall|u: int, v: int|
        0 <= u < v < sized.len() && ranks[u] == ranks[v] implies match (
        (#[trigger] sized[u]).size,
        (#[trigger] sized[v]).size,
    ) {
        (Option::Some(su), Option::Some(sv)) => {
            let xu = posns[u].0 as int;
            let xv = posns[v].0 as int;
            2 * (xv - xu) > su.0 + sv.0 || 2 * (xu - xv) > su.0 + sv.0
        },
        _ => false,
    } by {
        assert(posns[u].0 + (hs as i64) <= posns[v].0 || posns[v].0 + (hs as i64) <= posns[u].0);
    }
}

/// A model beyond the layout cap never builds: the compile fails before
/// anything is measured, rather than letting in-rank positions saturate
/// and boxes overlap silently.
pub proof fn lemma_build_capacity(m: ModelM, font: Seq<u8>)
    requires
        m.nodes.len() > 0x10_0000,
    ensures
        crate::graph::spec_build(m, font) == Result::<
            crate::graph::GraphM,
            CompileError,
        >::Err(CompileError::CapacityExceeded),
{
}

/// The tallest-box fold stays non-negative and within the sizing cap.
pub proof fn lemma_max_h_bounds(sized: Seq<NodeM>, i: int)
    requires
        0 <= i <= sized.len(),
        forall|j: int|
            0 <= j < sized.len() ==> match (#[trigger] sized[j]).size {
                Option::Some(sz) => 20 <= sz.0 <= 0x1_0000 + 20 && 10 <= sz.1 <= 2 * 0x1_0000
                    + 10,
                Option::None => false,
            },
    ensures
        0 <= crate::graph::max_h_upto(sized, i) <= 2 * 0x1_0000 + 10,
    decreases i,
{
    if i > 0 {
        lemma_max_h_bounds(sized, i - 1);
    }
}

/// Anchor non-degeneracy: with distinct source and target centres the
/// anchor divides by a length of at least one, and with coincident
/// centres it takes the defined vertical fallback instead; either way the
/// anchor is a well-defined 4-tuple of integers.
pub proof fn lemma_anchor_non_degenerate(
    sx: int,
    sy: int,
    sw: int,
    sh: int,
    tx: int,
    ty: int,
    tw: int,
    th: int,
    shead: crate::edge::EdgeHead,
    thead: crate::edge::EdgeHead,
)
    ensures
        sx == tx && sy == ty ==> spec_anchor(sx, sy, sw, sh, tx, ty, tw, th, shead, thead) == (
            2 * sx,
            2 * sy + sh + head_clear(shead),
            2 * tx,
            2 * ty - (th + head_clear(thead)),
        ),
        !(sx == tx && sy == ty) ==> {
            let dx = 2 * tx - 2 * sx;
            let dy = 2 * ty - 2 * sy;
            spec_isqrt(dx * dx + dy * dy) >= 1
        },
{
    let dx = 2 * tx - 2 * sx;
    let dy = 2 * ty - 2 * sy;
    if !(sx == tx && sy == ty) {
        assert(!(dx == 0 && dy == 0));
        assert(dx * dx + dy * dy >= 1) by (nonlinear_arith)
            requires
                !(dx == 0 && dy == 0),
        ;
        lemma_isqrt_exists(dx * dx + dy * dy);
        let r = spec_isqrt(dx * dx + dy * dy);
        assert(r >= 1) by (nonlinear_arith)
            requires
                is_isqrt(dx * dx + dy * dy, r),
                dx * dx + dy * dy >= 1,
        ;
    }
}

} // verus!

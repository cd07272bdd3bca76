use vstd::prelude::*;

use crate::anchor::{resolve_anchor, spec_anchor};
use crate::edge::{edge_anchor_bounded, Edge, EdgeM};
use crate::layout::{layout_positions, spec_layout};
use crate::node::{node_geometry_bounded, Node, NodeM};
use crate::render::{
    clamp_extent, measure_checked, spec_edge_svg, spec_measure, spec_node_svg, i64_to_string,
    int_str,
};
use crate::CompileError;

verus! {

/// Font size node ids are measured and drawn at.
pub const ID_FONT_SIZE: u32 = 6;

/// Font size node labels are measured and drawn at.
pub const LABEL_FONT_SIZE: u32 = 8;

/// Horizontal padding inside a node box, in pixels.
pub const PAD_X: i64 = 10;

/// Vertical padding inside a node box, in pixels.
pub const PAD_Y: i64 = 5;

// ---------------------------------------------------------------------------
// Models
// ---------------------------------------------------------------------------

/// One edge of the model under construction, keyed by the ids of its
/// endpoints.
pub ghost struct EdgeRecM {
    pub source: Seq<char>,
    pub target: Seq<char>,
    pub edge: EdgeM,
}

/// Mathematical model of a [`GraphBuilder`]: the nodes and edges
/// accumulated so far, in declaration order.
pub ghost struct ModelM {
    pub nodes: Seq<NodeM>,
    pub edges: Seq<EdgeRecM>,
}

/// Whether some node with this id is present.
pub open spec fn has_node(nodes: Seq<NodeM>, id: Seq<char>) -> bool {
    exists|j: int| 0 <= j < nodes.len() && nodes[j].id == id
}

/// The index of the node with this id; meaningful when ids are distinct
/// and the node is present.
pub open spec fn node_idx(nodes: Seq<NodeM>, id: Seq<char>) -> int {
    choose|j: int| 0 <= j < nodes.len() && nodes[j].id == id
}

/// No two nodes share an id.
pub open spec fn nodes_distinct(nodes: Seq<NodeM>) -> bool {
    forall|i: int, j: int| 0 <= i < j < nodes.len() ==> nodes[i].id != nodes[j].id
}

/// Whether some edge with this ordered endpoint pair is present.
pub open spec fn has_edge(edges: Seq<EdgeRecM>, source: Seq<char>, target: Seq<char>) -> bool {
    exists|j: int|
        0 <= j < edges.len() && edges[j].source == source && edges[j].target == target
}

/// The index of the edge with this ordered endpoint pair; meaningful when
/// pairs are distinct and the edge is present.
pub open spec fn edge_idx(edges: Seq<EdgeRecM>, source: Seq<char>, target: Seq<char>) -> int {
    choose|j: int|
        0 <= j < edges.len() && edges[j].source == source && edges[j].target == target
}

/// No two edges share an ordered endpoint pair.
pub open spec fn edges_distinct(edges: Seq<EdgeRecM>) -> bool {
    forall|i: int, j: int|
        0 <= i < j < edges.len() ==> !(edges[i].source == edges[j].source && edges[i].target
            == edges[j].target)
}

/// The empty model.
pub open spec fn empty_model() -> ModelM {
    ModelM { nodes: Seq::empty(), edges: Seq::empty() }
}

/// Insert a node only if its id is absent: an implied mention never
/// overwrites what is already there.
pub open spec fn spec_insert_node(m: ModelM, n: NodeM) -> ModelM {
    if has_node(m.nodes, n.id) {
        m
    } else {
        ModelM { nodes: m.nodes.push(n), edges: m.edges }
    }
}

/// Insert a node, overwriting any entry with the same id in place: an
/// explicit declaration always wins.
pub open spec fn spec_upsert_node(m: ModelM, n: NodeM) -> ModelM {
    if has_node(m.nodes, n.id) {
        ModelM { nodes: m.nodes.update(node_idx(m.nodes, n.id), n), edges: m.edges }
    } else {
        ModelM { nodes: m.nodes.push(n), edges: m.edges }
    }
}

/// Insert an edge, replacing in place any edge with the same ordered
/// endpoint pair: exactly one edge is kept per pair, the later declaration
/// wins, and a replaced edge keeps its declaration position.
pub open spec fn spec_add_edge(m: ModelM, source: Seq<char>, target: Seq<char>, e: EdgeM) -> ModelM {
    let rec = EdgeRecM { source, target, edge: e };
    if has_edge(m.edges, source, target) {
        ModelM { nodes: m.nodes, edges: m.edges.update(edge_idx(m.edges, source, target), rec) }
    } else {
        ModelM { nodes: m.nodes, edges: m.edges.push(rec) }
    }
}

// ---------------------------------------------------------------------------
// Builder
// ---------------------------------------------------------------------------

/// One stored edge with its endpoint ids.
pub struct EdgeRec {
    pub source: String,
    pub target: String,
    pub edge: Edge,
}

impl View for EdgeRec {
    type V = EdgeRecM;

    open spec fn view(&self) -> EdgeRecM {
        EdgeRecM { source: self.source@, target: self.target@, edge: self.edge@ }
    }
}

/// Accumulates nodes and edges from parsed statements into a graph model.
///
/// Nodes are kept deduplicated by id and edges by ordered endpoint pair,
/// both in first-declaration order.
pub struct GraphBuilder {
    pub nodes: Vec<Node>,
    pub edges: Vec<EdgeRec>,
}

impl View for GraphBuilder {
    type V = ModelM;

    open spec fn view(&self) -> ModelM {
        ModelM {
            nodes: self.nodes@.map_values(|n: Node| n@),
            edges: self.edges@.map_values(|e: EdgeRec| e@),
        }
    }
}

impl GraphBuilder {
    /// The builder's invariant: node ids and edge endpoint pairs are
    /// distinct.
    pub open spec fn wf(&self) -> bool {
        nodes_distinct(self@.nodes) && edges_distinct(self@.edges)
    }

    /// A builder holding no nodes and no edges.
    pub fn new() -> (r: GraphBuilder)
        ensures
            r@ == empty_model(),
            r.wf(),
    {
        let r = GraphBuilder { nodes: Vec::new(), edges: Vec::new() };
        proof {
            assert(r@.nodes =~= Seq::<NodeM>::empty());
            assert(r@.edges =~= Seq::<EdgeRecM>::empty());
        }
        r
    }

    /// The index of the node with this id, if present.
    fn find_node(&self, id: &String) -> (r: Option<usize>)
        ensures
            match r {
                Option::Some(i) => i < self@.nodes.len() && self@.nodes[i as int].id == id@,
                Option::None => !has_node(self@.nodes, id@),
            },
    {
        let mut i: usize = 0;
        while i < self.nodes.len()
            invariant
                i <= self@.nodes.len(),
                forall|j: int| 0 <= j < i ==> self@.nodes[j].id != id@,
            decreases self@.nodes.len() - i,
        {
            proof {
                assert(self@.nodes[i as int] == self.nodes@[i as int]@);
            }
            if self.nodes[i].id == *id {
                return Option::Some(i);
            }
            i = i + 1;
        }
        Option::None
    }

    /// The index of the edge with this ordered endpoint pair, if present.
    fn find_edge(&self, source: &String, target: &String) -> (r: Option<usize>)
        ensures
            match r {
                Option::Some(i) => i < self@.edges.len() && self@.edges[i as int].source
                    == source@ && self@.edges[i as int].target == target@,
                Option::None => !has_edge(self@.edges, source@, target@),
            },
    {
        let mut i: usize = 0;
        while i < self.edges.len()
            invariant
                i <= self@.edges.len(),
                forall|j: int|
                    0 <= j < i ==> !(self@.edges[j].source == source@ && self@.edges[j].target
                        == target@),
            decreases self@.edges.len() - i,
        {
            proof {
                assert(self@.edges[i as int] == self.edges@[i as int]@);
            }
            if self.edges[i].source == *source && self.edges[i].target == *target {
                return Option::Some(i);
            }
            i = i + 1;
        }
        Option::None
    }

    /// Insert a node only if its id is absent; used for nodes implied by
    /// edge endpoints, so that an explicit declaration is never clobbered.
    pub fn insert_node(&mut self, node: Node)
        requires
            old(self).wf(),
        ensures
            final(self)@ == spec_insert_node(old(self)@, node@),
            final(self).wf(),
    {
        let ghost m0 = self@;
        match self.find_node(&node.id) {
            Option::Some(_) => {},
            Option::None => {
                self.nodes.push(node);
                proof {
                    assert(self@.nodes =~= m0.nodes.push(node@));
                    assert(self@.edges =~= m0.edges);
                }
            },
        }
    }

    /// Insert a node, overwriting in place any entry with the same id;
    /// used for explicit node declarations, which always win.
    pub fn insert_or_update_node(&mut self, node: Node)
        requires
            old(self).wf(),
        ensures
            final(self)@ == spec_upsert_node(old(self)@, node@),
            final(self).wf(),
    {
        let ghost m0 = self@;
        match self.find_node(&node.id) {
            Option::Some(i) => {
                proof {
                    assert(has_node(m0.nodes, node@.id));
                    let k = node_idx(m0.nodes, node@.id);
                    assert(0 <= k < m0.nodes.len() && m0.nodes[k].id == node@.id);
                    assert(k == i as int);
                }
                self.nodes.set(i, node);
                proof {
                    assert(self@.nodes =~= m0.nodes.update(i as int, node@));
                    assert(self@.edges =~= m0.edges);
                }
            },
            Option::None => {
                self.nodes.push(node);
                proof {
                    assert(self@.nodes =~= m0.nodes.push(node@));
                    assert(self@.edges =~= m0.edges);
                }
            },
        }
    }

    /// Insert an edge, replacing in place any edge with the same ordered
    /// endpoint pair: last declaration wins, first declaration keeps the
    /// position.
    pub fn add_edge(&mut self, source: String, target: String, edge: Edge)
        requires
            old(self).wf(),
        ensures
            final(self)@ == spec_add_edge(old(self)@, source@, target@, edge@),
            final(self).wf(),
    {
        let ghost m0 = self@;
        let ghost srcv = source@;
        let ghost tgtv = target@;
        let ghost edgev = edge@;
        match self.find_edge(&source, &target) {
            Option::Some(i) => {
                proof {
                    assert(has_edge(m0.edges, srcv, tgtv));
                    let k = edge_idx(m0.edges, srcv, tgtv);
                    assert(0 <= k < m0.edges.len() && m0.edges[k].source == srcv
                        && m0.edges[k].target == tgtv);
                    assert(k == i as int);
                }
                self.edges.set(i, EdgeRec { source, target, edge });
                proof {
                    assert(self@.edges =~= m0.edges.update(
                        i as int,
                        EdgeRecM { source: srcv, target: tgtv, edge: edgev },
                    ));
                    assert(self@.nodes =~= m0.nodes);
                }
            },
            Option::None => {
                self.edges.push(EdgeRec { source, target, edge });
                proof {
                    assert(self@.edges =~= m0.edges.push(
                        EdgeRecM { source: srcv, target: tgtv, edge: edgev },
                    ));
                    assert(self@.nodes =~= m0.nodes);
                }
            },
        }
    }
}

// ---------------------------------------------------------------------------
// Finished graph
// ---------------------------------------------------------------------------

/// Mathematical model of a finished [`Graph`].
pub ghost struct GraphM {
    pub nodes: Seq<NodeM>,
    pub edges: Seq<EdgeM>,
}

/// A fully built diagram: nodes with sizes and positions, edges with
/// anchors, ready for rendering.
pub struct Graph {
    pub nodes: Vec<Node>,
    pub edges: Vec<Edge>,
}

impl View for Graph {
    type V = GraphM;

    open spec fn view(&self) -> GraphM {
        GraphM {
            nodes: self.nodes@.map_values(|n: Node| n@),
            edges: self.edges@.map_values(|e: Edge| e@),
        }
    }
}

/// Fold of the content size over the first `i` nodes: the running maxima
/// of `position + size` per axis, from a floor of `(100, 100)`.  Nodes
/// without a position or size do not count.
pub open spec fn size_upto(nodes: Seq<NodeM>, i: int) -> (int, int)
    decreases i when 0 <= i <= nodes.len()
{
    if i <= 0 {
        (100, 100)
    } else {
        let (w, h) = size_upto(nodes, i - 1);
        let n = nodes[i - 1];
        match (n.position, n.size) {
            (Option::Some(p), Option::Some(sz)) => (
                if p.0 + sz.0 > w {
                    p.0 + sz.0
                } else {
                    w
                },
                if p.1 + sz.1 > h {
                    p.1 + sz.1
                } else {
                    h
                },
            ),
            _ => (w, h),
        }
    }
}

/// The content size of a graph: the running maxima over all nodes.
pub open spec fn spec_graph_size(g: GraphM) -> (int, int) {
    size_upto(g.nodes, g.nodes.len() as int)
}

/// Every node's geometry stays inside the layout's coordinate range.
pub open spec fn all_nodes_bounded(nodes: Seq<NodeM>) -> bool {
    forall|i: int| 0 <= i < nodes.len() ==> node_geometry_bounded(#[trigger] nodes[i])
}

/// Every edge's anchor stays inside the anchor arithmetic's range.
pub open spec fn all_edges_bounded(edges: Seq<EdgeM>) -> bool {
    forall|i: int| 0 <= i < edges.len() ==> edge_anchor_bounded(#[trigger] edges[i])
}

impl Graph {
    /// Geometry of every node and every anchor stays inside the ranges
    /// the layout and anchor arithmetic guarantee.
    pub open spec fn wf(&self) -> bool {
        all_nodes_bounded(self@.nodes) && all_edges_bounded(self@.edges)
    }

    /// A graph made of these nodes and edges.
    pub fn new(nodes: Vec<Node>, edges: Vec<Edge>) -> (r: Graph)
        requires
            all_nodes_bounded(nodes@.map_values(|n: Node| n@)),
            all_edges_bounded(edges@.map_values(|e: Edge| e@)),
        ensures
            r@ == (GraphM {
                nodes: nodes@.map_values(|n: Node| n@),
                edges: edges@.map_values(|e: Edge| e@),
            }),
            r.wf(),
    {
        Graph { nodes, edges }
    }

    /// The content size of the diagram: the maximum of `position + size`
    /// over all placed nodes per axis, but never less than 100 by 100.
    pub fn get_size(&self) -> (r: (i64, i64))
        requires
            self.wf(),
        ensures
            (r.0 as int, r.1 as int) == spec_graph_size(self@),
            100 <= r.0 <= 0x1000_0010_0000_0000,
            100 <= r.1 <= 0x1000_0010_0000_0000,
    {
        let mut w: i64 = 100;
        let mut h: i64 = 100;
        let mut i: usize = 0;
        proof {
            lemma_size_upto_bounds(self@.nodes, 0);
        }
        while i < self.nodes.len()
            invariant
                self.wf(),
                i <= self@.nodes.len(),
                (w as int, h as int) == size_upto(self@.nodes, i as int),
                100 <= w <= 0x1000_0010_0000_0000,
                100 <= h <= 0x1000_0010_0000_0000,
            decreases self@.nodes.len() - i,
        {
            let n = &self.nodes[i];
            match (n.position, n.size) {
                (Option::Some(p), Option::Some(sz)) => {
                    proof {
                        assert(node_geometry_bounded(self@.nodes[i as int]));
                    }
                    if p.0 + sz.0 > w {
                        w = p.0 + sz.0;
                    }
                    if p.1 + sz.1 > h {
                        h = p.1 + sz.1;
                    }
                },
                _ => {},
            }
            i = i + 1;
        }
        (w, h)
    }
}

/// The running size maxima never fall below their floor of 100.
pub proof fn lemma_size_upto_bounds(nodes: Seq<NodeM>, i: int)
    requires
        0 <= i <= nodes.len(),
    ensures
        size_upto(nodes, i).0 >= 100,
        size_upto(nodes, i).1 >= 100,
    decreases i,
{
    if i > 0 {
        lemma_size_upto_bounds(nodes, i - 1);
    }
}

// ---------------------------------------------------------------------------
// Sizing pass
// ---------------------------------------------------------------------------

/// A node with its box size filled in from the text metrics: width is the
/// wider of id and label plus horizontal padding on both sides, height is
/// the two text heights plus vertical padding on both sides.  Nothing when
/// either measurement fails.
pub open spec fn spec_sized_node(font: Seq<u8>, n: NodeM) -> Option<NodeM> {
    let idm = spec_measure(font, n.id, ID_FONT_SIZE);
    let lbm = match n.label {
        Option::Some(l) => spec_measure(font, l, LABEL_FONT_SIZE),
        Option::None => Option::Some((0u32, 0u32)),
    };
    match (idm, lbm) {
        (Option::Some((iw, ih)), Option::Some((lw, lh))) => {
            let tw = if clamp_extent(iw) > clamp_extent(lw) {
                clamp_extent(iw)
            } else {
                clamp_extent(lw)
            };
            Option::Some(
                NodeM {
                    id: n.id,
                    label: n.label,
                    shape: n.shape,
                    position: n.position,
                    size: Option::Some((tw + 2 * (PAD_X as int), clamp_extent(ih) + clamp_extent(lh) + 2 * (PAD_Y as int))),
                },
            )
        },
        _ => Option::None,
    }
}

/// The first `i` nodes sized, or the first measurement failure.
pub open spec fn spec_size_nodes_upto(font: Seq<u8>, nodes: Seq<NodeM>, i: int) -> Result<
    Seq<NodeM>,
    CompileError,
>
    decreases i when 0 <= i <= nodes.len()
{
    if i <= 0 {
        Result::Ok(Seq::empty())
    } else {
        match spec_size_nodes_upto(font, nodes, i - 1) {
            Result::Err(e) => Result::Err(e),
            Result::Ok(pre) => match spec_sized_node(font, nodes[i - 1]) {
                Option::None => Result::Err(CompileError::MeasurementFailure),
                Option::Some(sn) => Result::Ok(pre.push(sn)),
            },
        }
    }
}

/// The ordered endpoint indices of the first `i` edges, or the first
/// unresolvable endpoint.
pub open spec fn spec_resolve_upto(nodes: Seq<NodeM>, edges: Seq<EdgeRecM>, i: int) -> Result<
    Seq<(usize, usize)>,
    CompileError,
>
    decreases i when 0 <= i <= edges.len()
{
    if i <= 0 {
        Result::Ok(Seq::empty())
    } else {
        match spec_resolve_upto(nodes, edges, i - 1) {
            Result::Err(e) => Result::Err(e),
            Result::Ok(pre) => {
                let e = edges[i - 1];
                if has_node(nodes, e.source) && has_node(nodes, e.target) {
                    Result::Ok(
                        pre.push(
                            (
                                node_idx(nodes, e.source) as usize,
                                node_idx(nodes, e.target) as usize,
                            ),
                        ),
                    )
                } else {
                    Result::Err(CompileError::IncompleteEdgeError)
                }
            },
        }
    }
}

/// The first `i` resolved pairs with self-loops left out: only edges
/// between distinct nodes constrain the layering.
pub open spec fn spec_layout_edges_upto(rs: Seq<(usize, usize)>, i: int) -> Seq<(usize, usize)>
    decreases i when 0 <= i <= rs.len()
{
    if i <= 0 {
        Seq::empty()
    } else {
        let prev = spec_layout_edges_upto(rs, i - 1);
        if rs[i - 1].0 != rs[i - 1].1 {
            prev.push(rs[i - 1])
        } else {
            prev
        }
    }
}

/// The widest text among the first `i` sized nodes, with a floor of 50.
pub open spec fn max_text_w_upto(nodes: Seq<NodeM>, i: int) -> int
    decreases i when 0 <= i <= nodes.len()
{
    if i <= 0 {
        50
    } else {
        let prev = max_text_w_upto(nodes, i - 1);
        match nodes[i - 1].size {
            Option::Some(sz) => if sz.0 - 2 * (PAD_X as int) > prev {
                sz.0 - 2 * (PAD_X as int)
            } else {
                prev
            },
            Option::None => prev,
        }
    }
}

/// The tallest box among the first `i` sized nodes.
pub open spec fn max_h_upto(nodes: Seq<NodeM>, i: int) -> int
    decreases i when 0 <= i <= nodes.len()
{
    if i <= 0 {
        0
    } else {
        let prev = max_h_upto(nodes, i - 1);
        match nodes[i - 1].size {
            Option::Some(sz) => if sz.1 > prev {
                sz.1
            } else {
                prev
            },
            Option::None => prev,
        }
    }
}

/// The horizontal spacing between neighbouring in-rank positions: one and
/// a half times the widest text, with the floor of 50 applied first.
pub open spec fn spec_h_spacing(sized: Seq<NodeM>) -> int {
    max_text_w_upto(sized, sized.len() as int) * 3 / 2
}

/// The vertical spacing between ranks: twice the tallest box plus a gap.
pub open spec fn spec_v_spacing(sized: Seq<NodeM>) -> int {
    2 * max_h_upto(sized, sized.len() as int) + 20
}

/// The sized nodes with their centres filled in from the layout.
pub open spec fn spec_place_nodes(sized: Seq<NodeM>, posns: Seq<(i64, i64)>) -> Seq<NodeM> {
    Seq::new(
        sized.len(),
        |i: int|
            NodeM {
                id: sized[i].id,
                label: sized[i].label,
                shape: sized[i].shape,
                position: if i < posns.len() {
                    Option::Some((posns[i].0 as int, posns[i].1 as int))
                } else {
                    sized[i].position
                },
                size: sized[i].size,
            },
    )
}

/// The first `i` edges with their anchors resolved from the placed nodes.
pub open spec fn spec_anchor_edges_upto(
    placed: Seq<NodeM>,
    edges: Seq<EdgeRecM>,
    rs: Seq<(usize, usize)>,
    i: int,
) -> Seq<EdgeM>
    decreases i when 0 <= i <= edges.len()
{
    if i <= 0 {
        Seq::empty()
    } else {
        let prev = spec_anchor_edges_upto(placed, edges, rs, i - 1);
        let e = edges[i - 1].edge;
        let anchored = if i - 1 < rs.len() && rs[i - 1].0 < placed.len() && rs[i - 1].1
            < placed.len() {
            let s = placed[rs[i - 1].0 as int];
            let t = placed[rs[i - 1].1 as int];
            match (s.position, s.size, t.position, t.size) {
                (
                    Option::Some(sp),
                    Option::Some(ss),
                    Option::Some(tp),
                    Option::Some(ts),
                ) => EdgeM {
                    label: e.label,
                    line: e.line,
                    source_head: e.source_head,
                    target_head: e.target_head,
                    anchor: Option::Some(
                        spec_anchor(
                            sp.0,
                            sp.1,
                            ss.0,
                            ss.1,
                            tp.0,
                            tp.1,
                            ts.0,
                            ts.1,
                            e.source_head,
                            e.target_head,
                        ),
                    ),
                },
                _ => EdgeM {
                    label: e.label,
                    line: e.line,
                    source_head: e.source_head,
                    target_head: e.target_head,
                    anchor: Option::None,
                },
            }
        } else {
            EdgeM {
                label: e.label,
                line: e.line,
                source_head: e.source_head,
                target_head: e.target_head,
                anchor: Option::None,
            }
        };
        prev.push(anchored)
    }
}

/// Once sizing has failed on a prefix, it stays failed.
pub proof fn lemma_size_err_propagates(
    font: Seq<u8>,
    nodes: Seq<NodeM>,
    e: CompileError,
    i: int,
    j: int,
)
    requires
        0 <= i <= j <= nodes.len(),
        spec_size_nodes_upto(font, nodes, i) == Result::<Seq<NodeM>, CompileError>::Err(e),
    ensures
        spec_size_nodes_upto(font, nodes, j) == Result::<Seq<NodeM>, CompileError>::Err(e),
    decreases j - i,
{
    if j > i {
        lemma_size_err_propagates(font, nodes, e, i, j - 1);
    }
}

/// Once resolution has failed on a prefix, it stays failed.
pub proof fn lemma_resolve_err_propagates(
    nodes: Seq<NodeM>,
    edges: Seq<EdgeRecM>,
    e: CompileError,
    i: int,
    j: int,
)
    requires
        0 <= i <= j <= edges.len(),
        spec_resolve_upto(nodes, edges, i) == Result::<Seq<(usize, usize)>, CompileError>::Err(e),
    ensures
        spec_resolve_upto(nodes, edges, j) == Result::<Seq<(usize, usize)>, CompileError>::Err(e),
    decreases j - i,
{
    if j > i {
        lemma_resolve_err_propagates(nodes, edges, e, i, j - 1);
    }
}

/// Sized nodes keep everything but their size, which is freshly set and
/// bounded.
pub proof fn lemma_size_nodes_props(font: Seq<u8>, nodes: Seq<NodeM>, s: Seq<NodeM>, i: int)
    requires
        0 <= i <= nodes.len(),
        spec_size_nodes_upto(font, nodes, i) == Result::<Seq<NodeM>, CompileError>::Ok(s),
    ensures
        s.len() == i,
        forall|j: int|
            0 <= j < i ==> (#[trigger] s[j]).id == nodes[j].id && s[j].label == nodes[j].label
                && s[j].shape == nodes[j].shape && s[j].position == nodes[j].position,
        forall|j: int|
            0 <= j < i ==> match (#[trigger] s[j]).size {
                Option::Some(sz) => 20 <= sz.0 <= 0x1_0000 + 20 && 10 <= sz.1 <= 2 * 0x1_0000
                    + 10,
                Option::None => false,
            },
    decreases i,
{
    if i > 0 {
        match spec_size_nodes_upto(font, nodes, i - 1) {
            Result::Err(_) => {
                assert(false);
            },
            Result::Ok(pre) => {
                lemma_size_nodes_props(font, nodes, pre, i - 1);
            },
        }
    }
}

/// What building a model yields: nodes sized by the text metrics, placed
/// by the layout, and edges anchored from the final geometry; or the
/// first failure.  A model with more nodes than the layout can place
/// distinctly is refused outright, before anything is measured.
pub open spec fn spec_build(m: ModelM, font: Seq<u8>) -> Result<GraphM, CompileError> {
    if m.nodes.len() > 0x10_0000 {
        Result::Err(CompileError::CapacityExceeded)
    } else {
        spec_build_sized(m, font)
    }
}

/// The stages of a build within capacity: sizing, resolution, layout,
/// anchoring.
pub open spec fn spec_build_sized(m: ModelM, font: Seq<u8>) -> Result<GraphM, CompileError> {
    match spec_size_nodes_upto(font, m.nodes, m.nodes.len() as int) {
        Result::Err(e) => Result::Err(e),
        Result::Ok(sized) => match spec_resolve_upto(sized, m.edges, m.edges.len() as int) {
            Result::Err(e) => Result::Err(e),
            Result::Ok(rs) => {
                let ledges = spec_layout_edges_upto(rs, rs.len() as int);
                let hs = spec_h_spacing(sized);
                let vs = spec_v_spacing(sized);
                let posns = spec_layout(sized.len(), ledges, hs as i64, vs as i64);
                let placed = spec_place_nodes(sized, posns);
                Result::Ok(
                    GraphM {
                        nodes: placed,
                        edges: spec_anchor_edges_upto(placed, m.edges, rs, m.edges.len() as int),
                    },
                )
            },
        },
    }
}

/// The index of the node with this id in a plain node list, if present.
fn find_in(nodes: &Vec<Node>, id: &String) -> (r: Option<usize>)
    ensures
        match r {
            Option::Some(i) => i < nodes@.len() && nodes@.map_values(|n: Node| n@)[i as int].id
                == id@,
            Option::None => !has_node(nodes@.map_values(|n: Node| n@), id@),
        },
{
    let mut i: usize = 0;
    while i < nodes.len()
        invariant
            i <= nodes@.len(),
            forall|j: int| 0 <= j < i ==> (#[trigger] nodes@[j])@.id != id@,
        decreases nodes@.len() - i,
    {
        proof {
            assert(nodes@.map_values(|n: Node| n@)[i as int] == nodes@[i as int]@);
        }
        if nodes[i].id == *id {
            return Option::Some(i);
        }
        i = i + 1;
    }
    Option::None
}

impl GraphBuilder {
    fn size_nodes(&self, font: &Vec<u8>) -> (r: Result<Vec<Node>, CompileError>)
        ensures
            match r {
                Result::Ok(v) => spec_size_nodes_upto(font@, self@.nodes, self@.nodes.len() as int)
                    == Result::<Seq<NodeM>, CompileError>::Ok(v@.map_values(|n: Node| n@)),
                Result::Err(e) => spec_size_nodes_upto(
                    font@,
                    self@.nodes,
                    self@.nodes.len() as int,
                ) == Result::<Seq<NodeM>, CompileError>::Err(e),
            },
    {
        let mut out: Vec<Node> = Vec::new();
        let mut i: usize = 0;
        proof {
            assert(out@.map_values(|n: Node| n@) =~= Seq::<NodeM>::empty());
        }
        while i < self.nodes.len()
            invariant
                i <= self@.nodes.len(),
                self@.nodes.len() == self.nodes@.len(),
                spec_size_nodes_upto(font@, self@.nodes, i as int) == Result::<
                    Seq<NodeM>,
                    CompileError,
                >::Ok(out@.map_values(|n: Node| n@)),
            decreases self@.nodes.len() - i,
        {
            let node = &self.nodes[i];
            proof {
                assert(self@.nodes[i as int] == self.nodes@[i as int]@);
            }
            let idm = measure_checked(font, node.id.as_str(), ID_FONT_SIZE);
            let lbm = match &node.label {
                Option::Some(l) => measure_checked(font, l.as_str(), LABEL_FONT_SIZE),
                Option::None => Option::Some((0u32, 0u32)),
            };
            match (idm, lbm) {
                (Option::Some((iw, ih)), Option::Some((lw, lh))) => {
                    let iwc: i64 = if iw > 0x1_0000 {
                        0x1_0000
                    } else {
                        iw as i64
                    };
                    let lwc: i64 = if lw > 0x1_0000 {
                        0x1_0000
                    } else {
                        lw as i64
                    };
                    let ihc: i64 = if ih > 0x1_0000 {
                        0x1_0000
                    } else {
                        ih as i64
                    };
                    let lhc: i64 = if lh > 0x1_0000 {
                        0x1_0000
                    } else {
                        lh as i64
                    };
                    let tw: i64 = if iwc > lwc {
                        iwc
                    } else {
                        lwc
                    };
                    let ghost pre = out@.map_values(|n: Node| n@);
                    let sized = Node {
                        id: node.id.clone(),
                        label: match &node.label {
                            Option::Some(l) => Option::Some(l.clone()),
                            Option::None => Option::None,
                        },
                        shape: node.shape,
                        position: node.position,
                        size: Option::Some((tw + 2 * PAD_X, ihc + lhc + 2 * PAD_Y)),
                    };
                    proof {
                        assert(sized@ == spec_sized_node(font@, self@.nodes[i as int])->0);
                    }
                    out.push(sized);
                    proof {
                        assert(out@.map_values(|n: Node| n@) =~= pre.push(sized@));
                    }
                },
                _ => {
                    proof {
                        assert(spec_sized_node(font@, self@.nodes[i as int]) is None);
                        assert(spec_size_nodes_upto(font@, self@.nodes, i + 1 as int) == Result::<
                            Seq<NodeM>,
                            CompileError,
                        >::Err(CompileError::MeasurementFailure));
                        lemma_size_err_propagates(
                            font@,
                            self@.nodes,
                            CompileError::MeasurementFailure,
                            i + 1 as int,
                            self@.nodes.len() as int,
                        );
                    }
                    return Result::Err(CompileError::MeasurementFailure);
                },
            }
            i = i + 1;
        }
        Result::Ok(out)
    }

    fn resolve_edges(&self, sized: &Vec<Node>) -> (r: Result<Vec<(usize, usize)>, CompileError>)
        requires
            nodes_distinct(sized@.map_values(|n: Node| n@)),
        ensures
            match r {
                Result::Ok(v) => spec_resolve_upto(
                    sized@.map_values(|n: Node| n@),
                    self@.edges,
                    self@.edges.len() as int,
                ) == Result::<Seq<(usize, usize)>, CompileError>::Ok(v@) && v@.len()
                    == self@.edges.len() && (forall|k: int|
                    0 <= k < v@.len() ==> (#[trigger] v@[k]).0 < sized@.len() && v@[k].1
                        < sized@.len()),
                Result::Err(e) => spec_resolve_upto(
                    sized@.map_values(|n: Node| n@),
                    self@.edges,
                    self@.edges.len() as int,
                ) == Result::<Seq<(usize, usize)>, CompileError>::Err(e),
            },
    {
        let ghost sv = sized@.map_values(|n: Node| n@);
        let mut out: Vec<(usize, usize)> = Vec::new();
        let mut i: usize = 0;
        while i < self.edges.len()
            invariant
                i <= self@.edges.len(),
                self@.edges.len() == self.edges@.len(),
                sv == sized@.map_values(|n: Node| n@),
                nodes_distinct(sv),
                spec_resolve_upto(sv, self@.edges, i as int) == Result::<
                    Seq<(usize, usize)>,
                    CompileError,
                >::Ok(out@),
                out@.len() == i,
                forall|k: int|
                    0 <= k < out@.len() ==> (#[trigger] out@[k]).0 < sized@.len() && out@[k].1
                        < sized@.len(),
            decreases self@.edges.len() - i,
        {
            let rec = &self.edges[i];
            proof {
                assert(self@.edges[i as int] == self.edges@[i as int]@);
            }
            let si = find_in(sized, &rec.source);
            let ti = find_in(sized, &rec.target);
            match (si, ti) {
                (Option::Some(u), Option::Some(v)) => {
                    proof {
                        assert(has_node(sv, self@.edges[i as int].source));
                        assert(has_node(sv, self@.edges[i as int].target));
                        let ku = node_idx(sv, self@.edges[i as int].source);
                        assert(0 <= ku < sv.len() && sv[ku].id == self@.edges[i as int].source);
                        assert(ku == u as int);
                        let kv = node_idx(sv, self@.edges[i as int].target);
                        assert(0 <= kv < sv.len() && sv[kv].id == self@.edges[i as int].target);
                        assert(kv == v as int);
                    }
                    out.push((u, v));
                },
                _ => {
                    proof {
                        assert(!(has_node(sv, self@.edges[i as int].source) && has_node(
                            sv,
                            self@.edges[i as int].target,
                        )));
                        assert(spec_resolve_upto(sv, self@.edges, i + 1 as int) == Result::<
                            Seq<(usize, usize)>,
                            CompileError,
                        >::Err(CompileError::IncompleteEdgeError));
                        lemma_resolve_err_propagates(
                            sv,
                            self@.edges,
                            CompileError::IncompleteEdgeError,
                            i + 1 as int,
                            self@.edges.len() as int,
                        );
                    }
                    return Result::Err(CompileError::IncompleteEdgeError);
                },
            }
            i = i + 1;
        }
        Result::Ok(out)
    }

    /// Build the finished diagram: size every node from the text metrics,
    /// lay the nodes out, resolve every edge's anchor, and hand back the
    /// result.  Fails with `CapacityExceeded` when the diagram holds more
    /// nodes than the layout can place distinctly, with
    /// `IncompleteEdgeError` when an edge endpoint does not resolve to a
    /// node, and with `MeasurementFailure` when the metrics collaborator
    /// cannot measure a text.
    pub fn build(&self, font: &Vec<u8>) -> (r: Result<Graph, CompileError>)
        requires
            self.wf(),
        ensures
            match spec_build(self@, font@) {
                Result::Ok(gm) => r matches Result::Ok(g) && g@ == gm && g.wf(),
                Result::Err(e) => r matches Result::Err(e2) && e2 == e,
            },
    {
        if self.nodes.len() > 0x10_0000 {
            return Result::Err(CompileError::CapacityExceeded);
        }
        let ghost m = self@;
        let sized = match self.size_nodes(font) {
            Result::Ok(s) => s,
            Result::Err(e) => {
                return Result::Err(e);
            },
        };
        let ghost sv = sized@.map_values(|n: Node| n@);
        proof {
            lemma_size_nodes_props(font@, m.nodes, sv, m.nodes.len() as int);
            assert(nodes_distinct(sv));
        }
        let rs = match self.resolve_edges(&sized) {
            Result::Ok(v) => v,
            Result::Err(e) => {
                return Result::Err(e);
            },
        };
        // self-loops do not constrain the layering
        let mut ledges: Vec<(usize, usize)> = Vec::new();
        let mut k: usize = 0;
        while k < rs.len()
            invariant
                k <= rs@.len(),
                ledges@ == spec_layout_edges_upto(rs@, k as int),
            decreases rs@.len() - k,
        {
            let (u, v) = rs[k];
            if u != v {
                ledges.push((u, v));
            }
            k = k + 1;
        }
        // spacing from the sizing pass
        let mut maxw: i64 = 50;
        let mut maxh: i64 = 0;
        let mut i: usize = 0;
        while i < sized.len()
            invariant
                i <= sized@.len(),
                sv == sized@.map_values(|n: Node| n@),
                maxw as int == max_text_w_upto(sv, i as int),
                maxh as int == max_h_upto(sv, i as int),
                50 <= maxw <= 0x1_0000,
                0 <= maxh <= 2 * 0x1_0000 + 10,
                forall|j: int|
                    0 <= j < sv.len() ==> match (#[trigger] sv[j]).size {
                        Option::Some(sz) => 20 <= sz.0 <= 0x1_0000 + 20 && 10 <= sz.1 <= 2
                            * 0x1_0000 + 10,
                        Option::None => false,
                    },
            decreases sized@.len() - i,
        {
            proof {
                assert(sv[i as int] == sized@[i as int]@);
            }
            match sized[i].size {
                Option::Some((w, h)) => {
                    if w - 2 * PAD_X > maxw {
                        maxw = w - 2 * PAD_X;
                    }
                    if h > maxh {
                        maxh = h;
                    }
                },
                Option::None => {},
            }
            i = i + 1;
        }
        let hs: i64 = maxw * 3 / 2;
        let vs: i64 = 2 * maxh + 20;
        let posns = layout_positions(sized.len(), &ledges, hs, vs);
        // place every node at its centre
        let mut placed: Vec<Node> = Vec::new();
        let mut i: usize = 0;
        while i < sized.len()
            invariant
                i <= sized@.len(),
                sv == sized@.map_values(|n: Node| n@),
                posns@.len() == sized@.len(),
                placed@.map_values(|n: Node| n@) =~= spec_place_nodes(sv, posns@).take(i as int),
                forall|v: int|
                    0 <= v < posns@.len() ==> 0 <= (#[trigger] posns@[v]).0 <= 0x20_0000_0000
                        && 0 <= posns@[v].1 <= 0x100_0000_0000,
            decreases sized@.len() - i,
        {
            let node = &sized[i];
            proof {
                assert(sv[i as int] == sized@[i as int]@);
            }
            let (x, y) = posns[i];
            let ghost pre = placed@.map_values(|n: Node| n@);
            let p = Node {
                id: node.id.clone(),
                label: match &node.label {
                    Option::Some(l) => Option::Some(l.clone()),
                    Option::None => Option::None,
                },
                shape: node.shape,
                position: Option::Some((x, y)),
                size: node.size,
            };
            proof {
                assert(p@ == spec_place_nodes(sv, posns@)[i as int]);
            }
            placed.push(p);
            proof {
                assert(placed@.map_values(|n: Node| n@) =~= pre.push(p@));
                assert(spec_place_nodes(sv, posns@).take(i + 1 as int) =~= spec_place_nodes(
                    sv,
                    posns@,
                ).take(i as int).push(spec_place_nodes(sv, posns@)[i as int]));
            }
            i = i + 1;
        }
        let ghost pv = placed@.map_values(|n: Node| n@);
        proof {
            assert(spec_place_nodes(sv, posns@).take(sv.len() as int) =~= spec_place_nodes(
                sv,
                posns@,
            ));
            lemma_size_nodes_props(font@, m.nodes, sv, m.nodes.len() as int);
            assert(forall|j: int|
                0 <= j < pv.len() ==> node_geometry_bounded(#[trigger] pv[j]));
        }
        // resolve every edge's anchor from the final geometry
        let mut aedges: Vec<Edge> = Vec::new();
        let mut k: usize = 0;
        while k < self.edges.len()
            invariant
                k <= self@.edges.len(),
                self@.edges.len() == self.edges@.len(),
                pv == placed@.map_values(|n: Node| n@),
                rs@.len() == self@.edges.len(),
                placed@.len() == pv.len(),
                aedges@.map_values(|e: Edge| e@) =~= spec_anchor_edges_upto(
                    pv,
                    self@.edges,
                    rs@,
                    k as int,
                ),
                all_edges_bounded(aedges@.map_values(|e: Edge| e@)),
                forall|j: int|
                    0 <= j < pv.len() ==> node_geometry_bounded(#[trigger] pv[j]),
                forall|j: int|
                    0 <= j < pv.len() ==> match (#[trigger] pv[j]).position {
                        Option::Some(p) => 0 <= p.0 <= 0x100_0000_0000 && 0 <= p.1
                            <= 0x100_0000_0000,
                        Option::None => false,
                    },
            decreases self@.edges.len() - k,
        {
            let rec = &self.edges[k];
            proof {
                assert(self@.edges[k as int] == self.edges@[k as int]@);
            }
            let (u, v) = rs[k];
            let ghost pre = aedges@.map_values(|e: Edge| e@);
            let mut anchor: Option<(i64, i64, i64, i64)> = Option::None;
            if u < placed.len() && v < placed.len() {
                proof {
                    assert(pv[u as int] == placed@[u as int]@);
                    assert(pv[v as int] == placed@[v as int]@);
                }
                match (placed[u].position, placed[u].size, placed[v].position, placed[v].size) {
                    (
                        Option::Some((sx, sy)),
                        Option::Some((sw, sh)),
                        Option::Some((tx, ty)),
                        Option::Some((tw, th)),
                    ) => {
                        let a = resolve_anchor(
                            sx,
                            sy,
                            sw,
                            sh,
                            tx,
                            ty,
                            tw,
                            th,
                            rec.edge.source_head,
                            rec.edge.target_head,
                        );
                        anchor = Option::Some(a);
                    },
                    _ => {},
                }
            }
            let e = Edge {
                label: match &rec.edge.label {
                    Option::Some(l) => Option::Some(l.clone()),
                    Option::None => Option::None,
                },
                line: rec.edge.line,
                source_head: rec.edge.source_head,
                target_head: rec.edge.target_head,
                anchor,
            };
            proof {
                assert(e@ == spec_anchor_edges_upto(pv, self@.edges, rs@, k + 1 as int).last());
            }
            proof {
                assert(edge_anchor_bounded(e@));
            }
            aedges.push(e);
            proof {
                assert(aedges@.map_values(|e: Edge| e@) =~= pre.push(e@));
            }
            k = k + 1;
        }
        let g = Graph::new(placed, aedges);
        Result::Ok(g)
    }
}


/// The markup of the first `i` nodes, in order.
pub open spec fn spec_nodes_svg_upto(font: Seq<u8>, nodes: Seq<NodeM>, i: int) -> Seq<char>
    decreases i when 0 <= i <= nodes.len()
{
    if i <= 0 {
        Seq::empty()
    } else {
        spec_nodes_svg_upto(font, nodes, i - 1) + spec_node_svg(font, nodes[i - 1])
    }
}

/// The markup of the first `i` edges, in order.
pub open spec fn spec_edges_svg_upto(edges: Seq<EdgeM>, i: int) -> Seq<char>
    decreases i when 0 <= i <= edges.len()
{
    if i <= 0 {
        Seq::empty()
    } else {
        spec_edges_svg_upto(edges, i - 1) + spec_edge_svg(edges[i - 1])
    }
}

/// The markup of a whole diagram: one group, shifted in by the margin,
/// holding every node's markup and then every edge's markup.
pub open spec fn spec_graph_svg(g: GraphM, font: Seq<u8>, margin: int) -> Seq<char> {
    "<g id=\"graph\" transform=\"translate("@ + int_str(margin) + ", "@ + int_str(margin)
        + ")\">"@ + spec_nodes_svg_upto(font, g.nodes, g.nodes.len() as int)
        + spec_edges_svg_upto(g.edges, g.edges.len() as int) + "</g>"@
}

impl Graph {
    /// The markup of this diagram, with its texts measured against `font`
    /// and its content shifted in by `margin` pixels.
    pub fn to_svg(&self, font: &Vec<u8>, margin: i64) -> (r: String)
        requires
            self.wf(),
            0 <= margin,
        ensures
            r@ == spec_graph_svg(self@, font@, margin as int),
    {
        let mut nodes_s = String::new();
        let mut i: usize = 0;
        while i < self.nodes.len()
            invariant
                self.wf(),
                i <= self@.nodes.len(),
                nodes_s@ == spec_nodes_svg_upto(font@, self@.nodes, i as int),
            decreases self@.nodes.len() - i,
        {
            proof {
                assert(self@.nodes[i as int] == self.nodes@[i as int]@);
                assert(node_geometry_bounded(self@.nodes[i as int]));
            }
            nodes_s.append(self.nodes[i].to_svg(font).as_str());
            i = i + 1;
        }
        let mut edges_s = String::new();
        let mut k: usize = 0;
        while k < self.edges.len()
            invariant
                self.wf(),
                k <= self@.edges.len(),
                edges_s@ == spec_edges_svg_upto(self@.edges, k as int),
            decreases self@.edges.len() - k,
        {
            proof {
                assert(self@.edges[k as int] == self.edges@[k as int]@);
                assert(edge_anchor_bounded(self@.edges[k as int]));
            }
            edges_s.append(self.edges[k].to_svg().as_str());
            k = k + 1;
        }
        let mut out = String::from_str("<g id=\"graph\" transform=\"translate(");
        out.append(i64_to_string(margin).as_str());
        out.append(", ");
        out.append(i64_to_string(margin).as_str());
        out.append(")\">");
        out.append(nodes_s.as_str());
        out.append(edges_s.as_str());
        out.append("</g>");
        out
    }
}

} // verus!

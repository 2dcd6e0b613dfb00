//! Deriving the graph that is displayed: the shown nodes, the edges between
//! them, and an edge of its own kind wherever one shown node leads to
//! another through hidden nodes only.

use crate::filter::{allowed_in, hidden_in};
use crate::inst_graph::{ends, lemma_edge_listed, Edge, EdgeType, GraphView, InstGraph, VisibleEdge};
use crate::reach::{has_edge, walk_to};
use vstd::prelude::*;

verus! {

/// The shown nodes below `m`, in ascending order.
pub open spec fn shown_nodes(mask: Seq<bool>, m: int) -> Seq<usize>
    decreases m,
{
    if m <= 0 {
        Seq::empty()
    } else {
        let front = shown_nodes(mask, m - 1);
        if mask[m - 1] {
            front.push((m - 1) as usize)
        } else {
            front
        }
    }
}

/// Whether both ends of an edge are shown.
pub open spec fn both_shown(mask: Seq<bool>, e: Edge) -> bool {
    e.from < mask.len() && e.to < mask.len() && mask[e.from as int] && mask[e.to as int]
}

/// An edge of the full graph as an edge of the reduced graph.
pub open spec fn direct_edge(e: Edge, k: int) -> VisibleEdge {
    VisibleEdge {
        from: e.from,
        to: e.to,
        edge_type: EdgeType::Direct(e.kind),
        orig_graph_idx: Some(k as usize),
    }
}

/// The first `k` edges of the full graph whose ends are both shown, in
/// their order.
pub open spec fn direct_edges(edges: Seq<Edge>, mask: Seq<bool>, k: int) -> Seq<VisibleEdge>
    decreases k,
{
    if k <= 0 {
        Seq::empty()
    } else {
        let front = direct_edges(edges, mask, k - 1);
        if both_shown(mask, edges[k - 1]) {
            front.push(direct_edge(edges[k - 1], k - 1))
        } else {
            front
        }
    }
}

/// Whether `u` leads to `v` through hidden nodes: a walk leads from `u` to
/// some node on which every node after `u` is hidden, and an edge leads
/// from that node to `v`.
pub open spec fn linked(es: Seq<(usize, usize)>, mask: Seq<bool>, u: usize, v: usize) -> bool {
    exists|p: usize| walk_to(es, hidden_in(mask), u, p) && #[trigger] has_edge(es, p, v)
}

/// The edge that stands for the walks from `u` to `v` through hidden nodes.
pub open spec fn indirect_edge(u: usize, v: usize) -> VisibleEdge {
    VisibleEdge { from: u, to: v, edge_type: EdgeType::Indirect, orig_graph_idx: None }
}

/// The indirect edges from `u` to the shown nodes below `m`, in ascending
/// order of their ends.
pub open spec fn indirect_row(es: Seq<(usize, usize)>, mask: Seq<bool>, u: usize, m: int) -> Seq<
    VisibleEdge,
>
    decreases m,
{
    if m <= 0 {
        Seq::empty()
    } else {
        let front = indirect_row(es, mask, u, m - 1);
        if mask[m - 1] && linked(es, mask, u, (m - 1) as usize) {
            front.push(indirect_edge(u, (m - 1) as usize))
        } else {
            front
        }
    }
}

/// The indirect edges from the shown nodes below `rows`, in ascending order
/// of their sources and then of their ends.
pub open spec fn indirect_edges(es: Seq<(usize, usize)>, mask: Seq<bool>, rows: int) -> Seq<
    VisibleEdge,
>
    decreases rows,
{
    if rows <= 0 {
        Seq::empty()
    } else {
        let front = indirect_edges(es, mask, rows - 1);
        if mask[rows - 1] {
            front + indirect_row(es, mask, (rows - 1) as usize, mask.len() as int)
        } else {
            front
        }
    }
}

/// The edges of the reduced graph: the direct ones, then the indirect ones.
pub open spec fn reduced_edges(g: GraphView) -> Seq<VisibleEdge> {
    direct_edges(g.edges, g.visible, g.edges.len() as int) + indirect_edges(
        ends(g.edges),
        g.visible,
        g.nodes.len() as int,
    )
}

/// The graph with the reduced graph derived from its mask.
pub open spec fn reduced(g: GraphView) -> GraphView {
    GraphView {
        visible_nodes: shown_nodes(g.visible, g.nodes.len() as int),
        visible_edges: reduced_edges(g),
        ..g
    }
}

/// Deriving the reduced graph again, with the mask unchanged, gives the same
/// nodes and edges, so that neither number is smaller than before.
pub proof fn lemma_reduction_is_idempotent(g: GraphView)
    ensures
        reduced(reduced(g)) == reduced(g),
{
}

/// With every node shown, the shown nodes below `m` are all the nodes below
/// `m`.
pub proof fn lemma_all_shown_nodes(mask: Seq<bool>, m: int)
    requires
        0 <= m <= mask.len(),
        forall|v: int| 0 <= v < mask.len() ==> #[trigger] mask[v],
    ensures
        shown_nodes(mask, m).len() == m,
    decreases m,
{
    if m > 0 {
        lemma_all_shown_nodes(mask, m - 1);
    }
}

/// With every node shown, every edge is an edge of the reduced graph.
pub proof fn lemma_all_direct(edges: Seq<Edge>, mask: Seq<bool>, k: int)
    requires
        0 <= k <= edges.len(),
        crate::inst_graph::edges_ok(edges, mask.len() as int),
        forall|v: int| 0 <= v < mask.len() ==> #[trigger] mask[v],
    ensures
        direct_edges(edges, mask, k).len() == k,
    decreases k,
{
    if k > 0 {
        lemma_all_direct(edges, mask, k - 1);
    }
}

/// With every node shown, no node leads to another through hidden nodes.
pub proof fn lemma_none_linked(es: Seq<(usize, usize)>, mask: Seq<bool>, u: usize, v: usize)
    requires
        forall|w: int| 0 <= w < mask.len() ==> #[trigger] mask[w],
    ensures
        !linked(es, mask, u, v),
{
}

/// With every node shown, there is no indirect edge.
pub proof fn lemma_no_indirect(es: Seq<(usize, usize)>, mask: Seq<bool>, rows: int)
    requires
        0 <= rows <= mask.len(),
        forall|w: int| 0 <= w < mask.len() ==> #[trigger] mask[w],
    ensures
        indirect_edges(es, mask, rows).len() == 0,
    decreases rows,
{
    if rows > 0 {
        lemma_no_indirect(es, mask, rows - 1);
        lemma_no_indirect_row(es, mask, (rows - 1) as usize, mask.len() as int);
    }
}

/// With every node shown, no indirect edge begins at a node.
pub proof fn lemma_no_indirect_row(es: Seq<(usize, usize)>, mask: Seq<bool>, u: usize, m: int)
    requires
        0 <= m <= mask.len(),
        forall|w: int| 0 <= w < mask.len() ==> #[trigger] mask[w],
    ensures
        indirect_row(es, mask, u, m).len() == 0,
    decreases m,
{
    if m > 0 {
        lemma_no_indirect_row(es, mask, u, m - 1);
        lemma_none_linked(es, mask, u, (m - 1) as usize);
    }
}

/// Hiding a node and what follows from it, and showing every node again,
/// brings back the full graph: the reduced graph then has as many nodes and
/// as many edges as the full graph.
pub proof fn lemma_reset_restores_counts(g: GraphView, n: usize)
    requires
        g.wf(),
    ensures
        ({
            let hidden = crate::filter::with_mask(
                g,
                crate::filter::mask_after(g, crate::filter::Filter::Hide(n)),
            );
            let shown = crate::filter::with_mask(
                hidden,
                crate::filter::mask_after(hidden, crate::filter::Filter::Reset),
            );
            &&& reduced(shown).visible_nodes.len() == g.nodes.len()
            &&& reduced(shown).visible_edges.len() == g.edges.len()
        }),
{
    let hidden = crate::filter::with_mask(
        g,
        crate::filter::mask_after(g, crate::filter::Filter::Hide(n)),
    );
    let shown = crate::filter::with_mask(
        hidden,
        crate::filter::mask_after(hidden, crate::filter::Filter::Reset),
    );
    let mask = shown.visible;
    lemma_all_shown_nodes(mask, g.nodes.len() as int);
    lemma_all_direct(g.edges, mask, g.edges.len() as int);
    lemma_no_indirect(ends(g.edges), mask, g.nodes.len() as int);
}

/// From a node without a hidden child no indirect edge begins.
pub proof fn lemma_row_without_hidden_child(
    es: Seq<(usize, usize)>,
    mask: Seq<bool>,
    u: usize,
    m: int,
)
    requires
        forall|c: usize| has_edge(es, u, c) && c < mask.len() ==> mask[c as int],
    ensures
        indirect_row(es, mask, u, m) == Seq::<VisibleEdge>::empty(),
    decreases m,
{
    if m > 0 {
        lemma_row_without_hidden_child(es, mask, u, m - 1);
    }
}

impl InstGraph {
    /// Whether an edge leads from a node to a hidden node. Of what is no
    /// node of the graph this is false.
    pub fn node_has_filtered_children(&self, u: usize) -> (r: bool)
        requires
            self.wf(),
        ensures
            r <==> exists|c: usize|
                #[trigger] has_edge(ends(self.edges@), u, c) && c < self.visible@.len()
                    && !self.visible@[c as int],
    {
        let ghost es = ends(self.edges@);
        if u >= self.nodes.len() {
            proof {
                if exists|c: usize|
                    #[trigger] has_edge(es, u, c) && c < self.visible@.len()
                        && !self.visible@[c as int] {
                    let c = choose|c: usize|
                        #[trigger] has_edge(es, u, c) && c < self.visible@.len()
                            && !self.visible@[c as int];
                    lemma_edge_listed(self, u, c);
                }
            }
            return false;
        }
        let list = &self.children[u];
        let mut j: usize = 0;
        while j < list.len()
            invariant
                0 <= j <= list.len(),
                self.wf(),
                u < self.nodes.len(),
                list == self.children@[u as int],
                es == ends(self.edges@),
                forall|k: int| 0 <= k < j ==> self.visible@[#[trigger] list@[k] as int],
            decreases list.len() - j,
        {
            let c = list[j];
            if !self.visible[c] {
                return true;
            }
            j += 1;
        }
        proof {
            if exists|c: usize|
                #[trigger] has_edge(es, u, c) && c < self.visible@.len() && !self.visible@[c as int] {
                let c = choose|c: usize|
                    #[trigger] has_edge(es, u, c) && c < self.visible@.len()
                        && !self.visible@[c as int];
                lemma_edge_listed(self, u, c);
            }
        }
        false
    }

    /// Whether an edge leads to a node from a hidden node. Of what is no
    /// node of the graph this is false.
    pub fn node_has_filtered_parents(&self, v: usize) -> (r: bool)
        requires
            self.wf(),
        ensures
            r <==> exists|p: usize|
                #[trigger] has_edge(ends(self.edges@), p, v) && p < self.visible@.len()
                    && !self.visible@[p as int],
    {
        let ghost es = ends(self.edges@);
        if v >= self.nodes.len() {
            proof {
                if exists|p: usize|
                    #[trigger] has_edge(es, p, v) && p < self.visible@.len()
                        && !self.visible@[p as int] {
                    let p = choose|p: usize|
                        #[trigger] has_edge(es, p, v) && p < self.visible@.len()
                            && !self.visible@[p as int];
                    lemma_edge_listed(self, p, v);
                }
            }
            return false;
        }
        let list = &self.parents[v];
        let mut j: usize = 0;
        while j < list.len()
            invariant
                0 <= j <= list.len(),
                self.wf(),
                v < self.nodes.len(),
                list == self.parents@[v as int],
                es == ends(self.edges@),
                forall|k: int| 0 <= k < j ==> self.visible@[#[trigger] list@[k] as int],
            decreases list.len() - j,
        {
            let p = list[j];
            if !self.visible[p] {
                return true;
            }
            j += 1;
        }
        proof {
            if exists|p: usize|
                #[trigger] has_edge(es, p, v) && p < self.visible@.len() && !self.visible@[p as int] {
                let p = choose|p: usize|
                    #[trigger] has_edge(es, p, v) && p < self.visible@.len()
                        && !self.visible@[p as int];
                lemma_edge_listed(self, p, v);
            }
        }
        false
    }

    /// Whether an edge leads to `v` from a node that is marked.
    fn has_marked_parent(&self, marked: &Vec<bool>, v: usize) -> (r: bool)
        requires
            self.wf(),
            v < self.nodes.len(),
            marked@.len() == self.nodes@.len(),
        ensures
            r <==> exists|p: usize|
                p < marked@.len() && marked@[p as int] && #[trigger] has_edge(
                    ends(self.edges@),
                    p,
                    v,
                ),
    {
        let list = &self.parents[v];
        let ghost es = ends(self.edges@);
        let mut j: usize = 0;
        while j < list.len()
            invariant
                0 <= j <= list.len(),
                self.wf(),
                v < self.nodes.len(),
                marked@.len() == self.nodes@.len(),
                list == self.parents@[v as int],
                es == ends(self.edges@),
                forall|k: int| 0 <= k < j ==> !marked@[#[trigger] list@[k] as int],
            decreases list.len() - j,
        {
            let p = list[j];
            if marked[p] {
                return true;
            }
            j += 1;
        }
        proof {
            if exists|p: usize|
                p < marked@.len() && marked@[p as int] && #[trigger] has_edge(es, p, v) {
                let p = choose|p: usize|
                    p < marked@.len() && marked@[p as int] && #[trigger] has_edge(es, p, v);
                lemma_edge_listed(self, p, v);
            }
        }
        false
    }

    /// Adds to `out` the indirect edges that begin at `u`.
    fn push_indirect_row(&self, u: usize, out: &mut Vec<VisibleEdge>)
        requires
            self.wf(),
            u < self.nodes.len(),
        ensures
            final(out)@ == old(out)@ + indirect_row(
                ends(self.edges@),
                self.visible@,
                u,
                self.nodes@.len() as int,
            ),
    {
        let n = self.nodes.len();
        let ghost es = ends(self.edges@);
        let ghost mask = self.visible@;
        if !self.node_has_filtered_children(u) {
            proof {
                lemma_row_without_hidden_child(es, mask, u, n as int);
            }
            return;
        }
        let through = self.reach_from(u, true);
        let mut v: usize = 0;
        while v < n
            invariant
                0 <= v <= n,
                n == self.nodes.len(),
                u < n,
                self.wf(),
                es == ends(self.edges@),
                mask == self.visible@,
                through@.len() == n,
                forall|w: int|
                    0 <= w < n ==> (#[trigger] through@[w] <==> walk_to(
                        es,
                        allowed_in(mask, true),
                        u,
                        w as usize,
                    )),
                out@ == old(out)@ + indirect_row(es, mask, u, v as int),
            decreases n - v,
        {
            if self.visible[v] {
                let found = self.has_marked_parent(&through, v);
                proof {
                    if linked(es, mask, u, v) {
                        let p = choose|p: usize|
                            walk_to(es, hidden_in(mask), u, p) && #[trigger] has_edge(es, p, v);
                        lemma_edge_listed(self, p, v);
                    }
                }
                if found {
                    out.push(
                        VisibleEdge {
                            from: u,
                            to: v,
                            edge_type: EdgeType::Indirect,
                            orig_graph_idx: None,
                        },
                    );
                }
            }
            v += 1;
        }
    }

    /// Derives the reduced graph from the mask: the shown nodes, the edges
    /// between them, and the indirect edges. Gives the numbers of its nodes
    /// and edges, and whether each is smaller than it was after the
    /// reduction before.
    pub fn retain_visible_nodes_and_reconnect(&mut self) -> (r: (usize, usize, bool, bool))
        requires
            old(self).wf(),
        ensures
            final(self).wf(),
            final(self)@ == reduced(old(self)@),
            r.0 == final(self)@.visible_nodes.len(),
            r.1 == final(self)@.visible_edges.len(),
            r.2 == (final(self)@.visible_nodes.len() < old(self)@.visible_nodes.len()),
            r.3 == (final(self)@.visible_edges.len() < old(self)@.visible_edges.len()),
    {
        let n = self.nodes.len();
        let ghost es = ends(self.edges@);
        let ghost mask = self.visible@;
        let mut nodes: Vec<usize> = Vec::new();
        let mut v: usize = 0;
        while v < n
            invariant
                0 <= v <= n,
                n == self.nodes.len(),
                self.wf(),
                *self == *old(self),
                nodes@ == shown_nodes(self.visible@, v as int),
            decreases n - v,
        {
            if self.visible[v] {
                nodes.push(v);
            }
            v += 1;
        }
        let mut edges: Vec<VisibleEdge> = Vec::new();
        let mut k: usize = 0;
        while k < self.edges.len()
            invariant
                0 <= k <= self.edges.len(),
                n == self.nodes.len(),
                self.wf(),
                *self == *old(self),
                edges@ == direct_edges(self.edges@, self.visible@, k as int),
            decreases self.edges.len() - k,
        {
            let e = self.edges[k];
            if self.visible[e.from] && self.visible[e.to] {
                edges.push(
                    VisibleEdge {
                        from: e.from,
                        to: e.to,
                        edge_type: EdgeType::Direct(e.kind),
                        orig_graph_idx: Some(k),
                    },
                );
            }
            k += 1;
        }
        let ghost direct = edges@;
        let mut u: usize = 0;
        while u < n
            invariant
                0 <= u <= n,
                n == self.nodes.len(),
                self.wf(),
                *self == *old(self),
                es == ends(self.edges@),
                mask == self.visible@,
                edges@ == direct + indirect_edges(es, mask, u as int),
            decreases n - u,
        {
            if self.visible[u] {
                self.push_indirect_row(u, &mut edges);
            }
            u += 1;
        }
        let node_count = nodes.len();
        let edge_count = edges.len();
        let fewer_nodes = node_count < self.visible_nodes.len();
        let fewer_edges = edge_count < self.visible_edges.len();
        self.visible_nodes = nodes;
        self.visible_edges = edges;
        (node_count, edge_count, fewer_nodes, fewer_edges)
    }
}

} // verus!

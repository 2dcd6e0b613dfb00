//! The graph of instantiations with what is shown of it: each node can be
//! shown or hidden, and a reduced graph of the shown nodes is kept for
//! display.

use crate::items::{DepType, InstIdx, QuantIdx};
use crate::reach::{forward, has_edge};
use vstd::prelude::*;

verus! {

/// What a node of the graph says of its instantiation.
#[derive(Debug, Clone, Copy, PartialEq, Eq, Structural)]
pub struct NodeData {
    pub line_nr: usize,
    pub inst_idx: InstIdx,
    pub quant_idx: QuantIdx,
    pub is_theory_inst: bool,
}

/// An edge of the full graph: the later instantiation depends on the
/// earlier one.
#[derive(Debug, Clone, Copy, PartialEq, Eq, Structural)]
pub struct Edge {
    pub from: usize,
    pub to: usize,
    pub kind: DepType,
}

/// How an edge of the reduced graph came about.
#[derive(Debug, Clone, Copy, PartialEq, Eq, Structural)]
pub enum EdgeType {
    /// It is an edge of the full graph, with its kind.
    Direct(DepType),
    /// It stands for walks through hidden nodes.
    Indirect,
}

/// An edge of the reduced graph, between two nodes of the full graph.
#[derive(Debug, Clone, Copy, PartialEq, Eq, Structural)]
pub struct VisibleEdge {
    pub from: usize,
    pub to: usize,
    pub edge_type: EdgeType,
    pub orig_graph_idx: Option<usize>,
}

/// The graph, the mask that says which nodes are shown, and the reduced
/// graph as it was last derived.
#[derive(Debug)]
pub struct InstGraph {
    pub nodes: Vec<NodeData>,
    pub edges: Vec<Edge>,
    pub parents: Vec<Vec<usize>>,
    pub children: Vec<Vec<usize>>,
    pub visible: Vec<bool>,
    pub visible_nodes: Vec<usize>,
    pub visible_edges: Vec<VisibleEdge>,
}

/// The graph as a mathematical value.
pub struct GraphView {
    pub nodes: Seq<NodeData>,
    pub edges: Seq<Edge>,
    pub visible: Seq<bool>,
    pub visible_nodes: Seq<usize>,
    pub visible_edges: Seq<VisibleEdge>,
}

impl View for InstGraph {
    type V = GraphView;

    open spec fn view(&self) -> GraphView {
        GraphView {
            nodes: self.nodes@,
            edges: self.edges@,
            visible: self.visible@,
            visible_nodes: self.visible_nodes@,
            visible_edges: self.visible_edges@,
        }
    }
}

/// The two ends of an edge, source first.
pub open spec fn ends_of(e: Edge) -> (usize, usize) {
    (e.from, e.to)
}

/// The two ends of each edge, source first.
pub open spec fn ends(edges: Seq<Edge>) -> Seq<(usize, usize)> {
    edges.map_values(|e: Edge| ends_of(e))
}

/// Whether each edge leads from a node to a later node, among `n` nodes.
pub open spec fn edges_ok(edges: Seq<Edge>, n: int) -> bool {
    forall|k: int| 0 <= k < edges.len() ==> (#[trigger] edges[k]).from < edges[k].to < n
}

/// Whether the lists hold, for each node, the other ends of the edges that
/// end at it (`incoming`) or begin at it.
pub open spec fn adjacency_ok(
    lists: Seq<Vec<usize>>,
    edges: Seq<Edge>,
    n: int,
    incoming: bool,
) -> bool {
    &&& lists.len() == n
    &&& forall|v: int, j: int|
        0 <= v < n && 0 <= j < lists[v]@.len() ==> lists[v]@[j] < n && if incoming {
            has_edge(ends(edges), #[trigger] lists[v]@[j], v as usize)
        } else {
            has_edge(ends(edges), v as usize, #[trigger] lists[v]@[j])
        }
    &&& forall|k: int|
        0 <= k < edges.len() ==> if incoming {
            lists[(#[trigger] edges[k]).to as int]@.contains(edges[k].from)
        } else {
            lists[(#[trigger] edges[k]).from as int]@.contains(edges[k].to)
        }
}

impl GraphView {
    /// What holds of every graph: its nodes can be counted in a machine
    /// word, its edges lead forward between its nodes, and the mask has a
    /// flag for each node.
    pub open spec fn wf(self) -> bool {
        &&& self.nodes.len() <= usize::MAX
        &&& edges_ok(self.edges, self.nodes.len() as int)
        &&& self.visible.len() == self.nodes.len()
    }
}

impl InstGraph {
    /// What holds of every graph, and of the lists of neighbours that it
    /// keeps beside its edges.
    pub open spec fn wf(&self) -> bool {
        &&& self@.wf()
        &&& adjacency_ok(self.parents@, self.edges@, self.nodes@.len() as int, true)
        &&& adjacency_ok(self.children@, self.edges@, self.nodes@.len() as int, false)
    }
}

/// Edges that lead to later nodes lead forward.
pub proof fn lemma_edges_forward(edges: Seq<Edge>, n: int)
    requires
        edges_ok(edges, n),
    ensures
        forward(ends(edges)),
{
}

/// An edge between two nodes is listed with both.
pub proof fn lemma_edge_listed(g: &InstGraph, u: usize, v: usize)
    requires
        g.wf(),
        has_edge(ends(g.edges@), u, v),
    ensures
        u < v < g.nodes@.len(),
        g.parents@[v as int]@.contains(u),
        g.children@[u as int]@.contains(v),
{
}

fn empty_lists(n: usize) -> (r: Vec<Vec<usize>>)
    ensures
        r@.len() == n,
        forall|v: int| 0 <= v < n ==> (#[trigger] r@[v])@.len() == 0,
{
    let mut r: Vec<Vec<usize>> = Vec::new();
    let mut i: usize = 0;
    while i < n
        invariant
            0 <= i <= n,
            r@.len() == i,
            forall|v: int| 0 <= v < i ==> (#[trigger] r@[v])@.len() == 0,
        decreases n - i,
    {
        r.push(Vec::new());
        i += 1;
    }
    r
}

fn all_shown(n: usize) -> (r: Vec<bool>)
    ensures
        r@ == Seq::new(n as nat, |v: int| true),
{
    let mut r: Vec<bool> = Vec::new();
    let mut i: usize = 0;
    while i < n
        invariant
            0 <= i <= n,
            r@ == Seq::new(i as nat, |v: int| true),
        decreases n - i,
    {
        r.push(true);
        i += 1;
    }
    r
}

impl InstGraph {
    /// A graph of the given nodes and edges, with every node shown and
    /// nothing derived for display yet. There is none where an edge does not
    /// lead from a node to a later node.
    pub fn new(nodes: Vec<NodeData>, edges: Vec<Edge>) -> (r: Option<InstGraph>)
        ensures
            r is Some <==> edges_ok(edges@, nodes@.len() as int),
            r matches Some(g) ==> g.wf() && g@ == (GraphView {
                nodes: nodes@,
                edges: edges@,
                visible: Seq::new(nodes@.len(), |v: int| true),
                visible_nodes: Seq::empty(),
                visible_edges: Seq::empty(),
            }),
    {
        let n = nodes.len();
        let mut parents = empty_lists(n);
        let mut children = empty_lists(n);
        let mut k: usize = 0;
        while k < edges.len()
            invariant
                0 <= k <= edges.len(),
                n == nodes.len(),
                edges_ok(edges@.take(k as int), n as int),
                adjacency_ok(parents@, edges@.take(k as int), n as int, true),
                adjacency_ok(children@, edges@.take(k as int), n as int, false),
            decreases edges.len() - k,
        {
            let e = edges[k];
            let ghost before = edges@.take(k as int);
            let ghost after = edges@.take(k + 1);
            if !(e.from < e.to && e.to < n) {
                return None;
            }
            let ghost old_parents = parents@;
            let ghost old_children = children@;
            parents[e.to].push(e.from);
            children[e.from].push(e.to);
            proof {
                assert(ends(after)[k as int] == (e.from, e.to));
                assert forall|u: usize, v: usize| has_edge(ends(before), u, v) implies has_edge(
                    ends(after),
                    u,
                    v,
                ) by {
                    let j = choose|j: int|
                        0 <= j < ends(before).len() && #[trigger] ends(before)[j] == (u, v);
                    assert(ends(after)[j] == (u, v));
                }
                assert(adjacency_ok(parents@, after, n as int, true)) by {
                    assert forall|j: int| 0 <= j < after.len() implies parents@[(
                    #[trigger] after[j]).to as int]@.contains(after[j].from) by {
                        if j < k {
                            let list = old_parents[after[j].to as int]@;
                            let i = choose|i: int| 0 <= i < list.len() && list[i] == after[j].from;
                            assert(parents@[after[j].to as int]@[i] == after[j].from);
                        } else {
                            let list = parents@[e.to as int]@;
                            assert(list[list.len() - 1] == e.from);
                        }
                    }
                }
                assert(adjacency_ok(children@, after, n as int, false)) by {
                    assert forall|j: int| 0 <= j < after.len() implies children@[(
                    #[trigger] after[j]).from as int]@.contains(after[j].to) by {
                        if j < k {
                            let list = old_children[after[j].from as int]@;
                            let i = choose|i: int| 0 <= i < list.len() && list[i] == after[j].to;
                            assert(children@[after[j].from as int]@[i] == after[j].to);
                        } else {
                            let list = children@[e.from as int]@;
                            assert(list[list.len() - 1] == e.to);
                        }
                    }
                }
            }
            k += 1;
        }
        assert(edges@.take(edges.len() as int) =~= edges@);
        let visible = all_shown(n);
        Some(
            InstGraph {
                nodes,
                edges,
                parents,
                children,
                visible,
                visible_nodes: Vec::new(),
                visible_edges: Vec::new(),
            },
        )
    }
}

} // verus!

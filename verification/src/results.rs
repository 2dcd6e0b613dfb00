//! The graph of instantiations that a parsed log gives: a node for each
//! instantiation, with the line on which it began, and an edge for each
//! dependency of one instantiation on an earlier one.

use crate::arena::{instantiation_at, next_instantiation_key};
use crate::idx_map::lookup;
use crate::items::{DepType, Dependency, InstantiationView};
use crate::state::{dep_ok, inst_ok, ParserView, Z3Parser};
use petgraph::graph::{Graph, NodeIndex};
use std::collections::BTreeMap;
use vstd::prelude::*;

verus! {

/// `petgraph::Directed`: the marker of graphs whose edges have a direction.
#[verifier::external_type_specification]
#[verifier::external_body]
pub struct ExDirected(petgraph::Directed);

/// `petgraph::graph::Graph`: a graph that keeps its nodes and its edges in
/// the order in which they were added, under indices that count from 0.
#[verifier::external_type_specification]
#[verifier::external_body]
#[verifier::reject_recursive_types(N)]
#[verifier::reject_recursive_types(E)]
#[verifier::reject_recursive_types(Ty)]
#[verifier::reject_recursive_types(Ix)]
pub struct ExGraph<N, E, Ty, Ix>(Graph<N, E, Ty, Ix>);

/// The weights of a graph's nodes, by node index.
pub uninterp spec fn graph_nodes(g: Graph<usize, ()>) -> Seq<usize>;

/// The ends of a graph's edges, source first, by edge index.
pub uninterp spec fn graph_edges(g: Graph<usize, ()>) -> Seq<(usize, usize)>;

/// No nodes.
pub open spec fn no_nodes() -> Seq<usize> {
    Seq::empty()
}

/// No edges.
pub open spec fn no_edges() -> Seq<(usize, usize)> {
    Seq::empty()
}

/// `Graph::new`: a graph without nodes and edges.
#[verifier::external_body]
fn graph_new() -> (g: Graph<usize, ()>)
    ensures
        graph_nodes(g) == no_nodes(),
        graph_edges(g) == no_edges(),
{
    Graph::new()
}

/// `Graph::add_node`: the node is added after those that are there, and its
/// index is their number; the edges stay. With 32-bit indices the call
/// panics once the graph holds `u32::MAX` nodes.
#[verifier::external_body]
fn graph_add_node(g: &mut Graph<usize, ()>, weight: usize) -> (idx: usize)
    requires
        graph_nodes(*old(g)).len() < u32::MAX,
    ensures
        idx == graph_nodes(*old(g)).len(),
        graph_nodes(*final(g)) == graph_nodes(*old(g)).push(weight),
        graph_edges(*final(g)) == graph_edges(*old(g)),
{
    g.add_node(weight).index()
}

/// `Graph::add_edge`: the edge is added after those that are there; the
/// nodes stay. The call panics where an end is no node of the graph, and,
/// with 32-bit indices, once the graph holds `u32::MAX` edges.
#[verifier::external_body]
fn graph_add_edge(g: &mut Graph<usize, ()>, from: usize, to: usize)
    requires
        from < graph_nodes(*old(g)).len(),
        to < graph_nodes(*old(g)).len(),
        graph_nodes(*old(g)).len() <= u32::MAX,
        graph_edges(*old(g)).len() < u32::MAX,
    ensures
        graph_nodes(*final(g)) == graph_nodes(*old(g)),
        graph_edges(*final(g)) == graph_edges(*old(g)).push((from, to)),
{
    g.add_edge(NodeIndex::new(from), NodeIndex::new(to), ());
}

/// The line on which an instantiation began.
pub open spec fn line_of(i: InstantiationView) -> usize {
    i.line_no->0
}

/// The lines on which the instantiations began, by their index.
pub open spec fn node_lines(insts: Seq<InstantiationView>) -> Seq<usize> {
    insts.map_values(|i: InstantiationView| line_of(i))
}

/// The last instantiation that began on the given line, if there is one.
pub open spec fn node_of_line(insts: Seq<InstantiationView>, line: usize) -> Option<usize>
    decreases insts.len(),
{
    if insts.len() == 0 {
        None
    } else if line_of(insts.last()) == line {
        Some((insts.len() - 1) as usize)
    } else {
        node_of_line(insts.drop_last(), line)
    }
}

/// The edge that a dependency stands for: from the instantiation of its
/// source line to that of its destination line. A dependency that only
/// marks a root, or has no destination, stands for none.
pub open spec fn edge_of(insts: Seq<InstantiationView>, d: Dependency) -> Option<(usize, usize)> {
    if d.dep_type == DepType::Root || d.to is None {
        None
    } else {
        match (node_of_line(insts, d.from), node_of_line(insts, d.to->0)) {
            (Some(a), Some(b)) => Some((a, b)),
            _ => None,
        }
    }
}

/// The edges that the dependencies stand for, in their order.
pub open spec fn causal_edges(insts: Seq<InstantiationView>, deps: Seq<Dependency>) -> Seq<
    (usize, usize),
>
    decreases deps.len(),
{
    if deps.len() == 0 {
        Seq::empty()
    } else {
        let front = causal_edges(insts, deps.drop_last());
        match edge_of(insts, deps.last()) {
            Some(e) => front.push(e),
            None => front,
        }
    }
}

/// The map from each node to the line on which its instantiation began.
pub open spec fn line_of_node(insts: Seq<InstantiationView>) -> Map<usize, usize> {
    Map::new(
        |i: usize| i < insts.len(),
        |i: usize| line_of(insts[i as int]),
    )
}

/// A node that is found for a line is an instantiation.
pub proof fn lemma_node_of_line(insts: Seq<InstantiationView>, line: usize)
    requires
        insts.len() <= usize::MAX,
    ensures
        node_of_line(insts, line) matches Some(i) ==> i < insts.len() && line_of(insts[i as int])
            == line,
    decreases insts.len(),
{
    if insts.len() > 0 && line_of(insts.last()) != line {
        lemma_node_of_line(insts.drop_last(), line);
    }
}

/// Each edge that the dependencies stand for joins two instantiations.
pub proof fn lemma_causal_edges_in_range(insts: Seq<InstantiationView>, deps: Seq<Dependency>)
    requires
        insts.len() <= usize::MAX,
    ensures
        causal_edges(insts, deps).len() <= deps.len(),
        forall|k: int|
            0 <= k < causal_edges(insts, deps).len() ==> (#[trigger] causal_edges(
                insts,
                deps,
            )[k]).0 < insts.len() && causal_edges(insts, deps)[k].1 < insts.len(),
    decreases deps.len(),
{
    if deps.len() > 0 {
        lemma_causal_edges_in_range(insts, deps.drop_last());
        lemma_node_of_line(insts, deps.last().from);
        lemma_node_of_line(insts, deps.last().to->0);
    }
}

/// Whether a graph is the graph of the instantiations of a state.
pub open spec fn is_graph_of(s: ParserView, g: Graph<usize, ()>) -> bool {
    &&& graph_nodes(g) == node_lines(s.instantiations)
    &&& graph_edges(g) == causal_edges(s.instantiations, s.dependencies)
}

/// Two graphs of the same state have the same nodes under the same indices,
/// and the same edges.
pub proof fn lemma_graph_is_determined(s: ParserView, a: Graph<usize, ()>, b: Graph<usize, ()>)
    requires
        is_graph_of(s, a),
        is_graph_of(s, b),
    ensures
        graph_nodes(a) == graph_nodes(b),
        graph_edges(a) == graph_edges(b),
{
}

fn line_map_insert(m: &mut BTreeMap<usize, usize>, k: usize, v: usize)
    ensures
        final(m)@ == old(m)@.insert(k, v),
{
    broadcast use {vstd::laws_cmp::group_laws_cmp, vstd::std_specs::btree::group_btree_axioms};

    m.insert(k, v);
}

pub(crate) fn line_map_get(m: &BTreeMap<usize, usize>, k: usize) -> (r: Option<usize>)
    ensures
        r == lookup(m@, k),
{
    broadcast use {vstd::laws_cmp::group_laws_cmp, vstd::std_specs::btree::group_btree_axioms};

    match m.get(&k) {
        Some(v) => Some(*v),
        None => None,
    }
}

/// Where an instantiation began on a line, a node is found for the line.
pub proof fn lemma_line_has_node(insts: Seq<InstantiationView>, line: usize, i: int)
    requires
        0 <= i < insts.len(),
        insts[i].line_no == Some(line),
    ensures
        node_of_line(insts, line) is Some,
    decreases insts.len(),
{
    if line_of(insts.last()) != line {
        lemma_line_has_node(insts.drop_last(), line, i);
    }
}

/// In a state that is well formed each dependency on an earlier
/// instantiation stands for an edge, which leads from that instantiation to
/// a later one; a record that only marks a root stands for none.
pub proof fn lemma_edge_of_dependency(s: ParserView, d: Dependency)
    requires
        s.wf(),
        dep_ok(s, d),
    ensures
        d.dep_type == DepType::Root <==> edge_of(s.instantiations, d) is None,
        edge_of(s.instantiations, d) matches Some(e) ==> e.0 < e.1 < s.instantiations.len(),
{
    let insts = s.instantiations;
    if d.dep_type != DepType::Root {
        let i = choose|i: int|
            0 <= i < insts.len() && (#[trigger] insts[i]).line_no == Some(d.from);
        let j = choose|j: int|
            0 <= j < insts.len() && (#[trigger] insts[j]).line_no == Some(d.to->0);
        lemma_line_has_node(insts, d.from, i);
        lemma_line_has_node(insts, d.to->0, j);
        lemma_node_of_line(insts, d.from);
        lemma_node_of_line(insts, d.to->0);
    }
}

/// In a state that is well formed the node that is found for the line of an
/// instantiation is that instantiation: nodes and lines stand one to one.
pub proof fn lemma_node_of_its_line(s: ParserView, i: int)
    requires
        s.wf(),
        0 <= i < s.instantiations.len(),
    ensures
        node_of_line(s.instantiations, line_of(s.instantiations[i])) == Some(i as usize),
        line_of_node(s.instantiations)[i as usize] == line_of(s.instantiations[i]),
{
    let insts = s.instantiations;
    let line = line_of(insts[i]);
    assert(inst_ok(s, i));
    lemma_line_has_node(insts, line, i);
    lemma_node_of_line(insts, line);
}

impl Z3Parser {
    /// For each line on which an instantiation began, the index of that
    /// instantiation.
    pub fn node_of_line_map(&self) -> (r: BTreeMap<usize, usize>)
        requires
            self@.wf(),
        ensures
            forall|l: usize| lookup(r@, l) == #[trigger] node_of_line(self@.instantiations, l),
    {
        let ghost insts = self@.instantiations;
        let mut map: BTreeMap<usize, usize> = BTreeMap::new();
        let mut i: usize = 0;
        let count = next_instantiation_key(&self.instantiations);
        while i < count
            invariant
                0 <= i <= count,
                count == self@.instantiations.len(),
                self@.wf(),
                insts == self@.instantiations,
                forall|l: usize| lookup(map@, l) == #[trigger] node_of_line(insts.take(i as int), l),
            decreases count - i,
        {
            assert(inst_ok(self@, i as int));
            let line = match instantiation_at(&self.instantiations, i).line_no {
                Some(line) => line,
                None => 0,
            };
            line_map_insert(&mut map, line, i);
            proof {
                let next = insts.take(i + 1);
                assert(next.drop_last() =~= insts.take(i as int));
                assert forall|l: usize| lookup(map@, l) == #[trigger] node_of_line(next, l) by {
                    if l != line {
                        assert(lookup(map@, l) == node_of_line(insts.take(i as int), l));
                    }
                }
            }
            i += 1;
        }
        assert(insts.take(count as int) =~= insts);
        map
    }

    /// The graph of the instantiations with the line of each node, unless
    /// there are more instantiations or dependencies than a graph with
    /// 32-bit indices holds.
    pub fn checked_instantiation_graph(&self) -> (r: Option<
        (Graph<usize, ()>, BTreeMap<usize, usize>),
    >)
        requires
            self@.wf(),
        ensures
            r is Some <==> self@.instantiations.len() < u32::MAX && self@.dependencies.len()
                < u32::MAX,
            r matches Some(g) ==> is_graph_of(self@, g.0) && g.1@ == line_of_node(
                self@.instantiations,
            ),
    {
        if next_instantiation_key(&self.instantiations) < u32::MAX as usize
            && self.dependencies.len() < u32::MAX as usize {
            Some(self.get_instantiation_graph())
        } else {
            None
        }
    }

    /// The graph of the instantiations, and for each node the line on which
    /// its instantiation began. Nodes stand in the order of the
    /// instantiations, edges in that of the dependencies. The graph has
    /// 32-bit indices, so there must be fewer instantiations and fewer
    /// dependencies than `u32::MAX`.
    pub fn get_instantiation_graph(&self) -> (r: (Graph<usize, ()>, BTreeMap<usize, usize>))
        requires
            self@.wf(),
            self@.instantiations.len() < u32::MAX,
            self.dependencies.len() < u32::MAX,
        ensures
            is_graph_of(self@, r.0),
            r.1@ == line_of_node(self@.instantiations),
    {
        let ghost insts = self@.instantiations;
        let ghost deps = self@.dependencies;
        let mut graph = graph_new();
        let mut node_of_line_nr: BTreeMap<usize, usize> = BTreeMap::new();
        let mut line_nr_of_node: BTreeMap<usize, usize> = BTreeMap::new();
        let mut i: usize = 0;
        let count = next_instantiation_key(&self.instantiations);
        while i < count
            invariant
                0 <= i <= count,
                count == self@.instantiations.len(),
                self@.instantiations.len() < u32::MAX,
                self@.wf(),
                insts == self@.instantiations,
                graph_nodes(graph) == node_lines(insts.take(i as int)),
                graph_edges(graph) == no_edges(),
                line_nr_of_node@ == line_of_node(insts.take(i as int)),
                forall|l: usize|
                    lookup(node_of_line_nr@, l) == #[trigger] node_of_line(insts.take(i as int), l),
            decreases count - i,
        {
            assert(inst_ok(self@, i as int));
            let line = match instantiation_at(&self.instantiations, i).line_no {
                Some(line) => line,
                None => 0,
            };
            let node = graph_add_node(&mut graph, line);
            line_map_insert(&mut node_of_line_nr, line, node);
            line_map_insert(&mut line_nr_of_node, node, line);
            proof {
                let next = insts.take(i + 1);
                assert(next.drop_last() =~= insts.take(i as int));
                assert forall|l: usize|
                    lookup(node_of_line_nr@, l) == #[trigger] node_of_line(next, l) by {
                    if l != line {
                        assert(lookup(node_of_line_nr@, l) == node_of_line(insts.take(i as int), l));
                    }
                }
            }
            i += 1;
        }
        assert(insts.take(count as int) =~= insts);
        let mut k: usize = 0;
        while k < self.dependencies.len()
            invariant
                0 <= k <= self.dependencies.len(),
                self.dependencies.len() < u32::MAX,
                insts.len() < u32::MAX,
                insts == self@.instantiations,
                deps == self@.dependencies,
                graph_nodes(graph) == node_lines(insts),
                graph_edges(graph) == causal_edges(insts, deps.take(k as int)),
                forall|l: usize| lookup(node_of_line_nr@, l) == #[trigger] node_of_line(insts, l),
            decreases self.dependencies.len() - k,
        {
            let d = self.dependencies[k];
            proof {
                let next = deps.take(k + 1);
                assert(next.drop_last() =~= deps.take(k as int));
                lemma_causal_edges_in_range(insts, deps.take(k as int));
                lemma_node_of_line(insts, d.from);
                lemma_node_of_line(insts, d.to->0);
            }
            match (d.dep_type, d.to) {
                (DepType::Root, _) => {},
                (_, None) => {},
                (_, Some(to)) => {
                    match (line_map_get(&node_of_line_nr, d.from), line_map_get(
                        &node_of_line_nr,
                        to,
                    )) {
                        (Some(a), Some(b)) => {
                            graph_add_edge(&mut graph, a, b);
                        },
                        _ => {},
                    }
                },
            }
            k += 1;
        }
        assert(deps.take(self.dependencies.len() as int) =~= deps);
        (graph, line_nr_of_node)
    }
}

} // verus!

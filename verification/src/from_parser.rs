//! Making the graph of instantiations from a parsed log.

use crate::arena::{instantiation_at, next_instantiation_key};
use crate::inst_graph::{edges_ok, ends, Edge, GraphView, InstGraph, NodeData};
use crate::items::{DepType, Dependency, InstantiationView};
use crate::results::{
    causal_edges, edge_of, lemma_edge_of_dependency, line_map_get, line_of, node_of_line,
};
use crate::state::{inst_ok, ParserView, Z3Parser};
use vstd::prelude::*;

verus! {

/// The node that stands for an instantiation.
pub open spec fn node_of(inst: InstantiationView, idx: int) -> NodeData {
    NodeData {
        line_nr: line_of(inst),
        inst_idx: idx as usize,
        quant_idx: inst.quant,
        is_theory_inst: inst.quant_discovered,
    }
}

/// A node for each instantiation, in their order.
pub open spec fn nodes_of(insts: Seq<InstantiationView>) -> Seq<NodeData> {
    Seq::new(insts.len(), |i: int| node_of(insts[i], i))
}

/// An edge for each dependency that stands for one, in their order, with
/// the kind of the dependency.
pub open spec fn edges_of(insts: Seq<InstantiationView>, deps: Seq<Dependency>) -> Seq<Edge>
    decreases deps.len(),
{
    if deps.len() == 0 {
        Seq::empty()
    } else {
        let front = edges_of(insts, deps.drop_last());
        match edge_of(insts, deps.last()) {
            Some(e) => front.push(Edge { from: e.0, to: e.1, kind: deps.last().dep_type }),
            None => front,
        }
    }
}

/// The graph of a parsed log: every node shown, nothing derived for display
/// yet.
pub open spec fn graph_of(s: ParserView) -> GraphView {
    GraphView {
        nodes: nodes_of(s.instantiations),
        edges: edges_of(s.instantiations, s.dependencies),
        visible: Seq::new(s.instantiations.len(), |v: int| true),
        visible_nodes: Seq::empty(),
        visible_edges: Seq::empty(),
    }
}

/// The edges of the graph have the ends that the dependencies give.
pub proof fn lemma_edges_of_ends(insts: Seq<InstantiationView>, deps: Seq<Dependency>)
    ensures
        ends(edges_of(insts, deps)) == causal_edges(insts, deps),
    decreases deps.len(),
{
    if deps.len() > 0 {
        lemma_edges_of_ends(insts, deps.drop_last());
    }
}

/// In a state that is well formed every edge of the graph leads from an
/// instantiation to a later one.
pub proof fn lemma_edges_of_ok(s: ParserView, k: int)
    requires
        s.wf(),
        0 <= k <= s.dependencies.len(),
    ensures
        edges_ok(edges_of(s.instantiations, s.dependencies.take(k)), s.instantiations.len() as int),
    decreases k,
{
    let deps = s.dependencies.take(k);
    if k > 0 {
        assert(deps.drop_last() =~= s.dependencies.take(k - 1));
        lemma_edges_of_ok(s, k - 1);
        lemma_edge_of_dependency(s, deps.last());
    }
}

impl InstGraph {
    /// The graph of a parsed log: a node for each instantiation and an edge
    /// for each dependency of an instantiation on an earlier one.
    pub fn from(parser: &Z3Parser) -> (r: InstGraph)
        requires
            parser@.wf(),
        ensures
            r.wf(),
            r@ == graph_of(parser@),
    {
        let ghost insts = parser@.instantiations;
        let ghost deps = parser@.dependencies;
        let map = parser.node_of_line_map();
        let mut nodes: Vec<NodeData> = Vec::new();
        let mut i: usize = 0;
        let count = next_instantiation_key(&parser.instantiations);
        while i < count
            invariant
                0 <= i <= count,
                count == parser@.instantiations.len(),
                parser@.wf(),
                insts == parser@.instantiations,
                nodes@ == nodes_of(insts.take(i as int)),
            decreases count - i,
        {
            assert(inst_ok(parser@, i as int));
            let inst = instantiation_at(&parser.instantiations, i);
            let line = match inst.line_no {
                Some(line) => line,
                None => 0,
            };
            nodes.push(
                NodeData {
                    line_nr: line,
                    inst_idx: i,
                    quant_idx: inst.quant,
                    is_theory_inst: inst.quant_discovered,
                },
            );
            i += 1;
        }
        assert(insts.take(count as int) =~= insts);
        let mut edges: Vec<Edge> = Vec::new();
        let mut k: usize = 0;
        while k < parser.dependencies.len()
            invariant
                0 <= k <= parser.dependencies.len(),
                insts == parser@.instantiations,
                deps == parser@.dependencies,
                forall|l: usize| crate::idx_map::lookup(map@, l) == #[trigger] node_of_line(insts, l),
                edges@ == edges_of(insts, deps.take(k as int)),
            decreases parser.dependencies.len() - k,
        {
            let d = parser.dependencies[k];
            proof {
                let next = deps.take(k + 1);
                assert(next.drop_last() =~= deps.take(k as int));
            }
            match (d.dep_type, d.to) {
                (DepType::Root, _) => {},
                (_, None) => {},
                (kind, Some(to)) => {
                    match (line_map_get(&map, d.from), line_map_get(&map, to)) {
                        (Some(a), Some(b)) => {
                            edges.push(Edge { from: a, to: b, kind });
                        },
                        _ => {},
                    }
                },
            }
            k += 1;
        }
        proof {
            assert(deps.take(parser.dependencies.len() as int) =~= deps);
            lemma_edges_of_ok(parser@, deps.len() as int);
        }
        match InstGraph::new(nodes, edges) {
            Some(g) => g,
            None => vstd::pervasive::unreached(),
        }
    }
}

} // verus!

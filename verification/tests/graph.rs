use axiom_profiler::filter::{Direction, Filter};
use axiom_profiler::inst_graph::{Edge, EdgeType, InstGraph, NodeData, VisibleEdge};
use axiom_profiler::items::DepType;
use axiom_profiler::state::Z3Parser;

const TWO_INSTANCES: &str = "[mk-app] #1 true
[mk-var] #2 0
[mk-app] #3 f #2
[mk-app] #4 pattern #3
[mk-quant] #5 Q 1 #4
[mk-app] #6 a
[mk-app] #7 f #6
[new-match] 0x1f #5 #4 #6 ;
[instance] 0x1f #1 ; 1
[attach-enode] #7 1
[end-of-instance]
[new-match] 0x2a #5 #4 #7 ; #7
[instance] 0x2a #1 ; 2
[end-of-instance]";

fn parsed(log: &str) -> Z3Parser {
    let mut parser = Z3Parser::new();
    assert_eq!(parser.process_log(log.as_bytes()), Ok(()));
    parser
}

fn node(line_nr: usize, inst_idx: usize) -> NodeData {
    NodeData { line_nr, inst_idx, quant_idx: 0, is_theory_inst: false }
}

fn edge(from: usize, to: usize) -> Edge {
    Edge { from, to, kind: DepType::Term }
}

fn direct(from: usize, to: usize, idx: usize) -> VisibleEdge {
    VisibleEdge { from, to, edge_type: EdgeType::Direct(DepType::Term), orig_graph_idx: Some(idx) }
}

fn indirect(from: usize, to: usize) -> VisibleEdge {
    VisibleEdge { from, to, edge_type: EdgeType::Indirect, orig_graph_idx: None }
}

/// 0 -> 1 -> 2 -> 3, 0 -> 3, 1 -> 4, and 5 alone.
fn sample() -> InstGraph {
    let nodes = (0..6).map(|i| node(10 * (i + 1), i)).collect();
    let edges = vec![edge(0, 1), edge(1, 2), edge(2, 3), edge(0, 3), edge(1, 4)];
    InstGraph::new(nodes, edges).unwrap()
}

#[test]
fn two_instances_give_two_nodes_and_one_edge() {
    let parser = parsed(TWO_INSTANCES);
    let (graph, line_nr_of_node) = parser.get_instantiation_graph();
    assert_eq!(graph.node_count(), 2);
    assert_eq!(graph.edge_count(), 1);
    let weights: Vec<usize> = graph.node_weights().copied().collect();
    assert_eq!(weights, vec![9, 13]);
    let ends: Vec<(usize, usize)> = graph
        .edge_indices()
        .map(|e| graph.edge_endpoints(e).unwrap())
        .map(|(a, b)| (a.index(), b.index()))
        .collect();
    assert_eq!(ends, vec![(0, 1)]);
    assert_eq!(line_nr_of_node.len(), 2);
    assert_eq!(line_nr_of_node[&0], 9);
    assert_eq!(line_nr_of_node[&1], 13);
    assert_eq!(parser.dependencies[0].dep_type, DepType::Root);
    assert_eq!(parser.dependencies[1].dep_type, DepType::Term);
    assert_eq!(parser.instantiations[1].dep_instantiations, vec![0]);
}

#[test]
fn the_graph_of_a_state_is_always_the_same() {
    let parser = parsed(TWO_INSTANCES);
    let (a, lines_a) = parser.get_instantiation_graph();
    let (b, lines_b) = parser.get_instantiation_graph();
    let again = parsed(TWO_INSTANCES);
    let (c, lines_c) = again.get_instantiation_graph();
    for other in [&b, &c] {
        assert_eq!(a.node_count(), other.node_count());
        assert_eq!(a.edge_count(), other.edge_count());
        for n in a.node_indices() {
            assert_eq!(a[n], other[n]);
        }
        for e in a.edge_indices() {
            assert_eq!(a.edge_endpoints(e), other.edge_endpoints(e));
        }
    }
    assert_eq!(lines_a, lines_b);
    assert_eq!(lines_a, lines_c);
    let g = InstGraph::from(&parser);
    let h = InstGraph::from(&again);
    assert_eq!(g.nodes, h.nodes);
    assert_eq!(g.edges, h.edges);
}

#[test]
fn the_checked_graph_is_the_graph() {
    let parser = parsed(TWO_INSTANCES);
    let (graph, lines) = parser.checked_instantiation_graph().unwrap();
    assert_eq!(graph.node_count(), 2);
    assert_eq!(graph.edge_count(), 1);
    assert_eq!(lines.len(), 2);
    assert_eq!(parser.total_nr_of_quants(), 1);
    let by_line = parser.node_of_line_map();
    assert_eq!(by_line.len(), 2);
    assert_eq!(by_line[&9], 0);
    assert_eq!(by_line[&13], 1);
}

#[test]
fn an_empty_log_gives_an_empty_graph() {
    let parser = Z3Parser::new();
    let (graph, lines) = parser.get_instantiation_graph();
    assert_eq!(graph.node_count(), 0);
    assert_eq!(graph.edge_count(), 0);
    assert!(lines.is_empty());
    let g = InstGraph::from(&parser);
    assert!(g.nodes.is_empty());
    assert!(g.edges.is_empty());
}

#[test]
fn nodes_and_edges_are_taken_from_the_log() {
    let parser = parsed(TWO_INSTANCES);
    let g = InstGraph::from(&parser);
    assert_eq!(
        g.nodes,
        vec![
            NodeData { line_nr: 9, inst_idx: 0, quant_idx: 0, is_theory_inst: false },
            NodeData { line_nr: 13, inst_idx: 1, quant_idx: 0, is_theory_inst: false }
        ]
    );
    assert_eq!(g.edges, vec![Edge { from: 0, to: 1, kind: DepType::Term }]);
    assert_eq!(g.visible, vec![true, true]);
    assert!(g.visible_nodes.is_empty());
    assert!(g.visible_edges.is_empty());
    assert_eq!(g.parents, vec![vec![], vec![0]]);
    assert_eq!(g.children, vec![vec![1], vec![]]);
}

#[test]
fn equality_and_discovery_show_in_the_graph() {
    let log = "[mk-app] #1 a
[mk-app] #2 b
[mk-app] #3 pat #1
[mk-quant] #4 q 1 #3
[mk-app] #5 eq #1 #2
[inst-discovered] MBQI 0x1
[instance] 0x1
[attach-enode] #5 0
[end-of-instance]
[eq-expl] #1 lit #5 ; #2
[new-match] 0x2 #4 #3 ; (#1 #2) #5
[instance] 0x2
[end-of-instance]";
    let parser = parsed(log);
    let g = InstGraph::from(&parser);
    assert_eq!(
        g.nodes,
        vec![
            NodeData { line_nr: 7, inst_idx: 0, quant_idx: 1, is_theory_inst: true },
            NodeData { line_nr: 12, inst_idx: 1, quant_idx: 0, is_theory_inst: false }
        ]
    );
    assert_eq!(
        g.edges,
        vec![
            Edge { from: 0, to: 1, kind: DepType::Equality },
            Edge { from: 0, to: 1, kind: DepType::Term }
        ]
    );
    let (graph, _) = parser.get_instantiation_graph();
    assert_eq!(graph.edge_count(), 2);
}

#[test]
fn a_graph_has_only_edges_that_lead_forward() {
    let nodes: Vec<NodeData> = (0..3).map(|i| node(i + 1, i)).collect();
    assert!(InstGraph::new(nodes.clone(), vec![edge(1, 0)]).is_none());
    assert!(InstGraph::new(nodes.clone(), vec![edge(1, 1)]).is_none());
    assert!(InstGraph::new(nodes.clone(), vec![edge(0, 3)]).is_none());
    assert!(InstGraph::new(nodes.clone(), vec![edge(0, 1), edge(2, 1)]).is_none());
    assert!(InstGraph::new(nodes, vec![edge(0, 2), edge(0, 2)]).is_some());
    assert!(InstGraph::new(Vec::new(), Vec::new()).is_some());
}

#[test]
fn a_new_graph_shows_every_node() {
    let g = sample();
    assert_eq!(g.visible, vec![true; 6]);
    assert_eq!(g.parents, vec![vec![], vec![0], vec![1], vec![2, 0], vec![1], vec![]]);
    assert_eq!(g.children, vec![vec![1, 3], vec![2, 4], vec![3], vec![], vec![], vec![]]);
}

#[test]
fn reachability_from_a_node() {
    let g = sample();
    assert_eq!(g.reach_from(0, false), vec![false, true, true, true, true, false]);
    assert_eq!(g.reach_from(1, false), vec![false, false, true, true, true, false]);
    assert_eq!(g.reach_from(3, false), vec![false; 6]);
    assert_eq!(g.reach_from(5, false), vec![false; 6]);
    assert_eq!(g.ancestors(3), vec![true, true, true, true, false, false]);
    assert_eq!(g.ancestors(4), vec![true, true, false, false, true, false]);
    assert_eq!(g.ancestors(0), vec![true, false, false, false, false, false]);
    assert_eq!(g.ancestors(5), vec![false, false, false, false, false, true]);
}

#[test]
fn reachability_through_hidden_nodes() {
    let mut g = sample();
    g.visible = vec![true, false, false, true, true, true];
    assert_eq!(g.reach_from(0, true), vec![false, true, true, false, false, false]);
    g.visible = vec![true, true, false, true, true, true];
    assert_eq!(g.reach_from(0, true), vec![false; 6]);
    assert_eq!(g.reach_from(1, true), vec![false, false, true, false, false, false]);
}

#[test]
fn hiding_a_node_hides_what_follows_from_it() {
    let mut g = sample();
    assert_eq!(Filter::Hide(1).apply(&mut g), None);
    assert_eq!(g.visible, vec![true, false, false, false, false, true]);
    assert_eq!(Filter::Hide(1).apply(&mut g), None);
    assert_eq!(g.visible, vec![true, false, false, false, false, true]);
    assert_eq!(Filter::Hide(5).apply(&mut g), None);
    assert_eq!(g.visible, vec![true, false, false, false, false, false]);
}

#[test]
fn hide_then_reset_brings_back_the_full_graph() {
    let mut g = sample();
    assert_eq!(g.retain_visible_nodes_and_reconnect(), (6, 5, false, false));
    Filter::Hide(1).apply(&mut g);
    assert_eq!(g.retain_visible_nodes_and_reconnect(), (2, 0, true, true));
    assert_eq!(Filter::Reset.apply(&mut g), Some(vec![1, 2, 3, 4]));
    assert_eq!(g.visible, vec![true; 6]);
    assert_eq!(g.retain_visible_nodes_and_reconnect(), (6, 5, false, false));
    assert_eq!(g.visible_nodes, vec![0, 1, 2, 3, 4, 5]);
    assert_eq!(
        g.visible_edges,
        vec![direct(0, 1, 0), direct(1, 2, 1), direct(2, 3, 2), direct(0, 3, 3), direct(1, 4, 4)]
    );
    Filter::Hide(0).apply(&mut g);
    g.reset();
    assert_eq!(g.visible, vec![true; 6]);
}

#[test]
fn the_source_tree_is_the_node_and_its_ancestors() {
    let mut g = sample();
    assert_eq!(Filter::ShowSourceTree(2).apply(&mut g), None);
    assert_eq!(g.visible, vec![true, true, true, false, false, false]);
    assert_eq!(Filter::ShowSourceTree(4).apply(&mut g), Some(vec![4]));
    assert_eq!(g.visible, vec![true, true, false, false, true, false]);
    assert_eq!(Filter::ShowSourceTree(5).apply(&mut g), Some(vec![5]));
    assert_eq!(g.visible, vec![false, false, false, false, false, true]);
    assert_eq!(Filter::ShowSourceTree(3).apply(&mut g), Some(vec![0, 1, 2, 3]));
    assert_eq!(g.visible, vec![true, true, true, true, false, false]);
}

#[test]
fn neighbours_are_shown_on_one_side() {
    let mut g = sample();
    g.visible = vec![false; 6];
    assert_eq!(Filter::ShowNeighbours(1, Direction::Outgoing).apply(&mut g), Some(vec![2, 4]));
    assert_eq!(g.visible, vec![false, false, true, false, true, false]);
    assert_eq!(Filter::ShowNeighbours(3, Direction::Incoming).apply(&mut g), Some(vec![0]));
    assert_eq!(g.visible, vec![true, false, true, false, true, false]);
    assert_eq!(Filter::ShowNeighbours(3, Direction::Incoming).apply(&mut g), None);
    assert_eq!(Filter::ShowNeighbours(5, Direction::Incoming).apply(&mut g), None);
    assert_eq!(Filter::ShowNeighbours(5, Direction::Outgoing).apply(&mut g), None);
    assert_eq!(g.visible, vec![true, false, true, false, true, false]);
}

#[test]
fn an_operation_on_no_node_changes_nothing() {
    let mut g = sample();
    g.visible = vec![true, false, true, false, true, false];
    let before = g.visible.clone();
    assert_eq!(Filter::Hide(6).apply(&mut g), None);
    assert_eq!(Filter::ShowSourceTree(99).apply(&mut g), None);
    assert_eq!(Filter::ShowNeighbours(6, Direction::Incoming).apply(&mut g), None);
    assert_eq!(Filter::ShowNeighbours(usize::MAX, Direction::Outgoing).apply(&mut g), None);
    assert_eq!(g.visible, before);
}

#[test]
fn hidden_nodes_are_bridged_by_indirect_edges() {
    let mut g = sample();
    g.visible = vec![true, false, true, true, true, true];
    assert_eq!(g.retain_visible_nodes_and_reconnect(), (5, 4, false, false));
    assert_eq!(g.visible_nodes, vec![0, 2, 3, 4, 5]);
    assert_eq!(
        g.visible_edges,
        vec![direct(2, 3, 2), direct(0, 3, 3), indirect(0, 2), indirect(0, 4)]
    );
}

#[test]
fn nodes_know_whether_a_neighbour_is_hidden() {
    let mut g = sample();
    assert!(!g.node_has_filtered_children(0));
    assert!(!g.node_has_filtered_parents(3));
    g.visible = vec![true, false, true, true, true, true];
    assert!(g.node_has_filtered_children(0));
    assert!(!g.node_has_filtered_parents(0));
    assert!(g.node_has_filtered_parents(2));
    assert!(g.node_has_filtered_parents(4));
    assert!(!g.node_has_filtered_children(2));
    assert!(!g.node_has_filtered_parents(3));
    assert!(!g.node_has_filtered_children(5));
    assert!(!g.node_has_filtered_children(6));
    assert!(!g.node_has_filtered_parents(usize::MAX));
}

#[test]
fn a_chain_of_hidden_nodes_is_one_indirect_edge() {
    let mut g = sample();
    g.visible = vec![true, false, false, true, false, true];
    assert_eq!(g.retain_visible_nodes_and_reconnect(), (3, 2, false, false));
    assert_eq!(g.visible_nodes, vec![0, 3, 5]);
    assert_eq!(g.visible_edges, vec![direct(0, 3, 3), indirect(0, 3)]);
}

#[test]
fn reduction_is_idempotent() {
    let mut g = sample();
    g.visible = vec![true, false, true, true, false, true];
    let first = g.retain_visible_nodes_and_reconnect();
    let nodes = g.visible_nodes.clone();
    let edges = g.visible_edges.clone();
    let second = g.retain_visible_nodes_and_reconnect();
    assert_eq!(first, (4, 3, false, false));
    assert_eq!(second, (4, 3, false, false));
    assert_eq!(g.visible_nodes, nodes);
    assert_eq!(g.visible_edges, edges);
    assert_eq!(g.visible, vec![true, false, true, true, false, true]);
}

#[test]
fn reduction_says_which_numbers_fell() {
    let mut g = sample();
    assert_eq!(g.retain_visible_nodes_and_reconnect(), (6, 5, false, false));
    g.visible = vec![true, true, true, true, true, false];
    assert_eq!(g.retain_visible_nodes_and_reconnect(), (5, 5, true, false));
    g.visible = vec![true, false, true, true, true, false];
    assert_eq!(g.retain_visible_nodes_and_reconnect(), (4, 4, true, true));
    g.visible = vec![true; 6];
    assert_eq!(g.retain_visible_nodes_and_reconnect(), (6, 5, false, false));
}

#[test]
fn parallel_edges_stay_apart() {
    let nodes: Vec<NodeData> = (0..3).map(|i| node(i + 1, i)).collect();
    let edges = vec![
        Edge { from: 0, to: 2, kind: DepType::Term },
        Edge { from: 0, to: 2, kind: DepType::Equality },
        edge(0, 1),
        edge(1, 2),
    ];
    let mut g = InstGraph::new(nodes, edges).unwrap();
    g.visible = vec![true, false, true];
    assert_eq!(g.retain_visible_nodes_and_reconnect(), (2, 3, false, false));
    assert_eq!(
        g.visible_edges,
        vec![
            direct(0, 2, 0),
            VisibleEdge {
                from: 0,
                to: 2,
                edge_type: EdgeType::Direct(DepType::Equality),
                orig_graph_idx: Some(1)
            },
            indirect(0, 2)
        ]
    );
}

fn reaches(count: usize, edges: &[(usize, usize)], from: usize, to: usize) -> bool {
    let mut seen = vec![false; count];
    let mut todo = vec![from];
    while let Some(n) = todo.pop() {
        for &(a, b) in edges {
            if a == n && !seen[b] {
                seen[b] = true;
                todo.push(b);
            }
        }
    }
    seen[to]
}

#[test]
fn the_reduced_graph_keeps_what_can_be_reached() {
    let masks = [
        vec![true, false, true, true, true, true],
        vec![true, false, false, true, true, true],
        vec![true, false, false, true, false, true],
        vec![false, true, false, true, true, true],
        vec![true, true, true, false, true, false],
        vec![true; 6],
        vec![false; 6],
    ];
    for mask in masks {
        let mut g = sample();
        g.visible = mask.clone();
        g.retain_visible_nodes_and_reconnect();
        let full: Vec<(usize, usize)> = g.edges.iter().map(|e| (e.from, e.to)).collect();
        let reduced: Vec<(usize, usize)> = g.visible_edges.iter().map(|e| (e.from, e.to)).collect();
        for u in 0..6 {
            for v in 0..6 {
                if mask[u] && mask[v] {
                    assert_eq!(reaches(6, &reduced, u, v), reaches(6, &full, u, v));
                }
            }
        }
        for e in &g.visible_edges {
            assert!(mask[e.from] && mask[e.to]);
        }
    }
}

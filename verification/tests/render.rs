use axiom_profiler::filter::Filter;
use axiom_profiler::inst_graph::{Edge, InstGraph, NodeData};
use axiom_profiler::items::DepType;
use axiom_profiler::render::{
    is_safe_to_render, Command, GraphDimensions, Msg, SVGResult, UserPermission,
    DEFAULT_NODE_COUNT, EDGE_LIMIT,
};
use axiom_profiler::worker::WorkerOutput;

fn chain(nodes: usize) -> InstGraph {
    let list = (0..nodes)
        .map(|i| NodeData { line_nr: i + 1, inst_idx: i, quant_idx: 0, is_theory_inst: false })
        .collect();
    let edges = (1..nodes).map(|i| Edge { from: i - 1, to: i, kind: DepType::Term }).collect();
    InstGraph::new(list, edges).unwrap()
}

#[test]
fn the_limits() {
    assert_eq!(EDGE_LIMIT, 500);
    assert_eq!(DEFAULT_NODE_COUNT, 125);
}

#[test]
fn a_small_graph_is_drawn_without_asking() {
    assert!(is_safe_to_render(0, 0, false, false));
    assert!(is_safe_to_render(125, 500, false, false));
}

#[test]
fn too_many_edges_need_permission() {
    assert!(!is_safe_to_render(10, 501, false, false));
    assert!(!is_safe_to_render(125, 501, false, false));
    assert!(!is_safe_to_render(1000, 501, false, false));
}

#[test]
fn too_many_nodes_need_permission() {
    assert!(!is_safe_to_render(126, 10, false, false));
    assert!(!is_safe_to_render(126, 500, false, false));
}

#[test]
fn a_graph_that_shrank_is_drawn_without_asking() {
    assert!(is_safe_to_render(1000, 5000, true, false));
    assert!(is_safe_to_render(1000, 5000, false, true));
    assert!(is_safe_to_render(1000, 5000, true, true));
}

#[test]
fn permission_is_not_given_unless_said() {
    assert!(!UserPermission::default().permission);
    assert!(UserPermission::from(true).permission);
    assert!(!UserPermission::from(false).permission);
}

#[test]
fn a_new_page_has_nothing_drawn() {
    let page = SVGResult::create(chain(3));
    assert_eq!(page.graph_dim, GraphDimensions { node_count: 0, edge_count: 0 });
    assert!(page.svg_text.is_empty());
    assert!(!page.async_graph_and_filter_chain);
    assert!(page.selected_insts.is_empty());
    assert_eq!(page.inst_graph.nodes.len(), 3);
}

#[test]
fn a_small_graph_is_rendered() {
    let mut page = SVGResult::create(chain(3));
    let r = page.update(Msg::RenderGraph(UserPermission::default()));
    assert_eq!(r, (false, Command::Render { node_count_decreased: false }));
    assert_eq!(page.graph_dim, GraphDimensions { node_count: 3, edge_count: 2 });
    assert_eq!(page.inst_graph.visible_nodes, vec![0, 1, 2]);
}

#[test]
fn a_large_graph_asks_first() {
    let mut page = SVGResult::create(chain(502));
    let r = page.update(Msg::RenderGraph(UserPermission::default()));
    assert_eq!(r, (false, Command::RequestPermission));
    assert_eq!(page.graph_dim, GraphDimensions { node_count: 502, edge_count: 501 });
    let r = page.update(Msg::GetUserPermission);
    assert_eq!(r, (false, Command::AskPermission { node_count: 502, edge_count: 501 }));
    let r = page.update(Msg::PermissionAnswer(Some(true)));
    assert_eq!(r, (false, Command::RenderWithPermission));
    let r = page.update(Msg::RenderGraph(UserPermission::from(true)));
    assert_eq!(r, (false, Command::Render { node_count_decreased: false }));
}

#[test]
fn a_large_graph_that_shrank_is_rendered() {
    let mut page = SVGResult::create(chain(600));
    page.update(Msg::RenderGraph(UserPermission::from(true)));
    assert_eq!(page.update(Msg::ApplyFilter(Filter::Hide(550))), (false, Command::Idle));
    let r = page.update(Msg::RenderGraph(UserPermission::default()));
    assert_eq!(r, (false, Command::Render { node_count_decreased: true }));
    assert_eq!(page.graph_dim, GraphDimensions { node_count: 550, edge_count: 549 });
    let r = page.update(Msg::RenderGraph(UserPermission::default()));
    assert_eq!(r, (false, Command::RequestPermission));
}

#[test]
fn refusing_leads_to_the_second_question() {
    let mut page = SVGResult::create(chain(502));
    page.update(Msg::RenderGraph(UserPermission::default()));
    assert_eq!(page.update(Msg::PermissionAnswer(Some(false))), (false, Command::AskKeepFilter));
    assert_eq!(page.update(Msg::PermissionAnswer(None)), (false, Command::Idle));
    assert_eq!(page.update(Msg::KeepFilterAnswer(Some(false))), (false, Command::RevertFilterChain));
    assert!(!page.async_graph_and_filter_chain);
    assert_eq!(page.update(Msg::KeepFilterAnswer(None)), (false, Command::Idle));
    assert_eq!(page.update(Msg::KeepFilterAnswer(Some(true))), (true, Command::Idle));
    assert!(page.async_graph_and_filter_chain);
    page.update(Msg::RenderGraph(UserPermission::from(true)));
    assert!(!page.async_graph_and_filter_chain);
}

#[test]
fn filters_select_what_they_reveal() {
    let mut page = SVGResult::create(chain(4));
    assert_eq!(page.update(Msg::ApplyFilter(Filter::Hide(1))), (false, Command::Idle));
    assert_eq!(page.inst_graph.visible, vec![true, false, false, false]);
    assert_eq!(
        page.update(Msg::ApplyFilter(Filter::ShowSourceTree(2))),
        (false, Command::SelectNodes(vec![1, 2]))
    );
    assert_eq!(page.update(Msg::ResetGraph), (false, Command::Idle));
    assert_eq!(page.inst_graph.visible, vec![true; 4]);
}

#[test]
fn a_new_drawing_is_shown() {
    let mut page = SVGResult::create(chain(2));
    let r = page.update(Msg::UpdateSvgText(String::from("<svg/>"), false));
    assert_eq!(r, (true, Command::Idle));
    assert_eq!(page.svg_text, "<svg/>");
    let r = page.update(Msg::UpdateSvgText(String::from("<svg/>"), true));
    assert_eq!(r, (false, Command::Idle));
    let r = page.update(Msg::UpdateSvgText(String::from("<svg></svg>"), true));
    assert_eq!(r, (true, Command::DeselectAll));
    assert_eq!(page.svg_text, "<svg></svg>");
}

#[test]
fn selection_and_worker_messages() {
    let mut page = SVGResult::create(chain(2));
    assert_eq!(page.update(Msg::UpdateSelectedNodes(vec![1, 0])), (true, Command::Idle));
    assert_eq!(page.selected_insts, vec![1, 0]);
    let out = WorkerOutput { input: 3, value: 3 };
    assert_eq!(page.update(Msg::WorkerOutput(out)), (false, Command::Idle));
    assert_eq!(page.selected_insts, vec![1, 0]);
}

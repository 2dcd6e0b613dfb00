//! Deciding what the page that shows the graph does next: when the graph is
//! derived anew, whether it may be drawn without asking, and what each
//! answer and each message leads to. The drawing itself, and the asking,
//! are done elsewhere; what comes of them comes back as a message.

use crate::filter::{mask_after, path_of, revealed, with_mask, Filter};
use crate::inst_graph::{GraphView, InstGraph};
use crate::reduce::reduced;
use crate::worker::WorkerOutput;
use vstd::prelude::*;

verus! {

/// The largest number of edges that is drawn without asking.
pub const EDGE_LIMIT: usize = 500;

/// The largest number of nodes that is drawn without asking.
pub const DEFAULT_NODE_COUNT: usize = 125;

/// Whether the user allowed a drawing that may be slow.
#[derive(Debug, Clone, Copy, PartialEq, Eq, Structural)]
pub struct UserPermission {
    pub permission: bool,
}

impl Default for UserPermission {
    fn default() -> (r: Self)
        ensures
            !r.permission,
    {
        UserPermission { permission: false }
    }
}

impl From<bool> for UserPermission {
    fn from(value: bool) -> (r: Self) {
        UserPermission { permission: value }
    }
}

impl vstd::std_specs::convert::FromSpecImpl<bool> for UserPermission {
    open spec fn obeys_from_spec() -> bool {
        true
    }

    open spec fn from_spec(value: bool) -> Self {
        UserPermission { permission: value }
    }
}

/// The size of the reduced graph.
#[derive(Debug, Clone, Copy, PartialEq, Eq, Structural)]
pub struct GraphDimensions {
    pub node_count: usize,
    pub edge_count: usize,
}

/// Whether a reduced graph may be drawn without asking: it is within both
/// limits, or one of its numbers fell since the reduction before.
pub open spec fn safe_to_render(
    node_count: usize,
    edge_count: usize,
    node_count_decreased: bool,
    edge_count_decreased: bool,
) -> bool {
    (edge_count <= EDGE_LIMIT && node_count <= DEFAULT_NODE_COUNT) || node_count_decreased
        || edge_count_decreased
}

/// Whether a reduced graph may be drawn without asking.
pub fn is_safe_to_render(
    node_count: usize,
    edge_count: usize,
    node_count_decreased: bool,
    edge_count_decreased: bool,
) -> (r: bool)
    ensures
        r == safe_to_render(node_count, edge_count, node_count_decreased, edge_count_decreased),
{
    (edge_count <= EDGE_LIMIT && node_count <= DEFAULT_NODE_COUNT) || node_count_decreased
        || edge_count_decreased
}

/// A graph with more edges than the limit, of which neither number fell, is
/// not drawn without asking.
pub proof fn lemma_large_graph_needs_permission(node_count: usize, edge_count: usize)
    requires
        edge_count > EDGE_LIMIT,
    ensures
        !safe_to_render(node_count, edge_count, false, false),
{
}

/// What reaches the page.
#[derive(Debug)]
pub enum Msg {
    /// The drawing of the graph is there, and whether the graph had fewer
    /// nodes than the one before.
    UpdateSvgText(String, bool),
    /// Derive the graph anew and draw it.
    RenderGraph(UserPermission),
    /// Apply an operation to the mask.
    ApplyFilter(Filter),
    /// Show every node again.
    ResetGraph,
    /// The graph is too large to draw without asking.
    GetUserPermission,
    /// The answer to the question whether to draw a large graph, if there
    /// was one.
    PermissionAnswer(Option<bool>),
    /// The answer to the question whether to keep the operations without
    /// drawing, if there was one.
    KeepFilterAnswer(Option<bool>),
    /// The worker is done.
    WorkerOutput(WorkerOutput),
    /// Other nodes were selected.
    UpdateSelectedNodes(Vec<usize>),
}

/// What is to be done outside after a message.
#[derive(Debug, Clone, PartialEq, Eq)]
pub enum Command {
    /// Nothing.
    Idle,
    /// Select the nodes.
    SelectNodes(Vec<usize>),
    /// Deselect every node.
    DeselectAll,
    /// Draw the reduced graph, and send the drawing back with the flag.
    Render { node_count_decreased: bool },
    /// Send the message that asks for permission.
    RequestPermission,
    /// Ask whether to draw a graph of this size.
    AskPermission { node_count: usize, edge_count: usize },
    /// Send the message that draws with permission.
    RenderWithPermission,
    /// Ask whether to keep the operations without drawing.
    AskKeepFilter,
    /// Take back the last operation.
    RevertFilterChain,
}

/// A command as a mathematical value.
pub enum CommandView {
    Idle,
    SelectNodes(Seq<usize>),
    DeselectAll,
    Render { node_count_decreased: bool },
    RequestPermission,
    AskPermission { node_count: usize, edge_count: usize },
    RenderWithPermission,
    AskKeepFilter,
    RevertFilterChain,
}

impl View for Command {
    type V = CommandView;

    open spec fn view(&self) -> CommandView {
        match *self {
            Command::Idle => CommandView::Idle,
            Command::SelectNodes(nodes) => CommandView::SelectNodes(nodes@),
            Command::DeselectAll => CommandView::DeselectAll,
            Command::Render { node_count_decreased } => CommandView::Render {
                node_count_decreased,
            },
            Command::RequestPermission => CommandView::RequestPermission,
            Command::AskPermission { node_count, edge_count } => CommandView::AskPermission {
                node_count,
                edge_count,
            },
            Command::RenderWithPermission => CommandView::RenderWithPermission,
            Command::AskKeepFilter => CommandView::AskKeepFilter,
            Command::RevertFilterChain => CommandView::RevertFilterChain,
        }
    }
}

/// The page that shows the graph.
#[derive(Debug)]
pub struct SVGResult {
    pub inst_graph: InstGraph,
    pub svg_text: String,
    pub graph_dim: GraphDimensions,
    pub async_graph_and_filter_chain: bool,
    pub selected_insts: Vec<usize>,
}

/// The page as a mathematical value.
pub struct PageView {
    pub graph: GraphView,
    pub svg_text: Seq<char>,
    pub graph_dim: GraphDimensions,
    /// Whether the operations applied and the drawing shown have come apart.
    pub out_of_step: bool,
    pub selected: Seq<usize>,
}

impl View for SVGResult {
    type V = PageView;

    open spec fn view(&self) -> PageView {
        PageView {
            graph: self.inst_graph@,
            svg_text: self.svg_text@,
            graph_dim: self.graph_dim,
            out_of_step: self.async_graph_and_filter_chain,
            selected: self.selected_insts@,
        }
    }
}

/// What a message leads to: the page after it, whether the page is to be
/// shown anew, and what is to be done outside.
pub struct Outcome {
    pub page: PageView,
    pub redraw: bool,
    pub command: CommandView,
}

/// The command that selects the nodes which an operation revealed.
pub open spec fn select(path: Option<Seq<usize>>) -> CommandView {
    match path {
        Some(nodes) => CommandView::SelectNodes(nodes),
        None => CommandView::Idle,
    }
}

/// The page after the graph was derived anew, and what follows: the
/// drawing, or the question.
pub open spec fn after_render(page: PageView, permission: bool) -> Outcome {
    let graph = reduced(page.graph);
    let nodes = graph.visible_nodes.len();
    let edges = graph.visible_edges.len();
    let fewer_nodes = nodes < page.graph.visible_nodes.len();
    let fewer_edges = edges < page.graph.visible_edges.len();
    let dim = GraphDimensions { node_count: nodes as usize, edge_count: edges as usize };
    if safe_to_render(nodes as usize, edges as usize, fewer_nodes, fewer_edges) || permission {
        Outcome {
            page: PageView { graph, graph_dim: dim, out_of_step: false, ..page },
            redraw: false,
            command: CommandView::Render { node_count_decreased: fewer_nodes },
        }
    } else {
        Outcome {
            page: PageView { graph, graph_dim: dim, ..page },
            redraw: false,
            command: CommandView::RequestPermission,
        }
    }
}

/// A message as a mathematical value.
pub enum MsgView {
    UpdateSvgText(Seq<char>, bool),
    RenderGraph(UserPermission),
    ApplyFilter(Filter),
    ResetGraph,
    GetUserPermission,
    PermissionAnswer(Option<bool>),
    KeepFilterAnswer(Option<bool>),
    WorkerOutput(WorkerOutput),
    UpdateSelectedNodes(Seq<usize>),
}

impl View for Msg {
    type V = MsgView;

    open spec fn view(&self) -> MsgView {
        match *self {
            Msg::UpdateSvgText(text, fewer) => MsgView::UpdateSvgText(text@, fewer),
            Msg::RenderGraph(p) => MsgView::RenderGraph(p),
            Msg::ApplyFilter(f) => MsgView::ApplyFilter(f),
            Msg::ResetGraph => MsgView::ResetGraph,
            Msg::GetUserPermission => MsgView::GetUserPermission,
            Msg::PermissionAnswer(a) => MsgView::PermissionAnswer(a),
            Msg::KeepFilterAnswer(a) => MsgView::KeepFilterAnswer(a),
            Msg::WorkerOutput(o) => MsgView::WorkerOutput(o),
            Msg::UpdateSelectedNodes(nodes) => MsgView::UpdateSelectedNodes(nodes@),
        }
    }
}

/// What each message leads to.
pub open spec fn update_spec(page: PageView, msg: MsgView) -> Outcome {
    match msg {
        MsgView::WorkerOutput(_) => Outcome { page, redraw: false, command: CommandView::Idle },
        MsgView::ApplyFilter(f) => Outcome {
            page: PageView { graph: with_mask(page.graph, mask_after(page.graph, f)), ..page },
            redraw: false,
            command: select(
                path_of(
                    revealed(
                        page.graph.visible,
                        mask_after(page.graph, f),
                        page.graph.nodes.len() as int,
                    ),
                ),
            ),
        },
        MsgView::ResetGraph => Outcome {
            page: PageView {
                graph: with_mask(page.graph, mask_after(page.graph, Filter::Reset)),
                ..page
            },
            redraw: false,
            command: CommandView::Idle,
        },
        MsgView::RenderGraph(p) => after_render(page, p.permission),
        MsgView::GetUserPermission => Outcome {
            page,
            redraw: false,
            command: CommandView::AskPermission {
                node_count: page.graph_dim.node_count,
                edge_count: page.graph_dim.edge_count,
            },
        },
        MsgView::PermissionAnswer(answer) => Outcome {
            page,
            redraw: false,
            command: match answer {
                Some(true) => CommandView::RenderWithPermission,
                Some(false) => CommandView::AskKeepFilter,
                None => CommandView::Idle,
            },
        },
        MsgView::KeepFilterAnswer(answer) => match answer {
            Some(true) => Outcome {
                page: PageView { out_of_step: true, ..page },
                redraw: true,
                command: CommandView::Idle,
            },
            Some(false) => Outcome {
                page,
                redraw: false,
                command: CommandView::RevertFilterChain,
            },
            None => Outcome { page, redraw: false, command: CommandView::Idle },
        },
        MsgView::UpdateSvgText(text, fewer_nodes) => if text != page.svg_text {
            Outcome {
                page: PageView { svg_text: text, ..page },
                redraw: true,
                command: if fewer_nodes {
                    CommandView::DeselectAll
                } else {
                    CommandView::Idle
                },
            }
        } else {
            Outcome { page, redraw: false, command: CommandView::Idle }
        },
        MsgView::UpdateSelectedNodes(nodes) => Outcome {
            page: PageView { selected: nodes, ..page },
            redraw: true,
            command: CommandView::Idle,
        },
    }
}

impl SVGResult {
    /// The page for a graph: nothing drawn, nothing selected.
    pub fn create(inst_graph: InstGraph) -> (r: SVGResult)
        ensures
            r@ == (PageView {
                graph: inst_graph@,
                svg_text: Seq::empty(),
                graph_dim: GraphDimensions { node_count: 0, edge_count: 0 },
                out_of_step: false,
                selected: Seq::empty(),
            }),
            r.inst_graph == inst_graph,
    {
        SVGResult {
            inst_graph,
            svg_text: String::new(),
            graph_dim: GraphDimensions { node_count: 0, edge_count: 0 },
            async_graph_and_filter_chain: false,
            selected_insts: Vec::new(),
        }
    }

    /// Takes a message: changes the page, and says whether it is to be shown
    /// anew and what is to be done outside.
    pub fn update(&mut self, msg: Msg) -> (r: (bool, Command))
        requires
            old(self).inst_graph.wf(),
        ensures
            final(self).inst_graph.wf(),
            final(self)@ == update_spec(old(self)@, msg@).page,
            r.0 == update_spec(old(self)@, msg@).redraw,
            r.1@ == update_spec(old(self)@, msg@).command,
    {
        match msg {
            Msg::WorkerOutput(_) => (false, Command::Idle),
            Msg::ApplyFilter(filter) => {
                match filter.apply(&mut self.inst_graph) {
                    Some(path) => (false, Command::SelectNodes(path)),
                    None => (false, Command::Idle),
                }
            },
            Msg::ResetGraph => {
                self.inst_graph.reset();
                (false, Command::Idle)
            },
            Msg::RenderGraph(UserPermission { permission }) => {
                let (node_count, edge_count, node_count_decreased, edge_count_decreased) =
                    self.inst_graph.retain_visible_nodes_and_reconnect();
                self.graph_dim = GraphDimensions { node_count, edge_count };
                let safe = is_safe_to_render(
                    node_count,
                    edge_count,
                    node_count_decreased,
                    edge_count_decreased,
                );
                if safe || permission {
                    self.async_graph_and_filter_chain = false;
                    (false, Command::Render { node_count_decreased })
                } else {
                    (false, Command::RequestPermission)
                }
            },
            Msg::GetUserPermission => (
                false,
                Command::AskPermission {
                    node_count: self.graph_dim.node_count,
                    edge_count: self.graph_dim.edge_count,
                },
            ),
            Msg::PermissionAnswer(answer) => match answer {
                Some(true) => (false, Command::RenderWithPermission),
                Some(false) => (false, Command::AskKeepFilter),
                None => (false, Command::Idle),
            },
            Msg::KeepFilterAnswer(answer) => match answer {
                Some(true) => {
                    self.async_graph_and_filter_chain = true;
                    (true, Command::Idle)
                },
                Some(false) => (false, Command::RevertFilterChain),
                None => (false, Command::Idle),
            },
            Msg::UpdateSvgText(svg_text, node_count_decreased) => {
                if svg_text != self.svg_text {
                    self.svg_text = svg_text;
                    if node_count_decreased {
                        (true, Command::DeselectAll)
                    } else {
                        (true, Command::Idle)
                    }
                } else {
                    (false, Command::Idle)
                }
            },
            Msg::UpdateSelectedNodes(nodes) => {
                self.selected_insts = nodes;
                (true, Command::Idle)
            },
        }
    }
}

} // verus!

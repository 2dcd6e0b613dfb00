//! The operations that change which nodes of the graph are shown.

use crate::inst_graph::{ends, lemma_edge_listed, lemma_edges_forward, GraphView, InstGraph};
use crate::reach::{
    anywhere, has_edge, lemma_reach_first, lemma_reach_prepend, lemma_walk_edge, lemma_walk_extend,
    lemma_walk_last, lemma_walk_to_forward, reachable, walk_to,
};
use vstd::prelude::*;

verus! {

/// The side of a node on which its neighbours are looked for.
#[derive(Debug, Clone, Copy, PartialEq, Eq, Structural)]
pub enum Direction {
    /// The nodes from which an edge leads to the node: its causes.
    Incoming,
    /// The nodes to which an edge leads from the node: its effects.
    Outgoing,
}

/// An operation on the mask.
#[derive(Debug, Clone, Copy, PartialEq, Eq, Structural)]
pub enum Filter {
    /// Hide a node and all that can be reached from it.
    Hide(usize),
    /// Show the neighbours of a node on one side.
    ShowNeighbours(usize, Direction),
    /// Show a node and all from which it can be reached, and nothing else.
    ShowSourceTree(usize),
    /// Show every node.
    Reset,
}

/// The nodes that are hidden under a mask.
pub open spec fn hidden_in(mask: Seq<bool>) -> spec_fn(usize) -> bool {
    |w: usize| w < mask.len() && !mask[w as int]
}

/// The nodes on which a walk may go on: the hidden ones, or all.
pub open spec fn allowed_in(mask: Seq<bool>, hidden_only: bool) -> spec_fn(usize) -> bool {
    if hidden_only {
        hidden_in(mask)
    } else {
        anywhere()
    }
}

/// Whether a node is `n` or can be reached from it.
pub open spec fn from_node(g: GraphView, n: usize, v: usize) -> bool {
    v == n || reachable(ends(g.edges), n, v)
}

/// Whether a node is `n` or `n` can be reached from it.
pub open spec fn to_node(g: GraphView, n: usize, v: usize) -> bool {
    v == n || reachable(ends(g.edges), v, n)
}

/// Whether a node is a neighbour of `n` on the given side.
pub open spec fn neighbour(g: GraphView, n: usize, direction: Direction, v: usize) -> bool {
    match direction {
        Direction::Incoming => has_edge(ends(g.edges), v, n),
        Direction::Outgoing => has_edge(ends(g.edges), n, v),
    }
}

/// Whether a node is shown after an operation. An operation on what is no
/// node of the graph changes nothing.
pub open spec fn shown_after(g: GraphView, f: Filter, v: int) -> bool {
    match f {
        Filter::Hide(n) => g.visible[v] && !(n < g.nodes.len() && from_node(g, n, v as usize)),
        Filter::ShowNeighbours(n, direction) => g.visible[v] || (n < g.nodes.len() && neighbour(
            g,
            n,
            direction,
            v as usize,
        )),
        Filter::ShowSourceTree(n) => if n < g.nodes.len() {
            to_node(g, n, v as usize)
        } else {
            g.visible[v]
        },
        Filter::Reset => true,
    }
}

/// The mask after an operation.
pub open spec fn mask_after(g: GraphView, f: Filter) -> Seq<bool> {
    Seq::new(g.nodes.len(), |v: int| shown_after(g, f, v))
}

/// The nodes below `m` that were hidden and are shown, in ascending order.
pub open spec fn revealed(before: Seq<bool>, after: Seq<bool>, m: int) -> Seq<usize>
    decreases m,
{
    if m <= 0 {
        Seq::empty()
    } else {
        let front = revealed(before, after, m - 1);
        if !before[m - 1] && after[m - 1] {
            front.push((m - 1) as usize)
        } else {
            front
        }
    }
}

/// What an operation hands back: the nodes that it revealed, if any.
pub open spec fn path_of(nodes: Seq<usize>) -> Option<Seq<usize>> {
    if nodes.len() > 0 {
        Some(nodes)
    } else {
        None
    }
}

/// The nodes that were handed back, as a sequence.
pub open spec fn path_view(p: Option<Vec<usize>>) -> Option<Seq<usize>> {
    match p {
        Some(v) => Some(v@),
        None => None,
    }
}

impl InstGraph {
    /// For each node, whether a walk leads to it from `u`: any walk, or one
    /// on which every node after `u` is hidden.
    pub fn reach_from(&self, u: usize, hidden_only: bool) -> (r: Vec<bool>)
        requires
            self.wf(),
            u < self.nodes.len(),
        ensures
            r@.len() == self.nodes@.len(),
            forall|w: int|
                0 <= w < r@.len() ==> (#[trigger] r@[w] <==> walk_to(
                    ends(self.edges@),
                    allowed_in(self.visible@, hidden_only),
                    u,
                    w as usize,
                )),
    {
        let n = self.nodes.len();
        let ghost es = ends(self.edges@);
        let ghost allowed = allowed_in(self.visible@, hidden_only);
        proof {
            lemma_edges_forward(self.edges@, n as int);
        }
        let mut r: Vec<bool> = Vec::new();
        let mut i: usize = 0;
        while i < n
            invariant
                0 <= i <= n,
                r@.len() == i,
                forall|w: int| 0 <= w < i ==> !#[trigger] r@[w],
            decreases n - i,
        {
            r.push(false);
            i += 1;
        }
        let mut w: usize = u + 1;
        assert forall|x: int| 0 <= x < w implies (#[trigger] r@[x] <==> walk_to(
            es,
            allowed,
            u,
            x as usize,
        )) by {
            if walk_to(es, allowed, u, x as usize) {
                lemma_walk_to_forward(es, allowed, u, x as usize);
            }
        }
        while w < n
            invariant
                u < w <= n,
                n == self.nodes.len(),
                self.wf(),
                es == ends(self.edges@),
                allowed == allowed_in(self.visible@, hidden_only),
                crate::reach::forward(es),
                r@.len() == n,
                forall|x: int|
                    0 <= x < w ==> (#[trigger] r@[x] <==> walk_to(es, allowed, u, x as usize)),
                forall|x: int| w <= x < n ==> !#[trigger] r@[x],
            decreases n - w,
        {
            let ok = !hidden_only || !self.visible[w];
            let mut found = false;
            if ok {
                let list = &self.parents[w];
                let mut j: usize = 0;
                while j < list.len() && !found
                    invariant
                        0 <= j <= list.len(),
                        u < w < n,
                        n == self.nodes.len(),
                        self.wf(),
                        list == self.parents@[w as int],
                        es == ends(self.edges@),
                        r@.len() == n,
                        allowed(w),
                        forall|x: int|
                            0 <= x < w ==> (#[trigger] r@[x] <==> walk_to(
                                es,
                                allowed,
                                u,
                                x as usize,
                            )),
                        found ==> walk_to(es, allowed, u, w),
                        !found ==> forall|k: int|
                            0 <= k < j ==> #[trigger] list@[k] != u && !walk_to(
                                es,
                                allowed,
                                u,
                                list@[k],
                            ),
                    decreases list.len() - j + (if found { 0int } else { 1int }),
                {
                    let p = list[j];
                    proof {
                        lemma_edge_listed(self, p, w);
                    }
                    if p == u {
                        proof {
                            lemma_walk_edge(es, allowed, u, w);
                        }
                        found = true;
                    } else if r[p] {
                        proof {
                            lemma_walk_extend(es, allowed, u, p, w);
                        }
                        found = true;
                    } else {
                        j += 1;
                    }
                }
            }
            proof {
                if !found && walk_to(es, allowed, u, w) {
                    let p = lemma_walk_last(es, allowed, u, w);
                    lemma_edge_listed(self, p, w);
                }
            }
            r.set(w, found);
            w += 1;
        }
        r
    }

    /// For each node, whether it is `n` or `n` can be reached from it.
    pub fn ancestors(&self, n: usize) -> (r: Vec<bool>)
        requires
            self.wf(),
            n < self.nodes.len(),
        ensures
            r@.len() == self.nodes@.len(),
            forall|v: int| 0 <= v < r@.len() ==> (#[trigger] r@[v] <==> to_node(self@, n, v as usize)),
    {
        let count = self.nodes.len();
        let ghost es = ends(self.edges@);
        proof {
            lemma_edges_forward(self.edges@, count as int);
        }
        let mut r: Vec<bool> = Vec::new();
        let mut i: usize = 0;
        while i < count
            invariant
                0 <= i <= count,
                r@.len() == i,
                forall|w: int| 0 <= w < i ==> !#[trigger] r@[w],
            decreases count - i,
        {
            r.push(false);
            i += 1;
        }
        r.set(n, true);
        assert forall|x: int| n <= x < count implies (#[trigger] r@[x] <==> to_node(
            self@,
            n,
            x as usize,
        )) by {
            if reachable(es, x as usize, n) {
                lemma_walk_to_forward(es, anywhere(), x as usize, n);
            }
        }
        let mut v: usize = n;
        while v > 0
            invariant
                0 <= v <= n < count,
                count == self.nodes.len(),
                self.wf(),
                es == ends(self.edges@),
                crate::reach::forward(es),
                r@.len() == count,
                forall|x: int|
                    v <= x < count ==> (#[trigger] r@[x] <==> to_node(self@, n, x as usize)),
                forall|x: int| 0 <= x < v ==> !#[trigger] r@[x],
            decreases v,
        {
            v -= 1;
            let list = &self.children[v];
            let mut found = false;
            let mut j: usize = 0;
            while j < list.len() && !found
                invariant
                    0 <= j <= list.len(),
                    v < n < count,
                    count == self.nodes.len(),
                    self.wf(),
                    list == self.children@[v as int],
                    es == ends(self.edges@),
                    r@.len() == count,
                    forall|x: int|
                        v < x < count ==> (#[trigger] r@[x] <==> to_node(self@, n, x as usize)),
                    found ==> reachable(es, v, n),
                    !found ==> forall|k: int|
                        0 <= k < j ==> !to_node(self@, n, #[trigger] list@[k]),
                decreases list.len() - j + (if found { 0int } else { 1int }),
            {
                let c = list[j];
                proof {
                    lemma_edge_listed(self, v, c);
                }
                if r[c] {
                    proof {
                        lemma_reach_prepend(es, v, c, n);
                    }
                    found = true;
                } else {
                    j += 1;
                }
            }
            proof {
                if !found && reachable(es, v, n) {
                    let c = lemma_reach_first(es, v, n);
                    lemma_edge_listed(self, v, c);
                }
            }
            r.set(v, found);
        }
        r
    }
}

/// Showing the source tree of a node shows that node and the nodes from
/// which it can be reached along edges of the full graph, and no other.
pub proof fn lemma_source_tree_is_ancestors(g: GraphView, n: usize, v: usize)
    requires
        n < g.nodes.len(),
        v < g.nodes.len(),
    ensures
        mask_after(g, Filter::ShowSourceTree(n))[v as int] <==> (v == n || reachable(
            ends(g.edges),
            v,
            n,
        )),
{
}

/// The graph with another mask.
pub open spec fn with_mask(g: GraphView, mask: Seq<bool>) -> GraphView {
    GraphView { visible: mask, ..g }
}

fn revealed_nodes(before: &Vec<bool>, after: &Vec<bool>) -> (r: Option<Vec<usize>>)
    requires
        before@.len() == after@.len(),
    ensures
        path_view(r) == path_of(revealed(before@, after@, before@.len() as int)),
{
    let mut out: Vec<usize> = Vec::new();
    let mut i: usize = 0;
    while i < before.len()
        invariant
            0 <= i <= before.len(),
            before@.len() == after@.len(),
            out@ == revealed(before@, after@, i as int),
        decreases before.len() - i,
    {
        if !before[i] && after[i] {
            out.push(i);
        }
        i += 1;
    }
    if out.len() > 0 {
        Some(out)
    } else {
        None
    }
}

fn copy_mask(mask: &Vec<bool>) -> (r: Vec<bool>)
    ensures
        r@ == mask@,
{
    let mut r: Vec<bool> = Vec::new();
    let mut i: usize = 0;
    while i < mask.len()
        invariant
            0 <= i <= mask.len(),
            r@ == mask@.take(i as int),
        decreases mask.len() - i,
    {
        r.push(mask[i]);
        i += 1;
    }
    r
}

impl InstGraph {
    /// The mask after a node and all that can be reached from it were hidden.
    fn mask_hide(&self, n: usize) -> (r: Vec<bool>)
        requires
            self.wf(),
        ensures
            r@ == mask_after(self@, Filter::Hide(n)),
    {
        let count = self.nodes.len();
        if n >= count {
            let r = copy_mask(&self.visible);
            return r;
        }
        let below = self.reach_from(n, false);
        let mut r: Vec<bool> = Vec::new();
        let mut v: usize = 0;
        while v < count
            invariant
                0 <= v <= count,
                count == self.nodes.len(),
                n < count,
                self.wf(),
                below@.len() == count,
                forall|w: int|
                    0 <= w < count ==> (#[trigger] below@[w] <==> walk_to(
                        ends(self.edges@),
                        allowed_in(self.visible@, false),
                        n,
                        w as usize,
                    )),
                r@.len() == v,
                forall|w: int|
                    0 <= w < v ==> #[trigger] r@[w] == shown_after(self@, Filter::Hide(n), w),
            decreases count - v,
        {
            r.push(self.visible[v] && !(v == n || below[v]));
            v += 1;
        }
        r
    }

    /// The mask after the neighbours of a node on one side were shown.
    fn mask_show_neighbours(&self, n: usize, direction: Direction) -> (r: Vec<bool>)
        requires
            self.wf(),
        ensures
            r@ == mask_after(self@, Filter::ShowNeighbours(n, direction)),
    {
        let count = self.nodes.len();
        let mut r = copy_mask(&self.visible);
        if n >= count {
            return r;
        }
        let list = match direction {
            Direction::Incoming => &self.parents[n],
            Direction::Outgoing => &self.children[n],
        };
        let mut j: usize = 0;
        while j < list.len()
            invariant
                0 <= j <= list.len(),
                count == self.nodes.len(),
                n < count,
                self.wf(),
                list == match direction {
                    Direction::Incoming => self.parents@[n as int],
                    Direction::Outgoing => self.children@[n as int],
                },
                r@.len() == count,
                forall|v: int|
                    0 <= v < count ==> (#[trigger] r@[v] <==> self.visible@[v] || exists|k: int|
                        0 <= k < j && list@[k] == v),
            decreases list.len() - j,
        {
            let c = list[j];
            r.set(c, true);
            j += 1;
        }
        proof {
            assert forall|v: int| 0 <= v < count implies r@[v] == shown_after(
                self@,
                Filter::ShowNeighbours(n, direction),
                v,
            ) by {
                let near = neighbour(self@, n, direction, v as usize);
                if near {
                    match direction {
                        Direction::Incoming => {
                            lemma_edge_listed(self, v as usize, n);
                        },
                        Direction::Outgoing => {
                            lemma_edge_listed(self, n, v as usize);
                        },
                    }
                }
            }
        }
        r
    }

    /// The mask that shows a node and all from which it can be reached.
    fn mask_source_tree(&self, n: usize) -> (r: Vec<bool>)
        requires
            self.wf(),
        ensures
            r@ == mask_after(self@, Filter::ShowSourceTree(n)),
    {
        if n >= self.nodes.len() {
            let r = copy_mask(&self.visible);
            return r;
        }
        let r = self.ancestors(n);
        r
    }

    /// The mask that shows every node.
    fn mask_reset(&self) -> (r: Vec<bool>)
        requires
            self.wf(),
        ensures
            r@ == mask_after(self@, Filter::Reset),
    {
        let mut r: Vec<bool> = Vec::new();
        let mut i: usize = 0;
        while i < self.nodes.len()
            invariant
                0 <= i <= self.nodes.len(),
                r@.len() == i,
                forall|v: int| 0 <= v < i ==> #[trigger] r@[v],
            decreases self.nodes.len() - i,
        {
            r.push(true);
            i += 1;
        }
        r
    }

    /// Shows every node again.
    pub fn reset(&mut self)
        requires
            old(self).wf(),
        ensures
            final(self).wf(),
            final(self)@ == with_mask(old(self)@, mask_after(old(self)@, Filter::Reset)),
    {
        let mask = self.mask_reset();
        self.visible = mask;
    }
}

impl Filter {
    /// Applies the operation to the mask of a graph, and hands back the
    /// nodes that it revealed, in ascending order, if it revealed any.
    /// Nothing but the mask changes.
    pub fn apply(self, graph: &mut InstGraph) -> (r: Option<Vec<usize>>)
        requires
            old(graph).wf(),
        ensures
            final(graph).wf(),
            final(graph)@ == with_mask(old(graph)@, mask_after(old(graph)@, self)),
            path_view(r) == path_of(
                revealed(
                    old(graph)@.visible,
                    mask_after(old(graph)@, self),
                    old(graph)@.nodes.len() as int,
                ),
            ),
    {
        let mask = match self {
            Filter::Hide(n) => graph.mask_hide(n),
            Filter::ShowNeighbours(n, direction) => graph.mask_show_neighbours(n, direction),
            Filter::ShowSourceTree(n) => graph.mask_source_tree(n),
            Filter::Reset => graph.mask_reset(),
        };
        let path = revealed_nodes(&graph.visible, &mask);
        graph.visible = mask;
        path
    }
}

} // verus!

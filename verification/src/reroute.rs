//! Why the reduced graph keeps what can be reached: between two shown nodes
//! a walk leads in the reduced graph exactly where one leads in the full
//! graph.

use crate::filter::hidden_in;
use crate::inst_graph::{ends, Edge, GraphView, VisibleEdge};
use crate::reach::{
    anywhere, has_edge, is_walk, lemma_walk_edge, lemma_walk_extend, reachable, walk_to,
};
use crate::reduce::{both_shown, direct_edges, indirect_edges, indirect_row, linked, reduced_edges};
use vstd::prelude::*;

verus! {

/// The two ends of an edge of the reduced graph, source first.
pub open spec fn shown_ends_of(e: VisibleEdge) -> (usize, usize) {
    (e.from, e.to)
}

/// The two ends of each edge of the reduced graph.
pub open spec fn shown_ends(edges: Seq<VisibleEdge>) -> Seq<(usize, usize)> {
    edges.map_values(|e: VisibleEdge| shown_ends_of(e))
}

/// Whether an edge of the reduced graph is owed from `a` to `b`: both are
/// shown, and an edge or a walk through hidden nodes leads from `a` to `b`.
pub open spec fn bridged(g: GraphView, a: usize, b: usize) -> bool {
    &&& a < g.visible.len() && g.visible[a as int]
    &&& b < g.visible.len() && g.visible[b as int]
    &&& has_edge(ends(g.edges), a, b) || linked(ends(g.edges), g.visible, a, b)
}

/// Each direct edge is an edge of the full graph between two shown nodes.
pub proof fn lemma_direct_sound(edges: Seq<Edge>, mask: Seq<bool>, k: int, i: int)
    requires
        0 <= k <= edges.len(),
        0 <= i < direct_edges(edges, mask, k).len(),
    ensures
        mask[direct_edges(edges, mask, k)[i].from as int],
        mask[direct_edges(edges, mask, k)[i].to as int],
        direct_edges(edges, mask, k)[i].from < mask.len(),
        direct_edges(edges, mask, k)[i].to < mask.len(),
        has_edge(
            ends(edges),
            direct_edges(edges, mask, k)[i].from,
            direct_edges(edges, mask, k)[i].to,
        ),
    decreases k,
{
    let front = direct_edges(edges, mask, k - 1);
    if i < front.len() {
        lemma_direct_sound(edges, mask, k - 1, i);
    } else {
        assert(ends(edges)[k - 1] == (edges[k - 1].from, edges[k - 1].to));
    }
}

/// Each edge of the full graph between two shown nodes is a direct edge.
pub proof fn lemma_direct_complete(edges: Seq<Edge>, mask: Seq<bool>, k: int, j: int)
    requires
        0 <= j < k <= edges.len(),
        both_shown(mask, edges[j]),
    ensures
        has_edge(shown_ends(direct_edges(edges, mask, k)), edges[j].from, edges[j].to),
    decreases k,
{
    let all = direct_edges(edges, mask, k);
    let front = direct_edges(edges, mask, k - 1);
    if j < k - 1 {
        lemma_direct_complete(edges, mask, k - 1, j);
        let w = choose|w: int|
            0 <= w < shown_ends(front).len() && #[trigger] shown_ends(front)[w] == (
                edges[j].from,
                edges[j].to,
            );
        assert(shown_ends(all)[w] == (edges[j].from, edges[j].to));
    } else {
        assert(shown_ends(all)[all.len() - 1] == (edges[j].from, edges[j].to));
    }
}

/// Each indirect edge that begins at `u` leads to a shown node to which `u`
/// leads through hidden nodes.
pub proof fn lemma_row_sound(es: Seq<(usize, usize)>, mask: Seq<bool>, u: usize, m: int, i: int)
    requires
        mask.len() <= usize::MAX,
        0 <= m <= mask.len(),
        0 <= i < indirect_row(es, mask, u, m).len(),
    ensures
        indirect_row(es, mask, u, m)[i].from == u,
        indirect_row(es, mask, u, m)[i].to < m,
        mask[indirect_row(es, mask, u, m)[i].to as int],
        linked(es, mask, u, indirect_row(es, mask, u, m)[i].to),
    decreases m,
{
    let front = indirect_row(es, mask, u, m - 1);
    if i < front.len() {
        lemma_row_sound(es, mask, u, m - 1, i);
    }
}

/// To each shown node to which `u` leads through hidden nodes an indirect
/// edge leads from `u`.
pub proof fn lemma_row_complete(es: Seq<(usize, usize)>, mask: Seq<bool>, u: usize, m: int, b: int)
    requires
        mask.len() <= usize::MAX,
        0 <= b < m <= mask.len(),
        mask[b],
        linked(es, mask, u, b as usize),
    ensures
        has_edge(shown_ends(indirect_row(es, mask, u, m)), u, b as usize),
    decreases m,
{
    let all = indirect_row(es, mask, u, m);
    let front = indirect_row(es, mask, u, m - 1);
    if b < m - 1 {
        lemma_row_complete(es, mask, u, m - 1, b);
        let w = choose|w: int|
            0 <= w < shown_ends(front).len() && #[trigger] shown_ends(front)[w] == (u, b as usize);
        assert(shown_ends(all)[w] == (u, b as usize));
    } else {
        assert(shown_ends(all)[all.len() - 1] == (u, b as usize));
    }
}

/// Each indirect edge leads from a shown node to a shown node to which it
/// leads through hidden nodes.
pub proof fn lemma_indirect_sound(es: Seq<(usize, usize)>, mask: Seq<bool>, rows: int, i: int)
    requires
        mask.len() <= usize::MAX,
        0 <= rows <= mask.len(),
        0 <= i < indirect_edges(es, mask, rows).len(),
    ensures
        indirect_edges(es, mask, rows)[i].from < mask.len(),
        indirect_edges(es, mask, rows)[i].to < mask.len(),
        mask[indirect_edges(es, mask, rows)[i].from as int],
        mask[indirect_edges(es, mask, rows)[i].to as int],
        linked(
            es,
            mask,
            indirect_edges(es, mask, rows)[i].from,
            indirect_edges(es, mask, rows)[i].to,
        ),
    decreases rows,
{
    let front = indirect_edges(es, mask, rows - 1);
    if i < front.len() {
        lemma_indirect_sound(es, mask, rows - 1, i);
    } else {
        lemma_row_sound(es, mask, (rows - 1) as usize, mask.len() as int, i - front.len());
    }
}

/// Wherever a shown node leads to a shown node through hidden nodes, an
/// indirect edge leads.
pub proof fn lemma_indirect_complete(
    es: Seq<(usize, usize)>,
    mask: Seq<bool>,
    rows: int,
    a: int,
    b: int,
)
    requires
        mask.len() <= usize::MAX,
        0 <= a < rows <= mask.len(),
        0 <= b < mask.len(),
        mask[a],
        mask[b],
        linked(es, mask, a as usize, b as usize),
    ensures
        has_edge(shown_ends(indirect_edges(es, mask, rows)), a as usize, b as usize),
    decreases rows,
{
    let all = indirect_edges(es, mask, rows);
    let front = indirect_edges(es, mask, rows - 1);
    if a < rows - 1 {
        lemma_indirect_complete(es, mask, rows - 1, a, b);
        let w = choose|w: int|
            0 <= w < shown_ends(front).len() && #[trigger] shown_ends(front)[w] == (
                a as usize,
                b as usize,
            );
        assert(shown_ends(all)[w] == (a as usize, b as usize));
    } else {
        let row = indirect_row(es, mask, a as usize, mask.len() as int);
        lemma_row_complete(es, mask, a as usize, mask.len() as int, b);
        let w = choose|w: int|
            0 <= w < shown_ends(row).len() && #[trigger] shown_ends(row)[w] == (
                a as usize,
                b as usize,
            );
        assert(shown_ends(all)[front.len() + w] == (a as usize, b as usize));
    }
}

/// The edges of the reduced graph are those that are owed: an edge leads
/// from `a` to `b` in the reduced graph exactly where both are shown and an
/// edge or a walk through hidden nodes leads from `a` to `b` in the full
/// graph.
pub proof fn lemma_reduced_edges(g: GraphView, a: usize, b: usize)
    requires
        g.wf(),
    ensures
        has_edge(shown_ends(reduced_edges(g)), a, b) <==> bridged(g, a, b),
{
    let es = ends(g.edges);
    let mask = g.visible;
    let direct = direct_edges(g.edges, mask, g.edges.len() as int);
    let indirect = indirect_edges(es, mask, g.nodes.len() as int);
    let all = reduced_edges(g);
    if has_edge(shown_ends(all), a, b) {
        let w = choose|w: int| 0 <= w < shown_ends(all).len() && #[trigger] shown_ends(all)[w] == (a, b);
        if w < direct.len() {
            lemma_direct_sound(g.edges, mask, g.edges.len() as int, w);
        } else {
            lemma_indirect_sound(es, mask, g.nodes.len() as int, w - direct.len());
        }
    }
    if bridged(g, a, b) {
        if has_edge(es, a, b) {
            let j = choose|j: int| 0 <= j < es.len() && #[trigger] es[j] == (a, b);
            lemma_direct_complete(g.edges, mask, g.edges.len() as int, j);
            let w = choose|w: int|
                0 <= w < shown_ends(direct).len() && #[trigger] shown_ends(direct)[w] == (a, b);
            assert(shown_ends(all)[w] == (a, b));
        } else {
            lemma_indirect_complete(es, mask, g.nodes.len() as int, a as int, b as int);
            let w = choose|w: int|
                0 <= w < shown_ends(indirect).len() && #[trigger] shown_ends(indirect)[w] == (
                    a,
                    b,
                );
            assert(shown_ends(all)[direct.len() + w] == (a, b));
        }
    }
}

/// What can be reached in two steps can be reached.
pub proof fn lemma_reach_trans(edges: Seq<(usize, usize)>, a: usize, b: usize, c: usize)
    requires
        reachable(edges, a, b),
        reachable(edges, b, c),
    ensures
        reachable(edges, a, c),
{
    let first = choose|path: Seq<usize>|
        #[trigger] is_walk(edges, anywhere(), path) && path[0] == a && path.last() == b;
    let second = choose|path: Seq<usize>|
        #[trigger] is_walk(edges, anywhere(), path) && path[0] == b && path.last() == c;
    let path = first + second.drop_first();
    assert(is_walk(edges, anywhere(), path));
}

/// A walk through hidden nodes is a walk.
pub proof fn lemma_hidden_walk_is_walk(es: Seq<(usize, usize)>, mask: Seq<bool>, u: usize, p: usize)
    requires
        walk_to(es, hidden_in(mask), u, p),
    ensures
        reachable(es, u, p),
{
    let path = choose|path: Seq<usize>|
        #[trigger] is_walk(es, hidden_in(mask), path) && path[0] == u && path.last() == p;
    assert(is_walk(es, anywhere(), path));
}

/// An edge of the reduced graph stands for a walk of the full graph.
pub proof fn lemma_bridged_is_reachable(g: GraphView, a: usize, b: usize)
    requires
        bridged(g, a, b),
    ensures
        reachable(ends(g.edges), a, b),
{
    let es = ends(g.edges);
    if has_edge(es, a, b) {
        lemma_walk_edge(es, anywhere(), a, b);
    } else {
        let p = choose|p: usize| walk_to(es, hidden_in(g.visible), a, p) && #[trigger] has_edge(es, p, b);
        lemma_hidden_walk_is_walk(es, g.visible, a, p);
        lemma_walk_extend(es, anywhere(), a, p, b);
    }
}

/// A walk of the reduced graph stands for a walk of the full graph.
pub proof fn lemma_reduced_walk_is_walk(g: GraphView, path: Seq<usize>)
    requires
        g.wf(),
        is_walk(shown_ends(reduced_edges(g)), anywhere(), path),
    ensures
        reachable(ends(g.edges), path[0], path.last()),
    decreases path.len(),
{
    let n = path.len() as int;
    lemma_reduced_edges(g, path[n - 2], path[n - 1]);
    lemma_bridged_is_reachable(g, path[n - 2], path[n - 1]);
    if n > 2 {
        let front = path.drop_last();
        lemma_reduced_walk_is_walk(g, front);
        lemma_reach_trans(ends(g.edges), path[0], path[n - 2], path[n - 1]);
    }
}

/// Where a walk of the full graph from a shown node has come to. If it ends
/// at a shown node, a walk of the reduced graph leads there. If it ends at a
/// hidden node, some shown node, the start or a node to which a walk of the
/// reduced graph leads, leads to that hidden node through hidden nodes.
pub open spec fn carried(g: GraphView, u: usize, x: usize) -> bool {
    let red = shown_ends(reduced_edges(g));
    if g.visible[x as int] {
        reachable(red, u, x)
    } else {
        exists|w: usize|
            w < g.visible.len() && g.visible[w as int] && (w == u || reachable(red, u, w))
                && #[trigger] walk_to(ends(g.edges), hidden_in(g.visible), w, x)
    }
}

/// Every walk of the full graph from a shown node is carried over to the
/// reduced graph.
pub proof fn lemma_walk_is_carried(g: GraphView, path: Seq<usize>)
    requires
        g.wf(),
        is_walk(ends(g.edges), anywhere(), path),
        path[0] < g.visible.len(),
        g.visible[path[0] as int],
    ensures
        path.last() < g.visible.len(),
        carried(g, path[0], path.last()),
    decreases path.len(),
{
    let es = ends(g.edges);
    let mask = g.visible;
    let red = shown_ends(reduced_edges(g));
    let n = path.len() as int;
    let u = path[0];
    let y = path[n - 2];
    let x = path[n - 1];
    if n > 2 {
        let front = path.drop_last();
        lemma_walk_is_carried(g, front);
    }
    // The shown node from which the last stretch of the walk sets out, and
    // which the reduced graph reaches from the start unless it is the start.
    if mask[y as int] {
        if mask[x as int] {
            lemma_reduced_edges(g, y, x);
            if y == u {
                lemma_walk_edge(red, anywhere(), u, x);
            } else {
                lemma_walk_extend(red, anywhere(), u, y, x);
            }
        } else {
            lemma_walk_edge(es, hidden_in(mask), y, x);
        }
    } else {
        let w = choose|w: usize|
            w < mask.len() && mask[w as int] && (w == u || reachable(red, u, w))
                && #[trigger] walk_to(es, hidden_in(mask), w, y);
        if mask[x as int] {
            lemma_reduced_edges(g, w, x);
            if w == u {
                lemma_walk_edge(red, anywhere(), u, x);
            } else {
                lemma_walk_extend(red, anywhere(), u, w, x);
            }
        } else {
            lemma_walk_extend(es, hidden_in(mask), w, y, x);
        }
    }
}

/// The reduced graph keeps what can be reached: from a shown node a shown
/// node can be reached along the edges of the reduced graph exactly where
/// it can be reached along the edges of the full graph.
pub proof fn lemma_reduction_keeps_reachability(g: GraphView, u: usize, v: usize)
    requires
        g.wf(),
        u < g.visible.len() && g.visible[u as int],
        v < g.visible.len() && g.visible[v as int],
    ensures
        reachable(shown_ends(reduced_edges(g)), u, v) <==> reachable(ends(g.edges), u, v),
{
    let red = shown_ends(reduced_edges(g));
    let es = ends(g.edges);
    if reachable(red, u, v) {
        let path = choose|path: Seq<usize>|
            #[trigger] is_walk(red, anywhere(), path) && path[0] == u && path.last() == v;
        lemma_reduced_walk_is_walk(g, path);
    }
    if reachable(es, u, v) {
        let path = choose|path: Seq<usize>|
            #[trigger] is_walk(es, anywhere(), path) && path[0] == u && path.last() == v;
        lemma_walk_is_carried(g, path);
    }
}

} // verus!

//! Walks in a directed graph that is given by the list of its edges, and
//! what can be reached along them.

use vstd::prelude::*;

verus! {

/// Whether the list holds an edge from `u` to `v`.
pub open spec fn has_edge(edges: Seq<(usize, usize)>, u: usize, v: usize) -> bool {
    exists|k: int| 0 <= k < edges.len() && #[trigger] edges[k] == (u, v)
}

/// Whether every edge leads from a node to one with a larger index.
pub open spec fn forward(edges: Seq<(usize, usize)>) -> bool {
    forall|k: int| 0 <= k < edges.len() ==> (#[trigger] edges[k]).0 < edges[k].1
}

/// Whether `path` is a walk along edges, of one edge at least, on which each
/// node after the first is allowed.
pub open spec fn is_walk(
    edges: Seq<(usize, usize)>,
    allowed: spec_fn(usize) -> bool,
    path: Seq<usize>,
) -> bool {
    &&& path.len() >= 2
    &&& forall|i: int| 0 <= i < path.len() - 1 ==> has_edge(edges, #[trigger] path[i], path[i + 1])
    &&& forall|i: int| 1 <= i < path.len() ==> allowed(#[trigger] path[i])
}

/// Whether a walk leads from `u` to `w` on which each node after `u`, `w`
/// too, is allowed.
pub open spec fn walk_to(
    edges: Seq<(usize, usize)>,
    allowed: spec_fn(usize) -> bool,
    u: usize,
    w: usize,
) -> bool {
    exists|path: Seq<usize>|
        #[trigger] is_walk(edges, allowed, path) && path[0] == u && path.last() == w
}

/// Every node is allowed.
pub open spec fn anywhere() -> spec_fn(usize) -> bool {
    |w: usize| true
}

/// Whether `v` can be reached from `u` along one edge or more.
pub open spec fn reachable(edges: Seq<(usize, usize)>, u: usize, v: usize) -> bool {
    walk_to(edges, anywhere(), u, v)
}

/// One edge to an allowed node is a walk.
pub proof fn lemma_walk_edge(
    edges: Seq<(usize, usize)>,
    allowed: spec_fn(usize) -> bool,
    u: usize,
    w: usize,
)
    requires
        has_edge(edges, u, w),
        allowed(w),
    ensures
        walk_to(edges, allowed, u, w),
{
    let path = seq![u, w];
    assert(is_walk(edges, allowed, path));
}

/// A walk goes on along an edge to an allowed node.
pub proof fn lemma_walk_extend(
    edges: Seq<(usize, usize)>,
    allowed: spec_fn(usize) -> bool,
    u: usize,
    p: usize,
    w: usize,
)
    requires
        walk_to(edges, allowed, u, p),
        has_edge(edges, p, w),
        allowed(w),
    ensures
        walk_to(edges, allowed, u, w),
{
    let front = choose|path: Seq<usize>|
        #[trigger] is_walk(edges, allowed, path) && path[0] == u && path.last() == p;
    let path = front.push(w);
    assert(is_walk(edges, allowed, path));
}

/// The last step of a walk: it ends at an allowed node, which it reaches by
/// an edge from the start or from a node that a walk leads to.
pub proof fn lemma_walk_last(
    edges: Seq<(usize, usize)>,
    allowed: spec_fn(usize) -> bool,
    u: usize,
    w: usize,
) -> (p: usize)
    requires
        walk_to(edges, allowed, u, w),
    ensures
        allowed(w),
        has_edge(edges, p, w),
        p == u || walk_to(edges, allowed, u, p),
{
    let path = choose|path: Seq<usize>|
        #[trigger] is_walk(edges, allowed, path) && path[0] == u && path.last() == w;
    let n = path.len() as int;
    let p = path[n - 2];
    if n > 2 {
        let front = path.drop_last();
        assert(is_walk(edges, allowed, front));
    }
    p
}

/// A walk begins with an edge to a node that is the end or from which the
/// end can be reached.
pub proof fn lemma_reach_first(edges: Seq<(usize, usize)>, v: usize, n: usize) -> (c: usize)
    requires
        reachable(edges, v, n),
    ensures
        has_edge(edges, v, c),
        c == n || reachable(edges, c, n),
{
    let path = choose|path: Seq<usize>|
        #[trigger] is_walk(edges, anywhere(), path) && path[0] == v && path.last() == n;
    let c = path[1];
    if path.len() > 2 {
        let rest = path.drop_first();
        assert(is_walk(edges, anywhere(), rest));
    }
    c
}

/// An edge before a walk, or before its end, is a walk.
pub proof fn lemma_reach_prepend(edges: Seq<(usize, usize)>, v: usize, c: usize, n: usize)
    requires
        has_edge(edges, v, c),
        c == n || reachable(edges, c, n),
    ensures
        reachable(edges, v, n),
{
    if c == n {
        lemma_walk_edge(edges, anywhere(), v, n);
    } else {
        let rest = choose|path: Seq<usize>|
            #[trigger] is_walk(edges, anywhere(), path) && path[0] == c && path.last() == n;
        let path = seq![v] + rest;
        assert(is_walk(edges, anywhere(), path));
    }
}

/// Where every edge leads forward, so does every walk.
pub proof fn lemma_walk_forward(
    edges: Seq<(usize, usize)>,
    allowed: spec_fn(usize) -> bool,
    path: Seq<usize>,
)
    requires
        forward(edges),
        is_walk(edges, allowed, path),
    ensures
        path[0] < path.last(),
    decreases path.len(),
{
    let n = path.len() as int;
    if n > 2 {
        let front = path.drop_last();
        lemma_walk_forward(edges, allowed, front);
    }
}

/// Where every edge leads forward, a walk ends after its start.
pub proof fn lemma_walk_to_forward(
    edges: Seq<(usize, usize)>,
    allowed: spec_fn(usize) -> bool,
    u: usize,
    w: usize,
)
    requires
        forward(edges),
        walk_to(edges, allowed, u, w),
    ensures
        u < w,
{
    let path = choose|path: Seq<usize>|
        #[trigger] is_walk(edges, allowed, path) && path[0] == u && path.last() == w;
    lemma_walk_forward(edges, allowed, path);
}

} // verus!

//! Read access to stored entity graphs: node lookup and bounded,
//! breadth-first neighbor traversal.
use vstd::prelude::*;
use crate::collection::CollectionName;
use crate::graph::{
    node_lt, node_of, relation_rank, EdgeView, EntityGraph, GraphNode, NodeId, NodeIdView,
    NodeView, RelationKind,
};
use crate::sorted::{Ordered, sorted_insert, sorted_views, views};

verus! {

/// The view of a neighbor: its node, the relation of the edge that reached
/// it, and the depth at which it was reached.
pub type NeighborView = (NodeView, RelationKind, u8);

/// The order of neighbors: by depth, then node, then relation.
pub open spec fn neighbor_lt(a: NeighborView, b: NeighborView) -> bool {
    a.2 < b.2 || (a.2 == b.2 && (node_lt(a.0, b.0) || (a.0 == b.0 && relation_rank(a.1)
        < relation_rank(b.1))))
}

/// Neighbors in strictly ascending order.
pub open spec fn neighbors_ascending(s: Seq<NeighborView>) -> bool {
    forall|i: int, j: int| 0 <= i < j < s.len() ==> neighbor_lt(#[trigger] s[i], #[trigger] s[j])
}

/// A neighbor of a node reached during graph traversal.
#[derive(Clone, Debug, PartialEq, Eq, PartialOrd, Ord)]
pub struct Neighbor {
    node: GraphNode,
    relation: RelationKind,
    depth: u8,
}

impl View for Neighbor {
    type V = NeighborView;

    closed spec fn view(&self) -> NeighborView {
        (self.node@, self.relation, self.depth)
    }
}

impl Neighbor {
    /// Creates a neighbor record from its node, the relation of the reaching
    /// edge, and the traversal depth.
    pub fn new(node: GraphNode, relation: RelationKind, depth: u8) -> (n: Neighbor)
        ensures
            n@ == (node@, relation, depth),
    {
        Neighbor { node, relation, depth }
    }

    /// Returns the neighbor node.
    pub fn node(&self) -> (n: &GraphNode)
        ensures
            n@ == self@.0,
    {
        &self.node
    }

    /// Returns the relation of the edge that reached this neighbor.
    pub fn relation(&self) -> (r: RelationKind)
        ensures
            r == self@.1,
    {
        self.relation
    }

    /// Returns the traversal depth at which this neighbor was reached.
    pub fn depth(&self) -> (d: u8)
        ensures
            d == self@.2,
    {
        self.depth
    }
}

impl Ordered for Neighbor {
    open spec fn lt_view(a: NeighborView, b: NeighborView) -> bool {
        neighbor_lt(a, b)
    }

    proof fn lemma_order(a: NeighborView, b: NeighborView, c: NeighborView) {
        GraphNode::lemma_order(a.0, b.0, c.0);
        GraphNode::lemma_order(b.0, a.0, c.0);
        GraphNode::lemma_order(a.0, c.0, b.0);
        if a.0 == b.0 && a.2 == b.2 && relation_rank(a.1) == relation_rank(b.1) {
            assert(a.1 == b.1);
            assert(a == b);
        }
    }

    fn compare(&self, other: &Neighbor) -> (r: i8) {
        proof {
            GraphNode::lemma_order(self.node@, other.node@, self.node@);
        }
        if self.depth < other.depth {
            return -1;
        }
        if self.depth > other.depth {
            return 1;
        }
        let c = self.node.compare(&other.node);
        if c != 0 {
            return c;
        }
        let a = self.relation.rank();
        let b = other.relation.rank();
        if a < b {
            -1
        } else if a > b {
            1
        } else {
            assert(self.relation == other.relation);
            0
        }
    }
}

/// Whether an edge of relation `rel` is traversed under the filter `want`.
pub open spec fn passes(rel: RelationKind, want: Option<RelationKind>) -> bool {
    match want {
        Some(w) => w == rel,
        None => true,
    }
}

/// Whether edge `k` is traversed: it passes the filter and its destination
/// is a node of the graph.
pub open spec fn edge_hit(
    es: Seq<EdgeView>,
    ns: Seq<NodeView>,
    want: Option<RelationKind>,
    k: int,
) -> bool {
    passes(es[k].2, want) && node_of(ns, es[k].1) is Some
}

/// The neighbor that traversing edge `k` at depth `depth` records.
pub open spec fn neighbor_at(es: Seq<EdgeView>, ns: Seq<NodeView>, k: int, depth: nat) -> NeighborView {
    (node_of(ns, es[k].1)->0, es[k].2, depth as u8)
}

/// The neighbors recorded at depth `depth` by the traversed edges selected
/// by `sel`.
pub open spec fn nbrs_where(
    es: Seq<EdgeView>,
    ns: Seq<NodeView>,
    want: Option<RelationKind>,
    depth: nat,
    sel: spec_fn(int) -> bool,
) -> Set<NeighborView> {
    Set::new(
        |nb: NeighborView|
            exists|k: int|
                0 <= k < es.len() && sel(k) && edge_hit(es, ns, want, k) && nb == neighbor_at(
                    es,
                    ns,
                    k,
                    depth,
                ),
    )
}

/// The destinations of the traversed edges selected by `sel`.
pub open spec fn ids_where(
    es: Seq<EdgeView>,
    ns: Seq<NodeView>,
    want: Option<RelationKind>,
    sel: spec_fn(int) -> bool,
) -> Set<NodeIdView> {
    Set::new(
        |v: NodeIdView|
            exists|k: int| 0 <= k < es.len() && sel(k) && edge_hit(es, ns, want, k) && es[k].1 == v,
    )
}

/// Selects the edges leaving `frontier`.
pub open spec fn leaving(es: Seq<EdgeView>, frontier: Set<NodeIdView>) -> spec_fn(int) -> bool {
    |k: int| frontier.contains(es[k].0)
}

/// The breadth-first layers: after `d` levels, the frontier (the nodes first
/// reached at depth `d`) and the set of nodes reached so far.
pub open spec fn layer(
    es: Seq<EdgeView>,
    ns: Seq<NodeView>,
    start: NodeIdView,
    want: Option<RelationKind>,
    d: nat,
) -> (Set<NodeIdView>, Set<NodeIdView>)
    decreases d,
{
    if d == 0 {
        (set![start], set![start])
    } else {
        let prev = layer(es, ns, start, want, (d - 1) as nat);
        let hop = ids_where(es, ns, want, leaving(es, prev.0));
        (hop.difference(prev.1), prev.1.union(hop))
    }
}

/// Every neighbor recorded within `max` levels: each edge leaving the
/// frontier of level `d` records its destination at depth `d + 1`.
pub open spec fn reached(
    es: Seq<EdgeView>,
    ns: Seq<NodeView>,
    start: NodeIdView,
    want: Option<RelationKind>,
    max: nat,
) -> Set<NeighborView>
    decreases max,
{
    if max == 0 {
        Set::empty()
    } else {
        let d = (max - 1) as nat;
        reached(es, ns, start, want, d).union(
            nbrs_where(es, ns, want, max, leaving(es, layer(es, ns, start, want, d).0)),
        )
    }
}

/// Selection sets that agree on every edge select the same neighbors and
/// destinations.
proof fn lemma_where_ext(
    es: Seq<EdgeView>,
    ns: Seq<NodeView>,
    want: Option<RelationKind>,
    depth: nat,
    s1: spec_fn(int) -> bool,
    s2: spec_fn(int) -> bool,
)
    requires
        forall|k: int| #![trigger s1(k)] #![trigger s2(k)] 0 <= k < es.len() ==> s1(k) == s2(k),
    ensures
        nbrs_where(es, ns, want, depth, s1) == nbrs_where(es, ns, want, depth, s2),
        ids_where(es, ns, want, s1) == ids_where(es, ns, want, s2),
{
    assert(nbrs_where(es, ns, want, depth, s1) =~= nbrs_where(es, ns, want, depth, s2));
    assert(ids_where(es, ns, want, s1) =~= ids_where(es, ns, want, s2));
}

/// Selecting one more edge adds what that edge records.
proof fn lemma_where_step(
    es: Seq<EdgeView>,
    ns: Seq<NodeView>,
    want: Option<RelationKind>,
    depth: nat,
    s1: spec_fn(int) -> bool,
    s2: spec_fn(int) -> bool,
    b: int,
)
    requires
        0 <= b < es.len(),
        forall|k: int| #![trigger s1(k)] #![trigger s2(k)] 0 <= k < es.len() ==> s2(k) == (s1(k) || k == b),
    ensures
        nbrs_where(es, ns, want, depth, s2) == if edge_hit(es, ns, want, b) {
            nbrs_where(es, ns, want, depth, s1).insert(neighbor_at(es, ns, b, depth))
        } else {
            nbrs_where(es, ns, want, depth, s1)
        },
        ids_where(es, ns, want, s2) == if edge_hit(es, ns, want, b) {
            ids_where(es, ns, want, s1).insert(es[b].1)
        } else {
            ids_where(es, ns, want, s1)
        },
{
    if edge_hit(es, ns, want, b) {
        assert(nbrs_where(es, ns, want, depth, s2) =~= nbrs_where(es, ns, want, depth, s1).insert(
            neighbor_at(es, ns, b, depth),
        ));
        assert(ids_where(es, ns, want, s2) =~= ids_where(es, ns, want, s1).insert(es[b].1));
    } else {
        assert(nbrs_where(es, ns, want, depth, s2) =~= nbrs_where(es, ns, want, depth, s1));
        assert(ids_where(es, ns, want, s2) =~= ids_where(es, ns, want, s1));
    }
}

/// The view set of a pushed sequence gains the pushed view.
proof fn lemma_views_push<T: View>(s: Seq<T>, x: T)
    ensures
        views(s.push(x)).to_set() == views(s).to_set().insert(x@),
{
    assert(views(s.push(x)) =~= views(s).push(x@));
    views(s).lemma_push_to_set_commute(x@);
}

/// Selects the edges leaving the first `a` frontier entries, and those among
/// the first `b` edges that leave entry `a`.
pub open spec fn sel_prefix(es: Seq<EdgeView>, fv: Seq<NodeIdView>, a: int, b: int) -> spec_fn(
    int,
) -> bool {
    |k: int|
        (exists|i: int| 0 <= i < a && #[trigger] fv[i] == es[k].0) || (0 <= a < fv.len() && fv[a]
            == es[k].0 && k < b)
}

/// Whether the filter lets relation `rel` through.
fn passes_filter(rel: RelationKind, want: Option<RelationKind>) -> (b: bool)
    ensures
        b == passes(rel, want),
{
    match want {
        Some(w) => w.rank() == rel.rank(),
        None => true,
    }
}

/// Whether `ids` holds `id`.
fn contains_id(ids: &Vec<NodeId>, id: &NodeId) -> (b: bool)
    ensures
        b == views(ids@).contains(id@),
{
    let mut i: usize = 0;
    while i < ids.len()
        invariant
            0 <= i <= ids@.len(),
            forall|k: int| 0 <= k < i ==> ids@[k]@ != id@,
        decreases ids@.len() - i,
    {
        if ids[i].compare_id(id) == 0 {
            assert(views(ids@)[i as int] == id@);
            return true;
        }
        i = i + 1;
    }
    proof {
        if views(ids@).contains(id@) {
            let k = choose|k: int| 0 <= k < views(ids@).len() && views(ids@)[k] == id@;
            assert(ids@[k]@ == id@);
        }
    }
    false
}

/// Performs a breadth-first, cycle-guarded traversal over `graph` starting at
/// `start`, optionally filtered by `relation`, up to `max_hops` deep.
///
/// Each level expands only the nodes first reached at the level before, so no
/// node is expanded twice and the traversal terminates. Every traversed edge
/// from an expanded node records its destination node, the edge's relation
/// and the depth; the records come back once each, ordered by depth, then
/// node, then relation.
pub fn traverse_graph(
    graph: &EntityGraph,
    start: &NodeId,
    relation: Option<RelationKind>,
    max_hops: u8,
) -> (r: Vec<Neighbor>)
    ensures
        neighbors_ascending(views(r@)),
        views(r@).to_set() == reached(
            graph.edge_seq(),
            graph.node_seq(),
            start@,
            relation,
            max_hops as nat,
        ),
{
    let edges = graph.edges();
    let ghost es = graph.edge_seq();
    let ghost ns = graph.node_seq();
    let ghost s = start@;
    let mut results: Vec<Neighbor> = Vec::new();
    let mut visited: Vec<NodeId> = Vec::new();
    let mut frontier: Vec<NodeId> = Vec::new();
    proof {
        assert(views(Seq::<NodeId>::empty()).to_set() =~= Set::<NodeIdView>::empty());
        assert(views(results@).to_set() =~= Set::<NeighborView>::empty());
    }
    visited.push(start.duplicate());
    frontier.push(start.duplicate());
    proof {
        lemma_views_push(Seq::<NodeId>::empty(), frontier@[0]);
        assert(Seq::<NodeId>::empty().push(frontier@[0]) == frontier@);
        assert(Seq::<NodeId>::empty().push(visited@[0]) == visited@);
        lemma_views_push(Seq::<NodeId>::empty(), visited@[0]);
    }
    let mut depth: u8 = 0;
    while depth < max_hops
        invariant
            depth <= max_hops,
            views(edges@) == es,
            es == graph.edge_seq(),
            ns == graph.node_seq(),
            s == start@,
            views(frontier@).to_set() == layer(es, ns, s, relation, depth as nat).0,
            views(visited@).to_set() == layer(es, ns, s, relation, depth as nat).1,
            sorted_views(results@),
            views(results@).to_set() == reached(es, ns, s, relation, depth as nat),
        decreases max_hops - depth,
    {
        let ghost fv = views(frontier@);
        let ghost vset = views(visited@).to_set();
        let ghost r0 = views(results@).to_set();
        let ghost d1 = (depth + 1) as nat;
        let mut next: Vec<NodeId> = Vec::new();
        let mut a: usize = 0;
        proof {
            lemma_where_ext(es, ns, relation, d1, sel_prefix(es, fv, 0, 0), |k: int| false);
            assert(nbrs_where(es, ns, relation, d1, |k: int| false) =~= Set::empty());
            assert(ids_where(es, ns, relation, |k: int| false) =~= Set::empty());
            assert(views(next@).to_set() =~= Set::<NodeIdView>::empty());
            assert(r0.union(Set::empty()) =~= r0);
            assert(vset.union(Set::empty()) =~= vset);
            assert(Set::<NodeIdView>::empty().difference(vset) =~= Set::empty());
        }
        while a < frontier.len()
            invariant
                0 <= a <= frontier@.len(),
                depth < max_hops,
                d1 == depth + 1,
                fv == views(frontier@),
                views(edges@) == es,
                es == graph.edge_seq(),
                ns == graph.node_seq(),
                sorted_views(results@),
                views(results@).to_set() == r0.union(
                    nbrs_where(es, ns, relation, d1, sel_prefix(es, fv, a as int, 0)),
                ),
                views(next@).to_set() == ids_where(
                    es,
                    ns,
                    relation,
                    sel_prefix(es, fv, a as int, 0),
                ).difference(vset),
                views(visited@).to_set() == vset.union(views(next@).to_set()),
            decreases frontier@.len() - a,
        {
            let u = &frontier[a];
            let mut b: usize = 0;
            while b < edges.len()
                invariant
                    0 <= a < frontier@.len(),
                    0 <= b <= edges@.len(),
                    depth < max_hops,
                    d1 == depth + 1,
                    fv == views(frontier@),
                    u@ == fv[a as int],
                    views(edges@) == es,
                    es == graph.edge_seq(),
                    ns == graph.node_seq(),
                    sorted_views(results@),
                    views(results@).to_set() == r0.union(
                        nbrs_where(es, ns, relation, d1, sel_prefix(es, fv, a as int, b as int)),
                    ),
                    views(next@).to_set() == ids_where(
                        es,
                        ns,
                        relation,
                        sel_prefix(es, fv, a as int, b as int),
                    ).difference(vset),
                    views(visited@).to_set() == vset.union(views(next@).to_set()),
                decreases edges@.len() - b,
            {
                let e = &edges[b];
                let ghost s1 = sel_prefix(es, fv, a as int, b as int);
                let ghost s2 = sel_prefix(es, fv, a as int, b + 1);
                assert(es[b as int] == e@);
                let from_u = e.src().compare_id(u) == 0;
                if from_u && passes_filter(e.relation(), relation) {
                    proof {
                        assert forall|k: int| 0 <= k < es.len() implies #[trigger] s2(k) == (s1(k) || k
                            == b) by {}
                        lemma_where_step(es, ns, relation, d1, s1, s2, b as int);
                    }
                    match graph.node(e.dst()) {
                        Some(n) => {
                            let nb = Neighbor::new(n.duplicate(), e.relation(), depth + 1);
                            assert(nb@ == neighbor_at(es, ns, b as int, d1));
                            sorted_insert(&mut results, nb);
                            proof {
                                assert(r0.union(nbrs_where(es, ns, relation, d1, s2)) =~= r0.union(
                                    nbrs_where(es, ns, relation, d1, s1),
                                ).insert(neighbor_at(es, ns, b as int, d1)));
                            }
                            if !contains_id(&visited, e.dst()) {
                                let ghost before_next = next@;
                                let ghost before_visited = visited@;
                                assert(!views(before_visited).to_set().contains(es[b as int].1));
                                visited.push(e.dst().duplicate());
                                next.push(e.dst().duplicate());
                                proof {
                                    lemma_views_push(before_next, next@.last());
                                    assert(before_next.push(next@.last()) == next@);
                                    lemma_views_push(before_visited, visited@.last());
                                    assert(before_visited.push(visited@.last()) == visited@);
                                    assert(!vset.contains(es[b as int].1));
                                    assert(views(next@).to_set() =~= ids_where(
                                        es,
                                        ns,
                                        relation,
                                        s2,
                                    ).difference(vset));
                                    assert(views(visited@).to_set() =~= vset.union(
                                        views(next@).to_set(),
                                    ));
                                }
                            } else {
                                proof {
                                    assert(views(visited@).to_set().contains(es[b as int].1));
                                    assert(views(next@).to_set() =~= ids_where(
                                        es,
                                        ns,
                                        relation,
                                        s2,
                                    ).difference(vset));
                                }
                            }
                        },
                        None => {},
                    }
                } else {
                    proof {
                        assert forall|k: int| 0 <= k < es.len() implies #[trigger] s2(k) == (s1(k) || (k == b
                            && from_u)) by {}
                        if from_u {
                            lemma_where_step(es, ns, relation, d1, s1, s2, b as int);
                        } else {
                            lemma_where_ext(es, ns, relation, d1, s1, s2);
                        }
                    }
                }
                b = b + 1;
            }
            proof {
                let t1 = sel_prefix(es, fv, a as int, edges@.len() as int);
                let t2 = sel_prefix(es, fv, a + 1, 0);
                assert forall|k: int| 0 <= k < es.len() implies #[trigger] t1(k) == t2(k) by {
                    if fv[a as int] == es[k].0 {
                        assert(t2(k));
                    }
                    if t2(k) {
                        let i = choose|i: int| 0 <= i < a + 1 && #[trigger] fv[i] == es[k].0;
                        if i < a {
                            assert(t1(k));
                        }
                    }
                }
                lemma_where_ext(es, ns, relation, d1, t1, t2);
            }
            a = a + 1;
        }
        proof {
            let fset = fv.to_set();
            let t1 = sel_prefix(es, fv, fv.len() as int, 0);
            let t2 = leaving(es, fset);
            assert forall|k: int| 0 <= k < es.len() implies #[trigger] t1(k) == t2(k) by {
                if t1(k) {
                    let i = choose|i: int| 0 <= i < fv.len() && #[trigger] fv[i] == es[k].0;
                    assert(fset.contains(fv[i]));
                }
                if t2(k) {
                    let i = choose|i: int| 0 <= i < fv.len() && fv[i] == es[k].0;
                    assert(fv[i] == es[k].0);
                }
            }
            lemma_where_ext(es, ns, relation, d1, t1, t2);
            let prev = layer(es, ns, s, relation, depth as nat);
            assert(prev.0 == fset);
            assert(layer(es, ns, s, relation, d1) == (
                ids_where(es, ns, relation, t2).difference(prev.1),
                prev.1.union(ids_where(es, ns, relation, t2)),
            ));
            assert(views(visited@).to_set() =~= prev.1.union(ids_where(es, ns, relation, t2)));
        }
        frontier = next;
        depth = depth + 1;
    }
    proof {
        assert forall|i: int, j: int| 0 <= i < j < views(results@).len() implies neighbor_lt(
            #[trigger] views(results@)[i],
            #[trigger] views(results@)[j],
        ) by {
            assert(views(results@)[i] == results@[i]@);
            assert(views(results@)[j] == results@[j]@);
        }
    }
    results
}


/// Every neighbor found within `max` hops was reached at a depth between one
/// and `max`: the traversal stops at the hop limit.
pub proof fn lemma_reached_depths(
    es: Seq<EdgeView>,
    ns: Seq<NodeView>,
    start: NodeIdView,
    want: Option<RelationKind>,
    max: nat,
)
    requires
        max <= 255,
    ensures
        forall|nb: NeighborView|
            #[trigger] reached(es, ns, start, want, max).contains(nb) ==> 1 <= nb.2 <= max,
    decreases max,
{
    if max > 0 {
        let d = (max - 1) as nat;
        lemma_reached_depths(es, ns, start, want, d);
        let top = nbrs_where(es, ns, want, max, leaving(es, layer(es, ns, start, want, d).0));
        assert forall|nb: NeighborView| #[trigger] top.contains(nb) implies nb.2 == max by {
            let k = choose|k: int|
                0 <= k < es.len() && leaving(es, layer(es, ns, start, want, d).0)(k) && edge_hit(
                    es,
                    ns,
                    want,
                    k,
                ) && nb == neighbor_at(es, ns, k, max);
            assert(nb.2 == max as u8);
        }
        assert(reached(es, ns, start, want, max) == reached(es, ns, start, want, d).union(top));
        assert forall|nb: NeighborView| #[trigger]
            reached(es, ns, start, want, max).contains(nb) implies 1 <= nb.2 <= max by {
            if top.contains(nb) {
            } else {
                assert(reached(es, ns, start, want, d).contains(nb));
            }
        }
    }
}

/// A shallower traversal finds exactly the neighbors of a deeper one that
/// lie within its own hop limit.
pub proof fn lemma_reached_prefix(
    es: Seq<EdgeView>,
    ns: Seq<NodeView>,
    start: NodeIdView,
    want: Option<RelationKind>,
    m: nat,
    n: nat,
)
    requires
        m <= n <= 255,
    ensures
        reached(es, ns, start, want, m) == reached(es, ns, start, want, n).filter(
            |nb: NeighborView| nb.2 <= m,
        ),
    decreases n - m,
{
    lemma_reached_depths(es, ns, start, want, n);
    lemma_reached_depths(es, ns, start, want, m);
    if m == n {
        assert(reached(es, ns, start, want, m) =~= reached(es, ns, start, want, n).filter(
            |nb: NeighborView| nb.2 <= m,
        ));
    } else {
        lemma_reached_prefix(es, ns, start, want, m, (n - 1) as nat);
        let d = (n - 1) as nat;
        let top = nbrs_where(es, ns, want, n, leaving(es, layer(es, ns, start, want, d).0));
        assert forall|nb: NeighborView| #[trigger] top.contains(nb) implies nb.2 == n by {}
        assert(reached(es, ns, start, want, m) =~= reached(es, ns, start, want, n).filter(
            |nb: NeighborView| nb.2 <= m,
        ));
    }
}

/// The layers never overlap the nodes reached before them: each node is
/// expanded at most once, so cycles cannot make the traversal revisit it.
pub proof fn lemma_layers_fresh(
    es: Seq<EdgeView>,
    ns: Seq<NodeView>,
    start: NodeIdView,
    want: Option<RelationKind>,
    d: nat,
)
    ensures
        layer(es, ns, start, want, d).0.subset_of(layer(es, ns, start, want, d).1),
        forall|e: nat|
            e < d ==> layer(es, ns, start, want, e).1.subset_of(
                #[trigger] layer(es, ns, start, want, d).1,
            ),
        forall|e: nat|
            e < d ==> layer(es, ns, start, want, d).0.disjoint(
                #[trigger] layer(es, ns, start, want, e).0,
            ),
    decreases d,
{
    if d > 0 {
        let p = (d - 1) as nat;
        lemma_layers_fresh(es, ns, start, want, p);
        assert forall|e: nat| e < d implies layer(es, ns, start, want, d).0.disjoint(
            #[trigger] layer(es, ns, start, want, e).0,
        ) by {
            if e < p {
                assert(layer(es, ns, start, want, e).1.subset_of(layer(es, ns, start, want, p).1));
            }
        }
    }
}


/// Describes a failure while reading a stored entity graph.
#[derive(Clone, Debug, PartialEq, Eq)]
pub enum GraphStoreError {
    /// The requested collection does not exist.
    CollectionNotFound,
    /// The selected database does not exist.
    DatabaseNotFound,
    /// The storage operation failed; the text describes the cause.
    Storage(String),
}

impl GraphStoreError {
    /// The human-readable description of the error.
    pub fn message(&self) -> (m: &'static str)
        ensures
            self is CollectionNotFound ==> m@ == "collection not found"@,
            self is DatabaseNotFound ==> m@ == "database does not exist"@,
            self is Storage ==> m@ == "graph storage failed"@,
    {
        match self {
            GraphStoreError::CollectionNotFound => "collection not found",
            GraphStoreError::DatabaseNotFound => "database does not exist",
            GraphStoreError::Storage(_) => "graph storage failed",
        }
    }
}

/// Reads an entity graph built by `mdsearch update`.
///
/// The store is read-only: it never mutates the graph or any other stored
/// state. Implementations must honor the documented lookup, ordering, depth,
/// cycle, and error contracts.
pub trait GraphStore {
    /// Returns the node with the given identity, if it exists in the
    /// collection; fails with `CollectionNotFound` when the collection is
    /// unknown, `DatabaseNotFound` when the database is missing, and
    /// `Storage` for other failures.
    fn node(&self, collection: &CollectionName, id: &NodeId) -> Result<
        Option<GraphNode>,
        GraphStoreError,
    >;

    /// Returns the neighbors of `id` reachable within `max_hops` hops. When
    /// `relation` is `Some`, only edges of that relation are traversed. The
    /// traversal is breadth-first with a cycle guard, so it terminates and
    /// never revisits a node. Results are ordered by depth then node
    /// identity. Fails as [`GraphStore::node`] does.
    fn neighbors(
        &self,
        collection: &CollectionName,
        id: &NodeId,
        relation: Option<RelationKind>,
        max_hops: u8,
    ) -> Result<Vec<Neighbor>, GraphStoreError>;
}

/// The view of a stored graph: its nodes and its edges, in ascending order.
pub type StoredGraphView = (Seq<NodeView>, Seq<EdgeView>);

/// The view of a collection name: its display spelling and its key.
pub type NameView = (Seq<char>, Seq<char>);

/// The graph stored last under `name` among `entries`.
pub open spec fn lookup_graph(entries: Seq<(NameView, StoredGraphView)>, name: NameView) -> Option<
    StoredGraphView,
>
    decreases entries.len(),
{
    if entries.len() == 0 {
        None
    } else if entries.last().0 == name {
        Some(entries.last().1)
    } else {
        lookup_graph(entries.drop_last(), name)
    }
}

/// Replacing the last entry stored under a name changes only that name's
/// graph.
proof fn lemma_lookup_update(
    entries: Seq<(NameView, StoredGraphView)>,
    i: int,
    g: StoredGraphView,
    other: NameView,
)
    requires
        0 <= i < entries.len(),
        forall|j: int| i < j < entries.len() ==> (#[trigger] entries[j]).0 != entries[i].0,
    ensures
        lookup_graph(entries.update(i, (entries[i].0, g)), other) == if other == entries[i].0 {
            Some(g)
        } else {
            lookup_graph(entries, other)
        },
    decreases entries.len(),
{
    let u = entries.update(i, (entries[i].0, g));
    if i < entries.len() - 1 {
        assert(u.drop_last() =~= entries.drop_last().update(i, (entries[i].0, g)));
        assert(u.last() == entries.last());
        assert(entries.last().0 != entries[i].0);
        lemma_lookup_update(entries.drop_last(), i, g, other);
    } else {
        assert(u.drop_last() =~= entries.drop_last());
    }
}

/// An in-memory [`GraphStore`] for tests and as a reference implementation.
///
/// Honors the same contract as production stores over the graphs it holds.
pub struct InMemoryGraphStore {
    graphs: Vec<(CollectionName, EntityGraph)>,
}

impl InMemoryGraphStore {
    /// The stored entries, each as its name and graph.
    pub closed spec fn entries(&self) -> Seq<(NameView, StoredGraphView)> {
        self.graphs@.map_values(
            |e: (CollectionName, EntityGraph)| (e.0@, (e.1.node_seq(), e.1.edge_seq())),
        )
    }

    /// The graph held for `name`, if any.
    pub open spec fn graph_of(&self, name: NameView) -> Option<StoredGraphView> {
        lookup_graph(self.entries(), name)
    }

    /// Creates an empty in-memory graph store.
    pub fn new() -> (s: InMemoryGraphStore)
        ensures
            forall|name: NameView| s.graph_of(name) is None,
    {
        let s = InMemoryGraphStore { graphs: Vec::new() };
        assert(s.entries() =~= Seq::<(NameView, StoredGraphView)>::empty());
        s
    }

    /// Inserts or replaces the graph for a collection.
    pub fn insert(&mut self, collection: CollectionName, graph: EntityGraph)
        ensures
            forall|name: NameView|
                #[trigger] final(self).graph_of(name) == if name == collection@ {
                    Some((graph.node_seq(), graph.edge_seq()))
                } else {
                    old(self).graph_of(name)
                },
    {
        let ghost before = self.entries();
        let ghost g = (graph.node_seq(), graph.edge_seq());
        let ghost key = collection@;
        let mut i: usize = self.graphs.len();
        while i > 0
            invariant
                i <= self.graphs@.len(),
                before == self.entries(),
                before == old(self).entries(),
                key == collection@,
                g == (graph.node_seq(), graph.edge_seq()),
                forall|j: int| i <= j < self.graphs@.len() ==> (#[trigger] self.graphs@[j]).0@ != key,
            decreases i,
        {
            if self.graphs[i - 1].0.same_as(&collection) {
                let k = i - 1;
                let ghost ek = before[k as int].0;
                assert(ek == key);
                assert forall|j: int| k < j < before.len() implies (#[trigger] before[j]).0
                    != before[k as int].0 by {
                    assert(before[j].0 == self.graphs@[j].0@);
                }
                let ghost old_graphs = self.graphs@;
                let ghost pair = (collection, graph);
                self.graphs.set(k, (collection, graph));
                proof {
                    assert(self.graphs@ == old_graphs.update(k as int, pair));
                    assert(pair.0@ == key);
                    assert forall|j: int| 0 <= j < before.len() implies #[trigger] self.entries()[j]
                        == before.update(k as int, (before[k as int].0, g))[j] by {
                        if j != k {
                            assert(self.graphs@[j] == old_graphs[j]);
                        }
                    }
                    assert(self.entries() =~= before.update(k as int, (before[k as int].0, g)));
                    assert forall|name: NameView| #[trigger] self.graph_of(name) == if name == key {
                        Some(g)
                    } else {
                        lookup_graph(before, name)
                    } by {
                        lemma_lookup_update(before, k as int, g, name);
                    }
                }
                return;
            }
            i = i - 1;
        }
        self.graphs.push((collection, graph));
        proof {
            assert(self.entries() =~= before.push((key, g)));
            assert(self.entries().drop_last() =~= before);
        }
    }

    fn graph(&self, collection: &CollectionName) -> (r: Option<&EntityGraph>)
        ensures
            match r {
                Some(g) => self.graph_of(collection@) == Some((g.node_seq(), g.edge_seq())),
                None => self.graph_of(collection@) is None,
            },
    {
        let ghost es = self.entries();
        let mut i: usize = self.graphs.len();
        assert(es.take(i as int) =~= es);
        while i > 0
            invariant
                i <= self.graphs@.len(),
                es == self.entries(),
                lookup_graph(es, collection@) == lookup_graph(es.take(i as int), collection@),
            decreases i,
        {
            let ghost t = es.take(i as int);
            assert(t.drop_last() =~= es.take(i - 1));
            assert(t.last() == es[i - 1]);
            if self.graphs[i - 1].0.same_as(collection) {
                return Some(&self.graphs[i - 1].1);
            }
            i = i - 1;
        }
        None
    }
}

impl GraphStore for InMemoryGraphStore {
    fn node(&self, collection: &CollectionName, id: &NodeId) -> (r: Result<
        Option<GraphNode>,
        GraphStoreError,
    >)
        ensures
            match self.graph_of(collection@) {
                None => r matches Err(GraphStoreError::CollectionNotFound),
                Some(g) => r matches Ok(o) && match o {
                    Some(n) => node_of(g.0, id@) == Some(n@),
                    None => node_of(g.0, id@) is None,
                },
            },
    {
        match self.graph(collection) {
            None => Err(GraphStoreError::CollectionNotFound),
            Some(g) => match g.node(id) {
                Some(n) => Ok(Some(n.duplicate())),
                None => Ok(None),
            },
        }
    }

    fn neighbors(
        &self,
        collection: &CollectionName,
        id: &NodeId,
        relation: Option<RelationKind>,
        max_hops: u8,
    ) -> (r: Result<Vec<Neighbor>, GraphStoreError>)
        ensures
            match self.graph_of(collection@) {
                None => r matches Err(GraphStoreError::CollectionNotFound),
                Some(g) => r matches Ok(v) && neighbors_ascending(views(v@)) && views(v@).to_set()
                    == reached(g.1, g.0, id@, relation, max_hops as nat),
            },
    {
        match self.graph(collection) {
            None => Err(GraphStoreError::CollectionNotFound),
            Some(g) => Ok(traverse_graph(g, id, relation, max_hops)),
        }
    }
}

} // verus!

//! The road graph: a node for each terminus and for each end of each road
//! segment, an edge along each segment (weighted by its length) and an edge of
//! weight zero wherever two of them are joined. Pixies find their way through
//! it, and the net ripping tool walks it.

use vstd::prelude::*;
use petgraph::algo::astar;
use petgraph::stable_graph::{NodeIndex, StableGraph};
use petgraph::visit::{DfsPostOrder, EdgeRef, Walker};
use petgraph::Undirected;
use crate::geom::RoadSegment;
use crate::road_drawing::EntityId;

verus! {

#[verifier::external_type_specification]
#[verifier::external_body]
#[verifier::reject_recursive_types(N)]
#[verifier::reject_recursive_types(E)]
#[verifier::reject_recursive_types(Ty)]
#[verifier::reject_recursive_types(Ix)]
pub struct ExStableGraph<N, E, Ty, Ix>(StableGraph<N, E, Ty, Ix>);

#[verifier::external_type_specification]
#[verifier::external_body]
pub struct ExUndirected(Undirected);

/// The petgraph graph that holds the road network: node weights are entities,
/// edge weights are lengths in thousandths of a world unit.
pub type RawGraph = StableGraph<EntityId, u64, Undirected, u32>;

/// The nodes a graph holds: node index to entity.
pub uninterp spec fn graph_nodes(g: RawGraph) -> Map<u32, EntityId>;

/// The edges a graph holds, as (source, target, weight); parallel edges are
/// held once.
pub uninterp spec fn graph_edges(g: RawGraph) -> Set<(u32, u32, u64)>;

/// What `petgraph::algo::astar` finds in `g` from `start` to `goal` with the
/// edge weights as costs and no estimate: the cost and the nodes of the path.
pub uninterp spec fn astar_path(g: RawGraph, start: u32, goal: u32) -> Option<(u64, Seq<u32>)>;

/// The nodes in the order a `petgraph::visit::DfsPostOrder` walk of `g` from
/// `start` yields them.
pub uninterp spec fn dfs_post_order(g: RawGraph, start: u32) -> Seq<u32>;

/// The number of edges a graph holds, parallel edges each counted.
pub uninterp spec fn graph_edge_count(g: RawGraph) -> nat;

/// `a` and `b` are joined by an edge, in either direction.
pub open spec fn adjacent(edges: Set<(u32, u32, u64)>, a: u32, b: u32) -> bool {
    exists|w: u64| edges.contains((a, b, w)) || edges.contains((b, a, w))
}

/// `ws` are the weights of edges of `edges` that join each node of the walk
/// `p` to the next, in either direction.
pub open spec fn walk_weights(edges: Set<(u32, u32, u64)>, p: Seq<u32>, ws: Seq<u64>) -> bool {
    &&& p.len() >= 1
    &&& ws.len() + 1 == p.len()
    &&& forall|i: int|
        0 <= i < ws.len() ==> edges.contains((p[i], p[i + 1], #[trigger] ws[i])) || edges.contains(
            (p[i + 1], p[i], ws[i]),
        )
}

/// The sum of the weights `ws`.
pub open spec fn total_weight(ws: Seq<u64>) -> int
    decreases ws.len(),
{
    if ws.len() == 0 {
        0
    } else {
        total_weight(ws.drop_last()) + ws.last()
    }
}

/// `p` is a walk through `edges` from `start` to `goal` that costs `c`, and
/// no such walk costs less.
pub open spec fn cheapest_walk(edges: Set<(u32, u32, u64)>, start: u32, goal: u32, c: u64, p: Seq<u32>) -> bool {
    &&& p.len() >= 1
    &&& p[0] == start
    &&& p.last() == goal
    &&& exists|ws: Seq<u64>| #[trigger] walk_weights(edges, p, ws) && total_weight(ws) == c
    &&& forall|q: Seq<u32>, ws: Seq<u64>|
        #[trigger] walk_weights(edges, q, ws) && q[0] == start && q.last() == goal ==> c <= total_weight(ws)
}

/// Some walk through `edges` leads from `start` to `n`.
pub open spec fn reachable(edges: Set<(u32, u32, u64)>, start: u32, n: u32) -> bool {
    exists|q: Seq<u32>, ws: Seq<u64>| #[trigger] walk_weights(edges, q, ws) && q[0] == start && q.last() == n
}

/// No walk through `edges` leads from `start` to `goal`.
pub open spec fn no_walk(edges: Set<(u32, u32, u64)>, start: u32, goal: u32) -> bool {
    forall|q: Seq<u32>, ws: Seq<u64>| #[trigger] walk_weights(edges, q, ws) && q[0] == start ==> q.last() != goal
}

/// `StableGraph::default`: a graph with no nodes and no edges.
#[verifier::external_body]
fn raw_new() -> (g: RawGraph)
    ensures
        graph_nodes(g).is_empty(),
        graph_edges(g).is_empty(),
        graph_edge_count(g) == 0,
{
    StableGraph::default()
}

/// `StableGraph::clear`: removes every node and edge.
#[verifier::external_body]
fn raw_clear(g: &mut RawGraph)
    ensures
        graph_nodes(*final(g)).is_empty(),
        graph_edges(*final(g)).is_empty(),
        graph_edge_count(*final(g)) == 0,
{
    g.clear();
}

/// `StableGraph::try_add_node`: a node for `w` at an index that holds no
/// node, or nothing when the graph has run out of node indices, which is
/// when every index below `u32::MAX` holds a node (a removed node's index is
/// reused before a new one is taken).
#[verifier::external_body]
fn raw_add_node(g: &mut RawGraph, w: EntityId) -> (r: Option<u32>)
    ensures
        graph_edge_count(*final(g)) == graph_edge_count(*old(g)),
        match r {
            Some(i) => {
                &&& !graph_nodes(*old(g)).dom().contains(i)
                &&& graph_nodes(*old(g)).dom().len() < u32::MAX
                &&& graph_nodes(*final(g)) == graph_nodes(*old(g)).insert(i, w)
                &&& graph_edges(*final(g)) == graph_edges(*old(g))
            },
            None => {
                &&& graph_nodes(*old(g)).dom().len() == u32::MAX
                &&& graph_nodes(*final(g)) == graph_nodes(*old(g))
                &&& graph_edges(*final(g)) == graph_edges(*old(g))
            },
        },
{
    match g.try_add_node(w) {
        Ok(i) => Some(i.index() as u32),
        Err(_) => None,
    }
}

/// `StableGraph::try_add_edge` between two nodes of the graph: the edge is
/// added, or nothing happens when the graph has run out of edge indices,
/// which is when it holds `u32::MAX` edges.
#[verifier::external_body]
fn raw_add_edge(g: &mut RawGraph, a: u32, b: u32, w: u64) -> (r: bool)
    requires
        graph_nodes(*old(g)).dom().contains(a),
        graph_nodes(*old(g)).dom().contains(b),
    ensures
        r == (graph_edge_count(*old(g)) < u32::MAX),
        graph_edge_count(*final(g)) == (if r {
            graph_edge_count(*old(g)) + 1
        } else {
            graph_edge_count(*old(g))
        }),
        graph_nodes(*final(g)) == graph_nodes(*old(g)),
        graph_edges(*final(g)) == (if r {
            graph_edges(*old(g)).insert((a, b, w))
        } else {
            graph_edges(*old(g))
        }),
{
    g.try_add_edge(NodeIndex::new(a as usize), NodeIndex::new(b as usize), w).is_ok()
}

/// `StableGraph::remove_node`: removes node `n` and every edge at it, giving
/// its entity; nothing happens when there is no such node.
#[verifier::external_body]
fn raw_remove_node(g: &mut RawGraph, n: u32) -> (r: Option<EntityId>)
    ensures
        r == (if graph_nodes(*old(g)).dom().contains(n) {
            Some(graph_nodes(*old(g))[n])
        } else {
            None
        }),
        graph_nodes(*final(g)) == graph_nodes(*old(g)).remove(n),
        graph_edges(*final(g)) == graph_edges(*old(g)).filter(|e: (u32, u32, u64)| e.0 != n && e.1 != n),
        graph_edge_count(*final(g)) <= graph_edge_count(*old(g)),
{
    g.remove_node(NodeIndex::new(n as usize))
}

/// `StableGraph::node_weight`: the entity of node `n`, if there is such a node.
#[verifier::external_body]
fn raw_node_weight(g: &RawGraph, n: u32) -> (r: Option<EntityId>)
    ensures
        r == (if graph_nodes(*g).dom().contains(n) {
            Some(graph_nodes(*g)[n])
        } else {
            None
        }),
{
    g.node_weight(NodeIndex::new(n as usize)).copied()
}

/// `StableGraph::neighbors` of a node of the graph: every node joined to it by
/// an edge, in the graph's own order (a node joined by several edges comes
/// once for each, so there are no more of them than the graph has edges).
#[verifier::external_body]
fn raw_neighbors(g: &RawGraph, n: u32) -> (r: Vec<u32>)
    requires
        graph_nodes(*g).dom().contains(n),
    ensures
        forall|m: u32| #[trigger] r@.contains(m) <==> adjacent(graph_edges(*g), n, m),
        r@.len() <= graph_edge_count(*g),
{
    g.neighbors(NodeIndex::new(n as usize)).map(|m| m.index() as u32).collect()
}

/// Whether `n` is the node searched for.
fn is_goal(n: usize, goal: u32) -> (r: bool)
    ensures
        r == (n == goal),
{
    n == goal as usize
}

/// The estimate of the cost left from a node: none, so that the search finds
/// a cheapest path.
fn no_estimate(n: usize) -> (r: u64)
    ensures
        r == 0,
{
    0
}

/// `petgraph::algo::astar` from `start` to `goal`, with the edge weights as
/// costs and no estimate (which never overestimates): the shortest path and
/// its total cost, as petgraph documents it; nothing when no path joins the
/// two. The path starts at `start` and ends at `goal`, each node joined to
/// the next by an edge.
#[verifier::external_body]
fn raw_astar(g: &RawGraph, start: u32, goal: u32) -> (r: Option<(u64, Vec<u32>)>)
    requires
        forall|e: (u32, u32, u64)| #[trigger] graph_edges(*g).contains(e) ==> e.2 <= u32::MAX,
    ensures
        r matches Some((c, p)) ==> cheapest_walk(graph_edges(*g), start, goal, c, p@),
        r is None ==> no_walk(graph_edges(*g), start, goal),
        match r {
            Some((c, p)) => astar_path(*g, start, goal) == Some((c, p@)),
            None => astar_path(*g, start, goal) is None,
        },
        r matches Some((c, p)) ==> {
            &&& p@.len() >= 1
            &&& p@[0] == start
            &&& p@.last() == goal
            &&& forall|i: int| 0 <= i < p@.len() - 1 ==> adjacent(graph_edges(*g), #[trigger] p@[i], p@[i + 1])
        },
{
    astar(
        g,
        NodeIndex::new(start as usize),
        |finish| is_goal(finish.index(), goal),
        |e| *e.weight(),
        |n| no_estimate(n.index()),
    ).map(|(c, p)| (c, p.into_iter().map(|n| n.index() as u32).collect()))
}

/// `petgraph::visit::DfsPostOrder` from node `start` of the graph: the nodes
/// in the order the walk yields them. The walk follows the edges in either
/// direction, so it yields each node reachable from `start`, once, and no
/// other.
#[verifier::external_body]
fn raw_dfs_post_order(g: &RawGraph, start: u32) -> (r: Vec<u32>)
    requires
        graph_nodes(*g).dom().contains(start),
        forall|e: (u32, u32, u64)| #[trigger] graph_edges(*g).contains(e) ==> graph_nodes(*g).dom().contains(e.0) && graph_nodes(*g).dom().contains(e.1),
    ensures
        r@ == dfs_post_order(*g, start),
        r@.no_duplicates(),
        forall|n: u32| #[trigger] r@.contains(n) <==> reachable(graph_edges(*g), start, n),
{
    DfsPostOrder::new(g, NodeIndex::new(start as usize)).iter(g).map(|n| n.index() as u32).collect()
}

/// The road network.
pub struct RoadGraph {
    pub graph: RawGraph,
}

/// What the road network holds: its nodes, by index, and its edges.
#[verifier::ext_equal]
pub struct GraphView {
    pub nodes: Map<u32, EntityId>,
    pub edges: Set<(u32, u32, u64)>,
}

impl View for RoadGraph {
    type V = GraphView;

    open spec fn view(&self) -> GraphView {
        GraphView { nodes: graph_nodes(self.graph), edges: graph_edges(self.graph) }
    }
}

/// The heaviest edge the network holds.
pub const MAX_EDGE_WEIGHT: u64 = 0xffff_ffff;

impl GraphView {
    /// The network holds finitely many nodes, and every edge joins two nodes
    /// of the network and weighs at most [`MAX_EDGE_WEIGHT`].
    pub open spec fn wf(self) -> bool {
        &&& self.nodes.dom().finite()
        &&& forall|e: (u32, u32, u64)|
            #[trigger] self.edges.contains(e) ==> self.nodes.dom().contains(e.0) && self.nodes.dom().contains(
                e.1,
            ) && e.2 <= MAX_EDGE_WEIGHT
    }
}

pub open spec fn abs_diff(a: i32, b: i32) -> int {
    if a <= b { b - a } else { a - b }
}

/// The weight of the edge along a segment: its octile length (exact for
/// horizontal, vertical and 45-degree segments, with 1.414 for the square
/// root of two) in thousandths of a world unit, capped at
/// [`MAX_EDGE_WEIGHT`].
pub open spec fn segment_weight_spec(seg: RoadSegment) -> u64 {
    let dx = abs_diff(seg.points.0.x, seg.points.1.x);
    let dy = abs_diff(seg.points.0.y, seg.points.1.y);
    let long = if dx >= dy { dx } else { dy };
    let short = if dx >= dy { dy } else { dx };
    let w = 1000 * long + 414 * short;
    if w <= MAX_EDGE_WEIGHT { w as u64 } else { MAX_EDGE_WEIGHT }
}

/// The weight of the edge along a segment.
pub fn segment_weight(seg: RoadSegment) -> (r: u64)
    ensures
        r == segment_weight_spec(seg),
{
    let x0 = seg.points.0.x as i64;
    let x1 = seg.points.1.x as i64;
    let y0 = seg.points.0.y as i64;
    let y1 = seg.points.1.y as i64;
    let dx: i64 = if x0 <= x1 { x1 - x0 } else { x0 - x1 };
    let dy: i64 = if y0 <= y1 { y1 - y0 } else { y0 - y1 };
    let long: i64 = if dx >= dy { dx } else { dy };
    let short: i64 = if dx >= dy { dy } else { dx };
    let w: i64 = 1000 * long + 414 * short;
    if w <= MAX_EDGE_WEIGHT as i64 {
        w as u64
    } else {
        MAX_EDGE_WEIGHT
    }
}

/// Why a change to the road network could not be made.
#[derive(Clone, Copy, Debug, PartialEq, Eq, Structural)]
pub enum GraphFault {
    /// The network has run out of node or edge indices.
    Full,
    /// A node that the change names is not in the network.
    MissingNode,
    /// No entity was given for a segment to spawn.
    MissingEntity,
}

impl RoadGraph {
    /// The number of edges the network holds, parallel edges each counted.
    pub open spec fn edge_count(&self) -> nat {
        graph_edge_count(self.graph)
    }

    /// An empty network.
    pub fn new() -> (r: Self)
        ensures
            r@.nodes.is_empty(),
            r@.edges.is_empty(),
            r.edge_count() == 0,
            r@.wf(),
    {
        RoadGraph { graph: raw_new() }
    }

    /// Removes every node and edge.
    pub fn clear(&mut self)
        ensures
            final(self)@.nodes.is_empty(),
            final(self)@.edges.is_empty(),
            final(self).edge_count() == 0,
            final(self)@.wf(),
    {
        raw_clear(&mut self.graph);
    }

    /// Whether the network holds node `n`.
    pub fn contains(&self, n: u32) -> (r: bool)
        ensures
            r == self@.nodes.dom().contains(n),
    {
        raw_node_weight(&self.graph, n).is_some()
    }

    /// The entity of node `n`, if the network holds it.
    pub fn entity(&self, n: u32) -> (r: Option<EntityId>)
        ensures
            r == (if self@.nodes.dom().contains(n) {
                Some(self@.nodes[n])
            } else {
                None
            }),
    {
        raw_node_weight(&self.graph, n)
    }

    /// Adds a node for entity `e` and gives its index.
    pub fn add_node(&mut self, e: EntityId) -> (r: Result<u32, GraphFault>)
        requires
            old(self)@.wf(),
        ensures
            final(self)@.wf(),
            r is Ok <==> old(self)@.nodes.dom().len() < u32::MAX,
            final(self).edge_count() == old(self).edge_count(),
            match r {
                Ok(i) => {
                    &&& !old(self)@.nodes.dom().contains(i)
                    &&& final(self)@.nodes == old(self)@.nodes.insert(i, e)
                    &&& final(self)@.edges == old(self)@.edges
                },
                Err(f) => {
                    &&& f == GraphFault::Full
                    &&& final(self)@ == old(self)@
                },
            },
    {
        match raw_add_node(&mut self.graph, e) {
            Some(i) => {
                assert forall|x: (u32, u32, u64)| #[trigger] self@.edges.contains(x) implies self@.nodes.dom().contains(x.0)
                    && self@.nodes.dom().contains(x.1) && x.2 <= MAX_EDGE_WEIGHT by {
                    assert(old(self)@.edges.contains(x));
                }
                Ok(i)
            },
            None => {
                assert(self@.nodes =~= old(self)@.nodes);
                Err(GraphFault::Full)
            },
        }
    }

    /// Joins nodes `a` and `b` by an edge of weight `w`.
    pub fn add_edge(&mut self, a: u32, b: u32, w: u64) -> (r: Result<(), GraphFault>)
        requires
            old(self)@.wf(),
            w <= MAX_EDGE_WEIGHT,
        ensures
            final(self)@.wf(),
            final(self)@.nodes == old(self)@.nodes,
            r is Ok <==> old(self)@.nodes.dom().contains(a) && old(self)@.nodes.dom().contains(b)
                && old(self).edge_count() < u32::MAX,
            final(self).edge_count() == (if r is Ok {
                old(self).edge_count() + 1
            } else {
                old(self).edge_count()
            }),
            match r {
                Ok(()) => final(self)@.edges == old(self)@.edges.insert((a, b, w)),
                Err(f) => {
                    &&& f == (if old(self)@.nodes.dom().contains(a) && old(self)@.nodes.dom().contains(b) {
                        GraphFault::Full
                    } else {
                        GraphFault::MissingNode
                    })
                    &&& final(self)@.edges == old(self)@.edges
                },
            },
    {
        if !self.contains(a) || !self.contains(b) {
            return Err(GraphFault::MissingNode);
        }
        if raw_add_edge(&mut self.graph, a, b, w) {
            assert forall|e: (u32, u32, u64)| #[trigger] self@.edges.contains(e) implies self@.nodes.dom().contains(e.0)
                && self@.nodes.dom().contains(e.1) && e.2 <= MAX_EDGE_WEIGHT by {
                if e != (a, b, w) {
                    assert(old(self)@.edges.contains(e));
                }
            }
            Ok(())
        } else {
            Err(GraphFault::Full)
        }
    }

    /// Removes node `n` and every edge at it, giving its entity.
    pub fn remove_node(&mut self, n: u32) -> (r: Option<EntityId>)
        requires
            old(self)@.wf(),
        ensures
            final(self)@.wf(),
            r == (if old(self)@.nodes.dom().contains(n) {
                Some(old(self)@.nodes[n])
            } else {
                None
            }),
            final(self)@.nodes == old(self)@.nodes.remove(n),
            final(self)@.edges == old(self)@.edges.filter(|e: (u32, u32, u64)| e.0 != n && e.1 != n),
            final(self).edge_count() <= old(self).edge_count(),
    {
        let r = raw_remove_node(&mut self.graph, n);
        assert forall|e: (u32, u32, u64)| #[trigger] self@.edges.contains(e) implies self@.nodes.dom().contains(e.0)
            && self@.nodes.dom().contains(e.1) && e.2 <= MAX_EDGE_WEIGHT by {
            assert(old(self)@.edges.contains(e));
        }
        r
    }

    /// The nodes joined to node `n` by an edge, one for each edge at it.
    pub fn neighbors(&self, n: u32) -> (r: Vec<u32>)
        requires
            self@.wf(),
        ensures
            forall|m: u32| #[trigger] r@.contains(m) <==> adjacent(self@.edges, n, m),
            r@.len() <= self.edge_count(),
    {
        if self.contains(n) {
            raw_neighbors(&self.graph, n)
        } else {
            let r: Vec<u32> = Vec::new();
            assert forall|m: u32| #[trigger] r@.contains(m) <==> adjacent(self@.edges, n, m) by {
                if adjacent(self@.edges, n, m) {
                    let w = choose|w: u64| self@.edges.contains((n, m, w)) || self@.edges.contains((m, n, w));
                    if self@.edges.contains((n, m, w)) {
                        assert(self@.nodes.dom().contains(n));
                    } else {
                        assert(self@.nodes.dom().contains(n));
                    }
                }
            }
            r
        }
    }

    /// Adds the two nodes of a road segment entity `e`, joined by an edge as
    /// heavy as the segment is long, and gives their indices.
    pub fn add_segment(&mut self, e: EntityId, seg: RoadSegment) -> (r: Result<(u32, u32), GraphFault>)
        requires
            old(self)@.wf(),
        ensures
            final(self)@.wf(),
            r matches Ok((s, t)) ==> {
                &&& !old(self)@.nodes.dom().contains(s)
                &&& !old(self)@.nodes.dom().contains(t)
                &&& s != t
                &&& final(self)@.nodes == old(self)@.nodes.insert(s, e).insert(t, e)
                &&& final(self)@.edges == old(self)@.edges.insert((s, t, segment_weight_spec(seg)))
                &&& final(self).edge_count() == old(self).edge_count() + 1
            },
            r is Ok <==> old(self)@.nodes.dom().len() + 2 <= u32::MAX && old(self).edge_count() < u32::MAX,
            r matches Err(f) ==> f == GraphFault::Full && (final(self)@.nodes.dom().len() >= u32::MAX
                || final(self).edge_count() >= u32::MAX),
    {
        let s = match self.add_node(e) {
            Ok(s) => s,
            Err(f) => {
                return Err(f);
            },
        };
        let t = match self.add_node(e) {
            Ok(t) => t,
            Err(f) => {
                return Err(f);
            },
        };
        let w = segment_weight(seg);
        match self.add_edge(s, t, w) {
            Ok(()) => Ok((s, t)),
            Err(f) => Err(f),
        }
    }

    /// The cheapest path from node `start` to node `goal` that the A* search
    /// finds: its cost and its nodes.
    pub fn shortest_path(&self, start: u32, goal: u32) -> (r: Option<(u64, Vec<u32>)>)
        requires
            self@.wf(),
        ensures
            match r {
                Some((c, p)) => astar_path(self.graph, start, goal) == Some((c, p@)),
                None => astar_path(self.graph, start, goal) is None,
            },
            r matches Some((c, p)) ==> {
                &&& p@.len() >= 1
                &&& p@[0] == start
                &&& p@.last() == goal
                &&& forall|i: int| 0 <= i < p@.len() - 1 ==> adjacent(self@.edges, #[trigger] p@[i], p@[i + 1])
                &&& cheapest_walk(self@.edges, start, goal, c, p@)
            },
            r is None ==> no_walk(self@.edges, start, goal),
    {
        assert forall|e: (u32, u32, u64)| #[trigger] graph_edges(self.graph).contains(e) implies e.2 <= u32::MAX by {
            assert(self@.edges.contains(e));
        }
        raw_astar(&self.graph, start, goal)
    }

    /// The nodes reached by a depth-first walk from node `start`, in post-order.
    pub fn walk_from(&self, start: u32) -> (r: Vec<u32>)
        requires
            self@.wf(),
            self@.nodes.dom().contains(start),
        ensures
            r@ == dfs_post_order(self.graph, start),
            r@.no_duplicates(),
            forall|n: u32| #[trigger] r@.contains(n) <==> reachable(self@.edges, start, n),
    {
        assert forall|e: (u32, u32, u64)| #[trigger] graph_edges(self.graph).contains(e) implies graph_nodes(
            self.graph,
        ).dom().contains(e.0) && graph_nodes(self.graph).dom().contains(e.1) by {
            assert(self@.edges.contains(e));
        }
        raw_dfs_post_order(&self.graph, start)
    }
}

impl Default for RoadGraph {
    fn default() -> (r: Self)
        ensures
            r@.nodes.is_empty(),
            r@.edges.is_empty(),
            r.edge_count() == 0,
            r@.wf(),
    {
        Self::new()
    }
}

} // verus!

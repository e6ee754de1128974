//! The net ripping tool: picking the net under the mouse and collecting the
//! road segments that make it up, to be removed together.

use vstd::prelude::*;
use crate::geom::Point;
use crate::collision::{SegmentCollision, point_segment_collision, point_collision};
use crate::road_drawing::{Collider, ColliderEntry, EntityId};
use crate::sim::SimulationState;
use crate::geom::RoadSegment;
use crate::graph::{RoadGraph, GraphView, dfs_post_order, reachable};
use crate::pathfinding::{road_of_entity, find_road};
use crate::pixie::{id_set, id_set_new, id_set_insert, id_set_clear};
use bevy::platform::collections::HashSet;

verus! {

/// The net picked for removal: its road segment entities, the graph nodes
/// that make it up, and the segments to highlight.
pub struct NetRippingState {
    pub entities: HashSet<EntityId>,
    pub nodes: Vec<u32>,
    pub segments: Vec<(Point, Point)>,
}

impl NetRippingState {
    /// The road segment entities of the picked net.
    pub open spec fn picked(&self) -> Set<EntityId> {
        id_set(self.entities)
    }

    pub fn new() -> (s: Self)
        ensures
            s.picked() == Set::<EntityId>::empty(),
            s.nodes@.len() == 0,
            s.segments@.len() == 0,
    {
        NetRippingState { entities: id_set_new(), nodes: Vec::new(), segments: Vec::new() }
    }

    /// Forget the picked net.
    pub fn reset(&mut self)
        ensures
            final(self).picked() == Set::<EntityId>::empty(),
            final(self).nodes@.len() == 0,
            final(self).segments@.len() == 0,
    {
        id_set_clear(&mut self.entities);
        self.nodes.clear();
        self.segments.clear();
    }
}

impl Default for NetRippingState {
    fn default() -> (s: Self)
        ensures
            s.picked() == Set::<EntityId>::empty(),
            s.nodes@.len() == 0,
            s.segments@.len() == 0,
    {
        Self::new()
    }
}

/// The collider is the segment of a road (`on_road`) that the point `p`
/// meets.
pub open spec fn is_candidate(c: (ColliderEntry, bool), p: Point) -> bool {
    &&& c.1
    &&& match c.0.collider {
        Collider::Segment(s) => point_collision(p, s.0, s.1) != SegmentCollision::Disjoint,
        Collider::Point(_) => false,
    }
}

/// The road segment to rip under the point `p`: of the road segments that `p`
/// meets, the first one on the top-most (lowest) layer. Each collider comes
/// with whether its entity is a road segment.
pub open spec fn ripping_target_spec(cs: Seq<(ColliderEntry, bool)>, p: Point) -> Option<int> {
    if exists|i: int| 0 <= i < cs.len() && is_candidate(#[trigger] cs[i], p) {
        Some(
            choose|i: int|
                0 <= i < cs.len() && is_candidate(#[trigger] cs[i], p) && (forall|j: int|
                    0 <= j < cs.len() && is_candidate(#[trigger] cs[j], p) ==> cs[i].0.layer
                        <= cs[j].0.layer) && (forall|j: int|
                    0 <= j < i && is_candidate(#[trigger] cs[j], p) ==> cs[j].0.layer > cs[i].0.layer),
        )
    } else {
        None
    }
}

/// The index of the collider of the road segment to rip under `p`: the first
/// of the lowest layer among the road segments that `p` meets.
pub fn ripping_target(colliders: &Vec<(ColliderEntry, bool)>, p: Point) -> (r: Option<usize>)
    ensures
        match r {
            None => forall|i: int| 0 <= i < colliders@.len() ==> !is_candidate(#[trigger] colliders@[i], p),
            Some(k) => {
                &&& k < colliders@.len()
                &&& is_candidate(colliders@[k as int], p)
                &&& forall|j: int| 0 <= j < colliders@.len() && is_candidate(#[trigger] colliders@[j], p)
                    ==> colliders@[k as int].0.layer <= colliders@[j].0.layer
                &&& forall|j: int| 0 <= j < k && is_candidate(#[trigger] colliders@[j], p)
                    ==> colliders@[j].0.layer > colliders@[k as int].0.layer
            },
        },
        r matches Some(k) ==> ripping_target_spec(colliders@, p) == Some(k as int),
        r is None ==> ripping_target_spec(colliders@, p) is None,
{
    let ghost cs = colliders@;
    let mut best: Option<usize> = None;
    let mut i: usize = 0;
    while i < colliders.len()
        invariant
            cs == colliders@,
            i <= cs.len(),
            match best {
                None => forall|j: int| 0 <= j < i ==> !is_candidate(#[trigger] cs[j], p),
                Some(k) => {
                    &&& k < i
                    &&& is_candidate(cs[k as int], p)
                    &&& forall|j: int| 0 <= j < i && is_candidate(#[trigger] cs[j], p) ==> cs[k as int].0.layer <= cs[j].0.layer
                    &&& forall|j: int| 0 <= j < k && is_candidate(#[trigger] cs[j], p) ==> cs[j].0.layer > cs[k as int].0.layer
                },
            },
        decreases cs.len() - i,
    {
        let (e, on_road) = colliders[i];
        let candidate = match e.collider {
            Collider::Segment(s) => on_road && point_segment_collision(p, s.0, s.1) != SegmentCollision::Disjoint,
            Collider::Point(_) => false,
        };
        if candidate {
            match best {
                None => {
                    best = Some(i);
                },
                Some(k) => {
                    if e.layer < colliders[k].0.layer {
                        best = Some(i);
                    }
                },
            }
        }
        i = i + 1;
    }
    proof {
        match best {
            Some(k) => {
                let spec_k = ripping_target_spec(cs, p);
                assert(is_candidate(cs[k as int], p));
                let c = choose|i: int|
                    0 <= i < cs.len() && is_candidate(#[trigger] cs[i], p) && (forall|j: int|
                        0 <= j < cs.len() && is_candidate(#[trigger] cs[j], p) ==> cs[i].0.layer
                            <= cs[j].0.layer) && (forall|j: int|
                        0 <= j < i && is_candidate(#[trigger] cs[j], p) ==> cs[j].0.layer > cs[i].0.layer);
                assert(c == k) by {
                    if c < k {
                        assert(cs[c].0.layer > cs[k as int].0.layer);
                    } else if c > k {
                        assert(cs[k as int].0.layer > cs[c].0.layer);
                    }
                }
            },
            None => {},
        }
    }
    best
}

/// Follows the mouse with the net ripping tool: when anything relevant
/// changed, forgets the picked net and gives the road segment entity under the
/// snapped mouse position `mouse` whose net is to be picked next (see
/// [`pick_net`]).
pub fn net_ripping_mouse_movement(
    state: &mut NetRippingState,
    net_ripping_tool: bool,
    sim_state: SimulationState,
    changed: bool,
    mouse: Point,
    colliders: &Vec<(ColliderEntry, bool)>,
) -> (r: Option<EntityId>)
    ensures
        ({
            let applies = net_ripping_tool && sim_state == SimulationState::NotStarted && changed;
            &&& !applies ==> r is None && final(state).picked() == old(state).picked()
                && final(state).nodes@ == old(state).nodes@ && final(state).segments@ == old(
                state,
            ).segments@
            &&& applies ==> {
                &&& final(state).picked() == Set::<EntityId>::empty()
                &&& final(state).nodes@.len() == 0
                &&& final(state).segments@.len() == 0
                &&& r == (match ripping_target_spec(colliders@, mouse) {
                    Some(k) => Some(colliders@[k].0.parent),
                    None => None,
                })
            }
        }),
{
    if !net_ripping_tool || sim_state != SimulationState::NotStarted || !changed {
        return None;
    }
    state.reset();
    match ripping_target(colliders, mouse) {
        Some(k) => Some(colliders[k].0.parent),
        None => None,
    }
}

/// One node of the walk of the road graph from the picked segment: its index,
/// and where its entity is a road segment, that entity and the segment's ends.
pub type NetVisit = (u32, Option<(EntityId, (Point, Point))>);

/// The visited node belongs to the road segment entity `e`.
pub open spec fn visits_entity(v: NetVisit, e: EntityId) -> bool {
    match v.1 {
        Some((x, _)) => x == e,
        None => false,
    }
}

/// The entities and highlighted segments after the first `n` visits: a road
/// segment entity seen for the first time is added, with its ends.
pub open spec fn net_upto(
    entities: Set<EntityId>,
    segments: Seq<(Point, Point)>,
    visits: Seq<NetVisit>,
    n: int,
) -> (Set<EntityId>, Seq<(Point, Point)>)
    decreases n,
{
    if n <= 0 {
        (entities, segments)
    } else {
        let (es, ss) = net_upto(entities, segments, visits, n - 1);
        match visits[n - 1].1 {
            Some((e, pts)) => if es.contains(e) {
                (es, ss)
            } else {
                (es.insert(e), ss.push(pts))
            },
            None => (es, ss),
        }
    }
}

/// Collects the picked net from a walk of the road graph: every road segment
/// reached is held once, its ends are highlighted once, and the index of every
/// node that belongs to a road segment is kept for removal.
pub fn collect_net(state: &mut NetRippingState, visits: &Vec<NetVisit>)
    ensures
        forall|e: EntityId|
            final(state).picked().contains(e) <==> (old(state).picked().contains(e) || exists|i: int|
                0 <= i < visits@.len() && visits_entity(#[trigger] visits@[i], e)),
        final(state).nodes@ == old(state).nodes@ + road_nodes(visits@),
        final(state).segments@.take(old(state).segments@.len() as int) == old(state).segments@,
        (final(state).picked(), final(state).segments@) == net_upto(
            old(state).picked(),
            old(state).segments@,
            visits@,
            visits@.len() as int,
        ),
{
    let ghost old_entities = state.picked();
    let ghost old_nodes = state.nodes@;
    let ghost old_segments = state.segments@;
    let mut i: usize = 0;
    while i < visits.len()
        invariant
            i <= visits.len(),
            state.segments@.len() >= old_segments.len(),
            state.segments@.take(old_segments.len() as int) == old_segments,
            forall|e: EntityId|
                state.picked().contains(e) <==> (old_entities.contains(e) || exists|j: int|
                    0 <= j < i && visits_entity(#[trigger] visits@[j], e)),
            state.nodes@ == old_nodes + road_nodes(visits@.take(i as int)),
            (state.picked(), state.segments@) == net_upto(old_entities, old_segments, visits@, i as int),
        decreases visits.len() - i,
    {
        let ghost take_next = visits@.take(i + 1);
        assert(take_next.drop_last() =~= visits@.take(i as int));
        let (index, road) = visits[i];
        if let Some((entity, points)) = road {
            let ghost before = state.picked();
            let ghost before_segments = state.segments@;
            if id_set_insert(&mut state.entities, entity) {
                state.segments.push(points);
                assert(state.segments@.take(old_segments.len() as int) =~= before_segments.take(
                    old_segments.len() as int,
                ));
            }
            state.nodes.push(index);
            proof {
                assert(before.contains(entity) ==> state.picked() =~= before);
                lemma_entities_step(visits@, i as int, old_entities, before, state.picked(), Some(entity));
                assert(state.nodes@ =~= old_nodes + road_nodes(take_next));
            }
        } else {
            proof {
                lemma_entities_step(visits@, i as int, old_entities, state.picked(), state.picked(), None);
                assert(state.nodes@ =~= old_nodes + road_nodes(take_next));
            }
        }
        i = i + 1;
    }
    assert(visits@.take(visits@.len() as int) =~= visits@);
}

proof fn lemma_entities_step(
    visits: Seq<NetVisit>,
    i: int,
    old_entities: Set<EntityId>,
    before: Set<EntityId>,
    after: Set<EntityId>,
    added: Option<EntityId>,
)
    requires
        0 <= i < visits.len(),
        forall|e: EntityId|
            before.contains(e) <==> (old_entities.contains(e) || exists|j: int|
                0 <= j < i && visits_entity(#[trigger] visits[j], e)),
        forall|e: EntityId| after.contains(e) <==> (before.contains(e) || added == Some(e)),
        forall|e: EntityId| visits_entity(visits[i], e) <==> added == Some(e),
    ensures
        forall|e: EntityId|
            after.contains(e) <==> (old_entities.contains(e) || exists|j: int|
                0 <= j < i + 1 && visits_entity(#[trigger] visits[j], e)),
{
    assert forall|e: EntityId|
        after.contains(e) <==> (old_entities.contains(e) || exists|j: int|
            0 <= j < i + 1 && visits_entity(#[trigger] visits[j], e)) by {
        if after.contains(e) {
            if before.contains(e) {
                if !old_entities.contains(e) {
                    let j = choose|j: int| 0 <= j < i && visits_entity(#[trigger] visits[j], e);
                    assert(visits_entity(visits[j], e));
                }
            } else {
                assert(visits_entity(visits[i], e));
            }
        }
        if exists|j: int| 0 <= j < i + 1 && visits_entity(#[trigger] visits[j], e) {
            let j = choose|j: int| 0 <= j < i + 1 && visits_entity(#[trigger] visits[j], e);
            if j < i {
                assert(before.contains(e));
            } else {
                assert(added == Some(e));
            }
        }
        if old_entities.contains(e) {
            assert(before.contains(e));
        }
    }
}

/// The indices of the visited nodes that belong to road segments, in order.
pub open spec fn road_nodes(visits: Seq<NetVisit>) -> Seq<u32>
    decreases visits.len(),
{
    if visits.len() == 0 {
        Seq::empty()
    } else if visits.last().1 is Some {
        road_nodes(visits.drop_last()).push(visits.last().0)
    } else {
        road_nodes(visits.drop_last())
    }
}

/// Whether a click removes the picked net (see [`rip_net`]): with the net
/// ripping tool, before the pixies are released.
pub fn net_ripping_click(net_ripping_tool: bool, sim_state: SimulationState, just_pressed: bool) -> (r: bool)
    ensures
        r == (net_ripping_tool && sim_state == SimulationState::NotStarted && just_pressed),
{
    net_ripping_tool && sim_state == SimulationState::NotStarted && just_pressed
}


/// The visits of a walk of the road graph through the nodes `order`: each
/// node that the graph holds, with its entity and the ends of its segment
/// when that entity is a road segment.
pub open spec fn net_visits(
    nodes: Map<u32, EntityId>,
    roads: Seq<(EntityId, RoadSegment)>,
    order: Seq<u32>,
) -> Seq<NetVisit>
    decreases order.len(),
{
    if order.len() == 0 {
        Seq::empty()
    } else {
        let init = net_visits(nodes, roads, order.drop_last());
        let n = order.last();
        if nodes.dom().contains(n) {
            let e = nodes[n];
            init.push(
                (
                    n,
                    match road_of_entity(roads, e) {
                        Some(seg) => Some((e, seg.points)),
                        None => None,
                    },
                ),
            )
        } else {
            init
        }
    }
}

/// Picks the net of the road segment whose node is `start`: walks the road
/// graph from it and collects every road segment reached (see
/// [`collect_net`]). `roads` gives the segment of each road segment entity.
pub fn pick_net(
    state: &mut NetRippingState,
    graph: &RoadGraph,
    start: u32,
    roads: &Vec<(EntityId, RoadSegment)>,
)
    requires
        graph@.wf(),
        graph@.nodes.dom().contains(start),
    ensures
        ({
            let visits = net_visits(graph@.nodes, roads@, dfs_post_order(graph.graph, start));
            &&& forall|e: EntityId|
                final(state).picked().contains(e) <==> (old(state).picked().contains(e) || exists|i: int|
                    0 <= i < visits.len() && visits_entity(#[trigger] visits[i], e))
            &&& final(state).nodes@ == old(state).nodes@ + road_nodes(visits)
            &&& final(state).segments@.take(old(state).segments@.len() as int) == old(state).segments@
            &&& (final(state).picked(), final(state).segments@) == net_upto(
                old(state).picked(),
                old(state).segments@,
                visits,
                visits.len() as int,
            )
        }),
        forall|e: EntityId|
            #[trigger] final(state).picked().contains(e) <==> (old(state).picked().contains(e) || (
            road_of_entity(roads@, e) is Some && exists|n: u32|
                #[trigger] reachable(graph@.edges, start, n) && graph@.nodes.dom().contains(n) && graph@.nodes[n]
                    == e)),
{
    let order = graph.walk_from(start);
    let mut visits: Vec<NetVisit> = Vec::new();
    let mut i: usize = 0;
    while i < order.len()
        invariant
            i <= order.len(),
            visits@ == net_visits(graph@.nodes, roads@, order@.take(i as int)),
        decreases order.len() - i,
    {
        let ghost t = order@.take(i + 1);
        assert(t.drop_last() =~= order@.take(i as int));
        let n = order[i];
        match graph.entity(n) {
            Some(e) => {
                let road = match find_road(roads, e) {
                    Some(seg) => Some((e, seg.points)),
                    None => None,
                };
                visits.push((n, road));
            },
            None => {},
        }
        i = i + 1;
    }
    assert(order@.take(order@.len() as int) =~= order@);
    collect_net(state, &visits);
    proof {
        assert forall|e: EntityId|
            #[trigger] state.picked().contains(e) <==> (old(state).picked().contains(e) || (road_of_entity(
                roads@,
                e,
            ) is Some && exists|n: u32|
                #[trigger] reachable(graph@.edges, start, n) && graph@.nodes.dom().contains(n) && graph@.nodes[n]
                    == e)) by {
            lemma_net_visits_entities(graph@.nodes, roads@, order@, e);
            if exists|n: u32| #[trigger] reachable(graph@.edges, start, n) && graph@.nodes.dom().contains(n)
                && graph@.nodes[n] == e {
                let n = choose|n: u32| #[trigger] reachable(graph@.edges, start, n) && graph@.nodes.dom().contains(n)
                    && graph@.nodes[n] == e;
                assert(order@.contains(n));
            }
            if exists|n: u32| order@.contains(n) && graph@.nodes.dom().contains(n) && graph@.nodes[n] == e {
                let n = choose|n: u32| order@.contains(n) && graph@.nodes.dom().contains(n) && graph@.nodes[n] == e;
                assert(reachable(graph@.edges, start, n));
            }
        }
    }
}

/// A visit of the walk through `order` belongs to road segment entity `e`
/// exactly when `e` is a road segment and the entity of a node of `order`.
proof fn lemma_net_visits_entities(
    nodes: Map<u32, EntityId>,
    roads: Seq<(EntityId, RoadSegment)>,
    order: Seq<u32>,
    e: EntityId,
)
    ensures
        (exists|i: int| 0 <= i < net_visits(nodes, roads, order).len() && visits_entity(
            #[trigger] net_visits(nodes, roads, order)[i],
            e,
        )) <==> (road_of_entity(roads, e) is Some && exists|n: u32|
            order.contains(n) && nodes.dom().contains(n) && nodes[n] == e),
    decreases order.len(),
{
    if order.len() > 0 {
        let init = order.drop_last();
        lemma_net_visits_entities(nodes, roads, init, e);
        let vi = net_visits(nodes, roads, init);
        let v = net_visits(nodes, roads, order);
        let last = order.last();
        assert forall|n: u32| order.contains(n) <==> (init.contains(n) || n == last) by {
            if order.contains(n) && n != last {
                let q = choose|q: int| 0 <= q < order.len() && order[q] == n;
                assert(init[q] == n);
            }
            if init.contains(n) {
                let q = choose|q: int| 0 <= q < init.len() && init[q] == n;
                assert(order[q] == n);
            }
            if n == last {
                assert(order[order.len() - 1] == n);
            }
        }
        if nodes.dom().contains(last) {
            assert(v == vi.push(
                (
                    last,
                    match road_of_entity(roads, nodes[last]) {
                        Some(seg) => Some((nodes[last], seg.points)),
                        None => None,
                    },
                ),
            ));
            if exists|i: int| 0 <= i < vi.len() && visits_entity(#[trigger] vi[i], e) {
                let i = choose|i: int| 0 <= i < vi.len() && visits_entity(#[trigger] vi[i], e);
                assert(v[i] == vi[i]);
            }
            if exists|i: int| 0 <= i < v.len() && visits_entity(#[trigger] v[i], e) {
                let i = choose|i: int| 0 <= i < v.len() && visits_entity(#[trigger] v[i], e);
                if i < vi.len() {
                    assert(v[i] == vi[i]);
                } else {
                    assert(nodes[last] == e);
                }
            }
            if road_of_entity(roads, e) is Some && nodes[last] == e {
                assert(visits_entity(v[vi.len() as int], e));
            }
        } else {
            assert(v == vi);
        }
    } else {
        assert(net_visits(nodes, roads, order).len() == 0);
    }
}

/// `v` without the nodes in `gone` and every edge at them.
pub open spec fn without_nodes(v: GraphView, gone: Seq<u32>) -> GraphView {
    GraphView {
        nodes: v.nodes.remove_keys(gone.to_set()),
        edges: v.edges.filter(|e: (u32, u32, u64)| !gone.contains(e.0) && !gone.contains(e.1)),
    }
}

/// Removes the picked net: takes its nodes out of the road graph, forgets
/// it, and gives the road segment entities to despawn.
pub fn rip_net(state: &mut NetRippingState, graph: &mut RoadGraph) -> (r: HashSet<EntityId>)
    requires
        old(graph)@.wf(),
    ensures
        id_set(r) == old(state).picked(),
        final(graph)@.wf(),
        final(graph)@ == without_nodes(old(graph)@, old(state).nodes@),
        final(state).picked() == Set::<EntityId>::empty(),
        final(state).nodes@.len() == 0,
        final(state).segments@.len() == 0,
{
    let ghost v0 = graph@;
    let ghost ns = state.nodes@;
    let mut j: usize = 0;
    assert(ns.take(0) =~= Seq::<u32>::empty());
    assert(without_nodes(v0, ns.take(0)) =~= v0);
    while j < state.nodes.len()
        invariant
            j <= state.nodes.len(),
            ns == state.nodes@,
            graph@.wf(),
            graph@ == without_nodes(v0, ns.take(j as int)),
        decreases state.nodes.len() - j,
    {
        let n = state.nodes[j];
        graph.remove_node(n);
        proof {
            let t0 = ns.take(j as int);
            let t1 = ns.take(j + 1);
            assert(t1 =~= t0.push(n));
            assert(t1.to_set() =~= t0.to_set().insert(n)) by {
                t0.lemma_push_to_set_commute(n);
            }
            assert forall|e: (u32, u32, u64)| t1.contains(e.0) <==> (t0.contains(e.0) || e.0 == n) by {
                if t1.contains(e.0) && e.0 != n {
                    let q = choose|q: int| 0 <= q < t1.len() && t1[q] == e.0;
                    assert(t0[q] == e.0);
                }
                if t0.contains(e.0) {
                    let q = choose|q: int| 0 <= q < t0.len() && t0[q] == e.0;
                    assert(t1[q] == e.0);
                }
                if e.0 == n {
                    assert(t1[j as int] == n);
                }
            }
            assert forall|e: (u32, u32, u64)| t1.contains(e.1) <==> (t0.contains(e.1) || e.1 == n) by {
                if t1.contains(e.1) && e.1 != n {
                    let q = choose|q: int| 0 <= q < t1.len() && t1[q] == e.1;
                    assert(t0[q] == e.1);
                }
                if t0.contains(e.1) {
                    let q = choose|q: int| 0 <= q < t0.len() && t0[q] == e.1;
                    assert(t1[q] == e.1);
                }
                if e.1 == n {
                    assert(t1[j as int] == n);
                }
            }
            assert(graph@ =~= without_nodes(v0, t1));
        }
        j = j + 1;
    }
    assert(ns.take(ns.len() as int) =~= ns);
    let mut entities = id_set_new();
    std::mem::swap(&mut entities, &mut state.entities);
    state.reset();
    entities
}

} // verus!

//! Laying down the planned segments of a road: the changes to the road graph,
//! as a list of operations, carried out in order by
//! [`crate::network::apply_plan`].

use vstd::prelude::*;
use crate::geom::{Point, RoadSegment};
use crate::road_drawing::{AddSegment, EntityId, SegmentConnection, valid_extension, extended_points};

verus! {

/// What an entity that a connection names is.
#[derive(Clone, Copy, Debug)]
pub enum EntityInfo {
    /// A road segment, with its start and end nodes in the road graph.
    Road(RoadSegment, (u32, u32)),
    /// A terminus, with its node in the road graph.
    Terminus(u32),
}

/// A node of the road graph, named in a plan.
#[derive(Clone, Copy, Debug, PartialEq, Eq, Structural)]
pub enum NodeRef {
    /// The start node of the `i`-th segment spawned by the plan.
    SpawnedStart(usize),
    /// The end node of the `i`-th segment spawned by the plan.
    SpawnedEnd(usize),
    /// The start node of an existing road segment.
    RoadStart(EntityId),
    /// The end node of an existing road segment.
    RoadEnd(EntityId),
    /// The node of a terminus.
    Terminus(EntityId),
}

/// One change to the road graph.
#[derive(Clone, Copy, Debug)]
pub enum GraphOp {
    /// Spawn a road segment: an entity and its start and end nodes, joined by
    /// an edge as long as the segment.
    Spawn(RoadSegment),
    /// Join two nodes.
    Connect(NodeRef, NodeRef),
    /// Join every current neighbor of the first node to the second node.
    ConnectNeighbors(NodeRef, NodeRef),
    /// Join every current neighbor of the first node to the second node, and
    /// the fourth node to every current neighbor of the third node (both
    /// sets of neighbors taken before any of these edges is added).
    SplitNeighbors(NodeRef, NodeRef, NodeRef, NodeRef),
    /// Despawn a road segment and remove its nodes.
    Remove(EntityId),
}

/// What `infos` says of `e` (the first entry for it).
pub open spec fn info_of(infos: Seq<(EntityId, EntityInfo)>, e: EntityId) -> Option<EntityInfo>
    decreases infos.len(),
{
    if infos.len() == 0 {
        None
    } else if infos[0].0 == e {
        Some(infos[0].1)
    } else {
        info_of(infos.drop_first(), e)
    }
}

pub(crate) fn lookup(infos: &Vec<(EntityId, EntityInfo)>, e: EntityId) -> (r: Option<EntityInfo>)
    ensures
        r == info_of(infos@, e),
{
    let mut i: usize = 0;
    assert(infos@.skip(0) =~= infos@);
    while i < infos.len()
        invariant
            i <= infos.len(),
            info_of(infos@, e) == info_of(infos@.skip(i as int), e),
        decreases infos.len() - i,
    {
        assert(infos@.skip(i as int).drop_first() =~= infos@.skip(i + 1));
        if infos[i].0 == e {
            return Some(infos[i].1);
        }
        i = i + 1;
    }
    None
}

/// Joins `node` to the nodes of the existing road segment `e` that sit at
/// `point`.
pub open spec fn connect_by_point(node: NodeRef, e: EntityId, seg: RoadSegment, point: Point) -> Seq<GraphOp> {
    (if seg.points.0 == point {
        seq![GraphOp::Connect(node, NodeRef::RoadStart(e))]
    } else {
        Seq::empty()
    }) + (if seg.points.1 == point {
        seq![GraphOp::Connect(node, NodeRef::RoadEnd(e))]
    } else {
        Seq::empty()
    })
}

/// The operations for one connection of an end of the `k`-th planned segment
/// (spawned as the `first_spawn`-th segment of the plan): `node` is that end's
/// node, `point` its point, `extend` whether that end lengthens a segment.
pub open spec fn connection_ops(
    c: SegmentConnection,
    infos: Seq<(EntityId, EntityInfo)>,
    node: NodeRef,
    point: Point,
    is_start: bool,
    extend: bool,
    previous_end: Option<NodeRef>,
    next_spawn: usize,
) -> Seq<GraphOp> {
    match c {
        SegmentConnection::Add(e) => match info_of(infos, e) {
            Some(EntityInfo::Road(seg, _)) => connect_by_point(node, e, seg, point),
            Some(EntityInfo::Terminus(_)) => seq![GraphOp::Connect(node, NodeRef::Terminus(e))],
            None => Seq::empty(),
        },
        SegmentConnection::TryExtend(e) => match info_of(infos, e) {
            Some(EntityInfo::Road(seg, _)) => if extend {
                seq![
                    GraphOp::ConnectNeighbors(
                        if seg.points.0 == point { NodeRef::RoadEnd(e) } else { NodeRef::RoadStart(e) },
                        node,
                    ),
                    GraphOp::Remove(e),
                ]
            } else {
                connect_by_point(node, e, seg, point)
            },
            _ => Seq::empty(),
        },
        SegmentConnection::Previous => match previous_end {
            Some(p) => if is_start {
                seq![GraphOp::Connect(node, p)]
            } else {
                Seq::empty()
            },
            None => Seq::empty(),
        },
        SegmentConnection::Split(e) => match info_of(infos, e) {
            Some(EntityInfo::Road(seg, _)) => seq![
                GraphOp::Spawn(RoadSegment { points: (seg.points.0, point), layer: seg.layer }),
                GraphOp::Spawn(RoadSegment { points: (point, seg.points.1), layer: seg.layer }),
                GraphOp::SplitNeighbors(
                    NodeRef::RoadStart(e),
                    NodeRef::SpawnedStart(next_spawn),
                    NodeRef::RoadEnd(e),
                    NodeRef::SpawnedEnd((next_spawn + 1) as usize),
                ),
                GraphOp::Connect(NodeRef::SpawnedEnd(next_spawn), node),
                GraphOp::Connect(node, NodeRef::SpawnedStart((next_spawn + 1) as usize)),
                GraphOp::Connect(NodeRef::SpawnedEnd(next_spawn), NodeRef::SpawnedStart((next_spawn + 1) as usize)),
                GraphOp::Remove(e),
            ],
            _ => Seq::empty(),
        },
    }
}

/// `r` names the node of road segment `e` (with points `seg`) at its end
/// other than `point`.
pub open spec fn names_far_end(r: NodeRef, e: EntityId, seg: RoadSegment, point: Point) -> bool {
    ||| r == NodeRef::RoadStart(e) && seg.points.0 != point
    ||| r == NodeRef::RoadEnd(e) && seg.points.1 != point
}

/// An end of a planned segment at `point` that lengthens the road segment `e`
/// (which ends at `point`) takes over what is joined to the far end of `e`:
/// the neighbors of `e`'s node at its other end are joined to the planned end,
/// then `e` is removed.
pub proof fn lemma_extension_takes_far_neighbors(
    e: EntityId,
    infos: Seq<(EntityId, EntityInfo)>,
    node: NodeRef,
    point: Point,
    is_start: bool,
    previous_end: Option<NodeRef>,
    next_spawn: usize,
)
    requires
        is_road(infos, e),
        road_of(infos, e).points.0 != road_of(infos, e).points.1,
        point == road_of(infos, e).points.0 || point == road_of(infos, e).points.1,
    ensures
        ({
            let ops = connection_ops(
                SegmentConnection::TryExtend(e),
                infos,
                node,
                point,
                is_start,
                true,
                previous_end,
                next_spawn,
            );
            &&& ops.len() == 2
            &&& ops[0] matches GraphOp::ConnectNeighbors(f, m) && m == node && names_far_end(f, e, road_of(infos, e), point)
            &&& ops[1] == GraphOp::Remove(e)
        }),
{
}

/// Where an end of a planned segment lengthens the road segment `e` it meets,
/// the spawned segment reaches to the far end of `e`, and what was joined to
/// `e` there is joined to the spawned segment's end at that same point.
pub proof fn lemma_lengthened_end_keeps_far_joins(
    add: ((Point, Point), Seq<SegmentConnection>, Seq<SegmentConnection>),
    infos: Seq<(EntityId, EntityInfo)>,
    layer: u32,
    before: Seq<GraphOp>,
    previous_end: Option<NodeRef>,
)
    requires
        extends(add.2),
        is_road(infos, add.2[0]->TryExtend_0),
        road_of(infos, add.2[0]->TryExtend_0).points.0 != road_of(infos, add.2[0]->TryExtend_0).points.1,
        add.0.1 == road_of(infos, add.2[0]->TryExtend_0).points.0 || add.0.1 == road_of(
            infos,
            add.2[0]->TryExtend_0,
        ).points.1,
    ensures
        ({
            let e = add.2[0]->TryExtend_0;
            let seg = road_of(infos, e);
            let ops = add_ops(add, infos, layer, before, previous_end);
            let far = if seg.points.0 == add.0.1 { seg.points.1 } else { seg.points.0 };
            &&& ops[0] matches GraphOp::Spawn(s) && s.points.1 == far
            &&& exists|i: int|
                0 <= i < ops.len() && #[trigger] ops[i] == GraphOp::ConnectNeighbors(
                    if seg.points.0 == far { NodeRef::RoadStart(e) } else { NodeRef::RoadEnd(e) },
                    NodeRef::SpawnedEnd(spawns(before) as usize),
                )
            &&& far != add.0.1
        }),
{
    let (points, c0, c1) = add;
    let e = c1[0]->TryExtend_0;
    let seg = road_of(infos, e);
    let index = spawns(before) as usize;
    let spawn = seq![GraphOp::Spawn(RoadSegment { points: planned_points(add, infos), layer })];
    let s0 = connections_ops(c0, infos, NodeRef::SpawnedStart(index), points.0, true, extends(c0), previous_end, before + spawn);
    let s1 = connections_ops(c1, infos, NodeRef::SpawnedEnd(index), points.1, false, true, previous_end, before + spawn + s0);
    assert(c1.drop_last().len() == 0);
    assert(c1.last() == SegmentConnection::TryExtend(e));
    lemma_extension_takes_far_neighbors(
        e,
        infos,
        NodeRef::SpawnedEnd(index),
        points.1,
        false,
        previous_end,
        spawns(before + spawn + s0 + connections_ops(c1.drop_last(), infos, NodeRef::SpawnedEnd(index), points.1, false, true, previous_end, before + spawn + s0)) as usize,
    );
    let ops = add_ops(add, infos, layer, before, previous_end);
    assert(ops == spawn + s0 + s1);
    let i: int = 1 + s0.len() as int;
    assert(ops[i] == s1[0]);
}

/// Where the start of a planned segment lengthens the road segment `e` it
/// meets, the spawned segment starts at the far end of `e`, and what was
/// joined to `e` there is joined to the spawned segment's start at that same
/// point.
pub proof fn lemma_lengthened_start_keeps_far_joins(
    add: ((Point, Point), Seq<SegmentConnection>, Seq<SegmentConnection>),
    infos: Seq<(EntityId, EntityInfo)>,
    layer: u32,
    before: Seq<GraphOp>,
    previous_end: Option<NodeRef>,
)
    requires
        extends(add.1),
        is_road(infos, add.1[0]->TryExtend_0),
        road_of(infos, add.1[0]->TryExtend_0).points.0 != road_of(infos, add.1[0]->TryExtend_0).points.1,
        add.0.0 == road_of(infos, add.1[0]->TryExtend_0).points.0 || add.0.0 == road_of(
            infos,
            add.1[0]->TryExtend_0,
        ).points.1,
    ensures
        ({
            let e = add.1[0]->TryExtend_0;
            let seg = road_of(infos, e);
            let ops = add_ops(add, infos, layer, before, previous_end);
            let far = if seg.points.0 == add.0.0 { seg.points.1 } else { seg.points.0 };
            &&& ops[0] matches GraphOp::Spawn(s) && s.points.0 == far
            &&& exists|i: int|
                0 <= i < ops.len() && #[trigger] ops[i] == GraphOp::ConnectNeighbors(
                    if seg.points.0 == far { NodeRef::RoadStart(e) } else { NodeRef::RoadEnd(e) },
                    NodeRef::SpawnedStart(spawns(before) as usize),
                )
            &&& far != add.0.0
        }),
{
    let (points, c0, c1) = add;
    let e = c0[0]->TryExtend_0;
    let index = spawns(before) as usize;
    let spawn = seq![GraphOp::Spawn(RoadSegment { points: planned_points(add, infos), layer })];
    let s0 = connections_ops(c0, infos, NodeRef::SpawnedStart(index), points.0, true, true, previous_end, before + spawn);
    let s1 = connections_ops(c1, infos, NodeRef::SpawnedEnd(index), points.1, false, extends(c1), previous_end, before + spawn + s0);
    assert(c0.drop_last().len() == 0);
    assert(c0.last() == SegmentConnection::TryExtend(e));
    lemma_extension_takes_far_neighbors(
        e,
        infos,
        NodeRef::SpawnedStart(index),
        points.0,
        true,
        previous_end,
        spawns(before + spawn + connections_ops(c0.drop_last(), infos, NodeRef::SpawnedStart(index), points.0, true, true, previous_end, before + spawn)) as usize,
    );
    let ops = add_ops(add, infos, layer, before, previous_end);
    assert(ops == spawn + s0 + s1);
    assert(ops[1] == s0[0]);
}

/// The number of segments the operations spawn.
pub open spec fn spawns(ops: Seq<GraphOp>) -> nat
    decreases ops.len(),
{
    if ops.len() == 0 {
        0
    } else {
        spawns(ops.drop_last()) + if ops.last() is Spawn {
            1nat
        } else {
            0nat
        }
    }
}

/// The operations for the connections `cs` of one end, given the plan so far.
pub open spec fn connections_ops(
    cs: Seq<SegmentConnection>,
    infos: Seq<(EntityId, EntityInfo)>,
    node: NodeRef,
    point: Point,
    is_start: bool,
    extend: bool,
    previous_end: Option<NodeRef>,
    before: Seq<GraphOp>,
) -> Seq<GraphOp>
    decreases cs.len(),
{
    if cs.len() == 0 {
        Seq::empty()
    } else {
        let init = connections_ops(cs.drop_last(), infos, node, point, is_start, extend, previous_end, before);
        init + connection_ops(
            cs.last(),
            infos,
            node,
            point,
            is_start,
            extend,
            previous_end,
            spawns(before + init) as usize,
        )
    }
}


/// The end of a planned segment lengthens an existing segment: that is its
/// one connection.
pub open spec fn extends(cs: Seq<SegmentConnection>) -> bool {
    cs.len() == 1 && cs[0] is TryExtend
}

/// The road segment that `infos` describes for `e`.
pub open spec fn road_of(infos: Seq<(EntityId, EntityInfo)>, e: EntityId) -> RoadSegment {
    match info_of(infos, e) {
        Some(EntityInfo::Road(seg, _)) => seg,
        _ => arbitrary(),
    }
}

/// `e` is a road segment according to `infos`.
pub open spec fn is_road(infos: Seq<(EntityId, EntityInfo)>, e: EntityId) -> bool {
    info_of(infos, e) matches Some(EntityInfo::Road(_, _))
}

/// The points of a planned segment after lengthening its ends over the
/// segments they extend.
pub open spec fn planned_points(
    add: ((Point, Point), Seq<SegmentConnection>, Seq<SegmentConnection>),
    infos: Seq<(EntityId, EntityInfo)>,
) -> (Point, Point) {
    let (points, c0, c1) = add;
    let p0 = if extends(c0) {
        let seg = road_of(infos, c0[0]->TryExtend_0);
        if points.0 == seg.points.0 { seg.points.1 } else { seg.points.0 }
    } else {
        points.0
    };
    let p1 = if extends(c1) {
        let seg = road_of(infos, c1[0]->TryExtend_0);
        if points.1 == seg.points.1 { seg.points.0 } else { seg.points.1 }
    } else {
        points.1
    };
    (p0, p1)
}

/// The operations for the `k`-th planned segment, given the operations
/// before it and the end node of the segment planned before it.
pub open spec fn add_ops(
    add: ((Point, Point), Seq<SegmentConnection>, Seq<SegmentConnection>),
    infos: Seq<(EntityId, EntityInfo)>,
    layer: u32,
    before: Seq<GraphOp>,
    previous_end: Option<NodeRef>,
) -> Seq<GraphOp> {
    let (points, c0, c1) = add;
    let index = spawns(before) as usize;
    let spawn = seq![GraphOp::Spawn(RoadSegment { points: planned_points(add, infos), layer })];
    let s0 = connections_ops(
        c0,
        infos,
        NodeRef::SpawnedStart(index),
        points.0,
        true,
        extends(c0),
        previous_end,
        before + spawn,
    );
    let s1 = connections_ops(
        c1,
        infos,
        NodeRef::SpawnedEnd(index),
        points.1,
        false,
        extends(c1),
        previous_end,
        before + spawn + s0,
    );
    spawn + s0 + s1
}

/// The plan for the first `n` planned segments, and the end node of the last
/// of them.
pub open spec fn plan_upto(
    adds: Seq<((Point, Point), Seq<SegmentConnection>, Seq<SegmentConnection>)>,
    infos: Seq<(EntityId, EntityInfo)>,
    layer: u32,
    n: int,
) -> (Seq<GraphOp>, Option<NodeRef>)
    decreases n,
{
    if n <= 0 {
        (Seq::empty(), None)
    } else {
        let (before, previous_end) = plan_upto(adds, infos, layer, n - 1);
        (
            before + add_ops(adds[n - 1], infos, layer, before, previous_end),
            Some(NodeRef::SpawnedEnd(spawns(before) as usize)),
        )
    }
}

/// The entities that laying down the planned segments reads as road segments
/// are road segments: the segments that an end lengthens and the segments
/// split.
pub open spec fn plan_inputs_known(
    adds: Seq<((Point, Point), Seq<SegmentConnection>, Seq<SegmentConnection>)>,
    infos: Seq<(EntityId, EntityInfo)>,
) -> bool {
    forall|k: int|
        0 <= k < adds.len() ==> {
            let (_, c0, c1) = #[trigger] adds[k];
            &&& extends(c0) ==> is_road(infos, c0[0]->TryExtend_0)
            &&& extends(c1) ==> is_road(infos, c1[0]->TryExtend_0)
            &&& forall|j: int| 0 <= j < c0.len() ==> (#[trigger] c0[j] matches SegmentConnection::Split(e) ==> is_road(infos, e))
            &&& forall|j: int| 0 <= j < c1.len() ==> (#[trigger] c1[j] matches SegmentConnection::Split(e) ==> is_road(infos, e))
        }
}

proof fn lemma_spawns_append(a: Seq<GraphOp>, b: Seq<GraphOp>)
    ensures
        spawns(a + b) == spawns(a) + spawns(b),
    decreases b.len(),
{
    if b.len() == 0 {
        assert(a + b =~= a);
    } else {
        lemma_spawns_append(a, b.drop_last());
        assert((a + b).drop_last() =~= a + b.drop_last());
    }
}

proof fn lemma_spawns_len(a: Seq<GraphOp>)
    ensures
        spawns(a) <= a.len(),
    decreases a.len(),
{
    if a.len() > 0 {
        lemma_spawns_len(a.drop_last());
    }
}

/// Appends the operations of one connection.
fn push_connection_ops(
    ops: &mut Vec<GraphOp>,
    spawned: &mut usize,
    c: SegmentConnection,
    infos: &Vec<(EntityId, EntityInfo)>,
    node: NodeRef,
    point: Point,
    is_start: bool,
    extend: bool,
    previous_end: Option<NodeRef>,
)
    requires
        *old(spawned) == spawns(old(ops)@),
        c matches SegmentConnection::Split(e) ==> is_road(infos@, e),
    ensures
        final(ops)@ == old(ops)@ + connection_ops(c, infos@, node, point, is_start, extend, previous_end, *old(spawned)),
        *final(spawned) == spawns(final(ops)@),
        *final(spawned) <= *old(spawned) + 2,
{
    let ghost before = ops@;
    let n = *spawned;
    match c {
        SegmentConnection::Add(e) => match lookup(infos, e) {
            Some(EntityInfo::Road(seg, _)) => {
                if seg.points.0 == point {
                    ops.push(GraphOp::Connect(node, NodeRef::RoadStart(e)));
                }
                if seg.points.1 == point {
                    ops.push(GraphOp::Connect(node, NodeRef::RoadEnd(e)));
                }
            },
            Some(EntityInfo::Terminus(_)) => {
                ops.push(GraphOp::Connect(node, NodeRef::Terminus(e)));
            },
            None => {},
        },
        SegmentConnection::TryExtend(e) => match lookup(infos, e) {
            Some(EntityInfo::Road(seg, _)) => {
                if extend {
                    let far = if seg.points.0 == point {
                        NodeRef::RoadEnd(e)
                    } else {
                        NodeRef::RoadStart(e)
                    };
                    ops.push(GraphOp::ConnectNeighbors(far, node));
                    ops.push(GraphOp::Remove(e));
                } else {
                    if seg.points.0 == point {
                        ops.push(GraphOp::Connect(node, NodeRef::RoadStart(e)));
                    }
                    if seg.points.1 == point {
                        ops.push(GraphOp::Connect(node, NodeRef::RoadEnd(e)));
                    }
                }
            },
            _ => {},
        },
        SegmentConnection::Previous => {
            if let Some(p) = previous_end {
                if is_start {
                    ops.push(GraphOp::Connect(node, p));
                }
            }
        },
        SegmentConnection::Split(e) => match lookup(infos, e) {
            Some(EntityInfo::Road(seg, _)) => {
                ops.push(GraphOp::Spawn(RoadSegment { points: (seg.points.0, point), layer: seg.layer }));
                ops.push(GraphOp::Spawn(RoadSegment { points: (point, seg.points.1), layer: seg.layer }));
                let len_now = ops.len();
                proof {
                    lemma_spawns_len(before);
                    assert(len_now == before.len() + 2);
                }
                let n1 = n + 1;
                ops.push(GraphOp::SplitNeighbors(
                    NodeRef::RoadStart(e),
                    NodeRef::SpawnedStart(n),
                    NodeRef::RoadEnd(e),
                    NodeRef::SpawnedEnd(n1),
                ));
                ops.push(GraphOp::Connect(NodeRef::SpawnedEnd(n), node));
                ops.push(GraphOp::Connect(node, NodeRef::SpawnedStart(n1)));
                ops.push(GraphOp::Connect(NodeRef::SpawnedEnd(n), NodeRef::SpawnedStart(n1)));
                ops.push(GraphOp::Remove(e));
                assert(ops@.len() == before.len() + 7);
                *spawned = n + 2;
            },
            _ => {},
        },
    }
    let ghost added = connection_ops(c, infos@, node, point, is_start, extend, previous_end, n);
    assert(ops@ =~= before + added);
    proof {
        lemma_spawns_append(before, added);
        if c is Split {
            reveal_with_fuel(spawns, 8);
        } else {
            reveal_with_fuel(spawns, 3);
        }
    }
}


/// The segment that an end of a planned segment lengthens, if it lengthens
/// one.
fn extension_target(
    cs: &Vec<SegmentConnection>,
    infos: &Vec<(EntityId, EntityInfo)>,
) -> (r: Option<(Point, Point)>)
    requires
        extends(cs@) ==> is_road(infos@, cs@[0]->TryExtend_0),
    ensures
        r == (if extends(cs@) {
            Some(road_of(infos@, cs@[0]->TryExtend_0).points)
        } else {
            None
        }),
{
    if valid_extension(cs) {
        match cs[0] {
            SegmentConnection::TryExtend(e) => match lookup(infos, e) {
                Some(EntityInfo::Road(seg, _)) => Some(seg.points),
                _ => None,
            },
            _ => None,
        }
    } else {
        None
    }
}

/// Appends the operations of the connections `cs` of one end.
fn push_connections_ops(
    ops: &mut Vec<GraphOp>,
    spawned: &mut usize,
    cs: &Vec<SegmentConnection>,
    infos: &Vec<(EntityId, EntityInfo)>,
    node: NodeRef,
    point: Point,
    is_start: bool,
    extend: bool,
    previous_end: Option<NodeRef>,
)
    requires
        *old(spawned) == spawns(old(ops)@),
        forall|j: int| 0 <= j < cs@.len() ==> (#[trigger] cs@[j] matches SegmentConnection::Split(e) ==> is_road(infos@, e)),
    ensures
        final(ops)@ == old(ops)@ + connections_ops(cs@, infos@, node, point, is_start, extend, previous_end, old(ops)@),
        *final(spawned) == spawns(final(ops)@),
{
    let ghost before = ops@;
    let mut j: usize = 0;
    while j < cs.len()
        invariant
            j <= cs.len(),
            forall|q: int| 0 <= q < cs@.len() ==> (#[trigger] cs@[q] matches SegmentConnection::Split(e) ==> is_road(infos@, e)),
            ops@ == before + connections_ops(cs@.take(j as int), infos@, node, point, is_start, extend, previous_end, before),
            *spawned == spawns(ops@),
        decreases cs.len() - j,
    {
        let ghost t = cs@.take(j + 1);
        assert(t.drop_last() =~= cs@.take(j as int));
        assert(t.last() == cs@[j as int]);
        push_connection_ops(ops, spawned, cs[j], infos, node, point, is_start, extend, previous_end);
        assert(ops@ =~= before + connections_ops(t, infos@, node, point, is_start, extend, previous_end, before));
        j = j + 1;
    }
    assert(cs@.take(cs@.len() as int) =~= cs@);
}

/// Whether the connections of one end name only road segments where a road
/// segment is needed: the segment it lengthens and the segments it splits.
fn end_inputs_known(cs: &Vec<SegmentConnection>, infos: &Vec<(EntityId, EntityInfo)>) -> (r: bool)
    ensures
        r == ({
            &&& extends(cs@) ==> is_road(infos@, cs@[0]->TryExtend_0)
            &&& forall|j: int| 0 <= j < cs@.len() ==> (#[trigger] cs@[j] matches SegmentConnection::Split(e) ==> is_road(infos@, e))
        }),
{
    if valid_extension(cs) {
        if let SegmentConnection::TryExtend(e) = cs[0] {
            match lookup(infos, e) {
                Some(EntityInfo::Road(_, _)) => {},
                _ => {
                    return false;
                },
            }
        }
    }
    let mut j: usize = 0;
    while j < cs.len()
        invariant
            j <= cs.len(),
            forall|q: int| 0 <= q < j ==> (#[trigger] cs@[q] matches SegmentConnection::Split(e) ==> is_road(infos@, e)),
        decreases cs.len() - j,
    {
        if let SegmentConnection::Split(e) = cs[j] {
            match lookup(infos, e) {
                Some(EntityInfo::Road(_, _)) => {},
                _ => {
                    return false;
                },
            }
        }
        j = j + 1;
    }
    true
}

/// Whether every entity that laying down `adds` reads as a road segment is
/// one according to `infos` (what [`plan_commit`] needs).
pub fn plan_inputs_ok(adds: &Vec<AddSegment>, infos: &Vec<(EntityId, EntityInfo)>) -> (r: bool)
    ensures
        r == plan_inputs_known(adds@.map_values(|a: AddSegment| a@), infos@),
{
    let ghost views = adds@.map_values(|a: AddSegment| a@);
    let mut k: usize = 0;
    while k < adds.len()
        invariant
            k <= adds.len(),
            views == adds@.map_values(|a: AddSegment| a@),
            forall|q: int| 0 <= q < k ==> {
                let (_, c0, c1) = #[trigger] views[q];
                &&& extends(c0) ==> is_road(infos@, c0[0]->TryExtend_0)
                &&& extends(c1) ==> is_road(infos@, c1[0]->TryExtend_0)
                &&& forall|j: int| 0 <= j < c0.len() ==> (#[trigger] c0[j] matches SegmentConnection::Split(e) ==> is_road(infos@, e))
                &&& forall|j: int| 0 <= j < c1.len() ==> (#[trigger] c1[j] matches SegmentConnection::Split(e) ==> is_road(infos@, e))
            },
        decreases adds.len() - k,
    {
        assert(views[k as int] == adds@[k as int]@);
        if !end_inputs_known(&adds[k].connections.0, infos) {
            return false;
        }
        if !end_inputs_known(&adds[k].connections.1, infos) {
            return false;
        }
        k = k + 1;
    }
    true
}

/// The changes to the road graph that lay down the planned segments `adds`
/// on `layer`: each segment is spawned (lengthened over the segments its ends
/// extend), then each end is joined as its connections say, in order; the
/// start of each segment after the first joins the end of the one before.
/// `infos` says what each entity named by a connection is.
pub fn plan_commit(adds: &Vec<AddSegment>, infos: &Vec<(EntityId, EntityInfo)>, layer: u32) -> (r: Vec<GraphOp>)
    requires
        plan_inputs_known(adds@.map_values(|a: AddSegment| a@), infos@),
    ensures
        r@ == plan_upto(adds@.map_values(|a: AddSegment| a@), infos@, layer, adds@.len() as int).0,
{
    let ghost views = adds@.map_values(|a: AddSegment| a@);
    let mut ops: Vec<GraphOp> = Vec::new();
    let mut spawned: usize = 0;
    let mut previous_end: Option<NodeRef> = None;
    let mut k: usize = 0;
    while k < adds.len()
        invariant
            k <= adds.len(),
            views == adds@.map_values(|a: AddSegment| a@),
            plan_inputs_known(views, infos@),
            ops@ == plan_upto(views, infos@, layer, k as int).0,
            previous_end == plan_upto(views, infos@, layer, k as int).1,
            spawned == spawns(ops@),
        decreases adds.len() - k,
    {
        let add = &adds[k];
        let ghost v = views[k as int];
        assert(v == add@);
        let ghost before = ops@;
        let ext_a = extension_target(&add.connections.0, infos);
        let ext_b = extension_target(&add.connections.1, infos);
        let points = extended_points(add.points, ext_a, ext_b);
        assert(points == planned_points(v, infos@));
        let index = spawned;
        ops.push(GraphOp::Spawn(RoadSegment { points, layer }));
        proof {
            lemma_spawns_len(before);
            assert(ops@.drop_last() =~= before);
        }
        let len_now = ops.len();
        assert(len_now == before.len() + 1);
        spawned = spawned + 1;
        let ghost with_spawn = ops@;
        assert(with_spawn =~= before + seq![GraphOp::Spawn(RoadSegment { points: planned_points(v, infos@), layer })]);
        proof {
            let (_, c0, c1) = views[k as int];
            assert forall|j: int| 0 <= j < add.connections.0@.len() implies (#[trigger] add.connections.0@[j] matches SegmentConnection::Split(e) ==> is_road(infos@, e)) by {
                assert(c0[j] == add.connections.0@[j]);
            }
            assert forall|j: int| 0 <= j < add.connections.1@.len() implies (#[trigger] add.connections.1@[j] matches SegmentConnection::Split(e) ==> is_road(infos@, e)) by {
                assert(c1[j] == add.connections.1@[j]);
            }
        }
        let extend0 = valid_extension(&add.connections.0);
        let extend1 = valid_extension(&add.connections.1);
        push_connections_ops(&mut ops, &mut spawned, &add.connections.0, infos, NodeRef::SpawnedStart(index), add.points.0, true, extend0, previous_end);
        let ghost after_start = ops@;
        push_connections_ops(&mut ops, &mut spawned, &add.connections.1, infos, NodeRef::SpawnedEnd(index), add.points.1, false, extend1, previous_end);
        assert(ops@ =~= before + add_ops(v, infos@, layer, before, previous_end));
        previous_end = Some(NodeRef::SpawnedEnd(index));
        k = k + 1;
    }
    ops
}


/// The points where a saved solution can join the network while it is laid
/// down again, with their graph nodes: first the termini (node `i` for the
/// `i`-th terminus), then the ends of the first `k` segments (nodes
/// `t + 2k` and `t + 2k + 1` for the start and end of the `k`-th).
pub open spec fn solution_joints(termini: Seq<Point>, segs: Seq<RoadSegment>, k: int) -> Seq<(Point, int)>
    decreases k,
{
    if k <= 0 {
        Seq::new(termini.len(), |i: int| (termini[i], i))
    } else {
        let t = termini.len() as int;
        solution_joints(termini, segs, k - 1) + seq![
            (segs[k - 1].points.0, t + 2 * (k - 1)),
            (segs[k - 1].points.1, t + 2 * (k - 1) + 1),
        ]
    }
}

/// The edges that join a segment with nodes `s` (start) and `e` (end) to the
/// joints at its ends, in the order of the joints.
pub open spec fn joint_edges(joints: Seq<(Point, int)>, seg: RoadSegment, s: int, e: int) -> Seq<(int, int)>
    decreases joints.len(),
{
    if joints.len() == 0 {
        Seq::empty()
    } else {
        let (p, n) = joints.last();
        joint_edges(joints.drop_last(), seg, s, e) + (if p == seg.points.0 {
            seq![(n, s)]
        } else {
            Seq::empty()
        }) + (if p == seg.points.1 {
            seq![(n, e)]
        } else {
            Seq::empty()
        })
    }
}

/// The edges that join the first `k` segments of a saved solution.
pub open spec fn solution_edges_spec(termini: Seq<Point>, segs: Seq<RoadSegment>, k: int) -> Seq<(int, int)>
    decreases k,
{
    if k <= 0 {
        Seq::empty()
    } else {
        let t = termini.len() as int;
        solution_edges_spec(termini, segs, k - 1) + joint_edges(
            solution_joints(termini, segs, k - 1),
            segs[k - 1],
            t + 2 * (k - 1),
            t + 2 * (k - 1) + 1,
        )
    }
}

/// The edges that join a saved solution to the level's termini and to itself
/// when it is laid down again: each segment, in order, is joined at each of its
/// ends to every terminus and every end of an earlier segment at that point.
/// Node `i` is the `i`-th terminus, nodes `t + 2k` and `t + 2k + 1` the start
/// and end of the `k`-th segment (`t` termini).
pub fn solution_edges(termini: &Vec<Point>, segments: &Vec<RoadSegment>) -> (r: Vec<(usize, usize)>)
    requires
        termini.len() + 2 * segments.len() + 2 <= usize::MAX,
    ensures
        r@.map_values(|e: (usize, usize)| (e.0 as int, e.1 as int)) == solution_edges_spec(
            termini@,
            segments@,
            segments@.len() as int,
        ),
{
    let t = termini.len();
    let mut joints: Vec<(Point, usize)> = Vec::new();
    let mut i: usize = 0;
    while i < t
        invariant
            i <= t,
            t == termini.len(),
            joints@.len() == i,
            forall|j: int| 0 <= j < i ==> #[trigger] joints@[j] == (termini@[j], j as usize),
        decreases t - i,
    {
        joints.push((termini[i], i));
        i = i + 1;
    }
    proof {
        assert(joints@.map_values(|j: (Point, usize)| (j.0, j.1 as int)) =~= solution_joints(termini@, segments@, 0));
    }
    let mut edges: Vec<(usize, usize)> = Vec::new();
    let mut k: usize = 0;
    while k < segments.len()
        invariant
            k <= segments.len(),
            t == termini.len(),
            t + 2 * segments.len() + 2 <= usize::MAX,
            joints@.map_values(|j: (Point, usize)| (j.0, j.1 as int)) == solution_joints(termini@, segments@, k as int),
            edges@.map_values(|e: (usize, usize)| (e.0 as int, e.1 as int)) == solution_edges_spec(termini@, segments@, k as int),
        decreases segments.len() - k,
    {
        let seg = segments[k];
        let s = t + 2 * k;
        let e = s + 1;
        let ghost jv = joints@.map_values(|j: (Point, usize)| (j.0, j.1 as int));
        let ghost before = edges@.map_values(|x: (usize, usize)| (x.0 as int, x.1 as int));
        let mut q: usize = 0;
        while q < joints.len()
            invariant
                q <= joints.len(),
                jv == joints@.map_values(|j: (Point, usize)| (j.0, j.1 as int)),
                edges@.map_values(|x: (usize, usize)| (x.0 as int, x.1 as int)) == before + joint_edges(jv.take(q as int), seg, s as int, e as int),
            decreases joints.len() - q,
        {
            let ghost tk = jv.take(q + 1);
            assert(tk.drop_last() =~= jv.take(q as int));
            assert(tk.last() == (joints@[q as int].0, joints@[q as int].1 as int));
            let (p, n) = joints[q];
            let ghost e0 = edges@;
            let ghost a: Seq<(int, int)> = if p == seg.points.0 { seq![(n as int, s as int)] } else { Seq::empty() };
            let ghost b: Seq<(int, int)> = if p == seg.points.1 { seq![(n as int, e as int)] } else { Seq::empty() };
            assert(joint_edges(tk, seg, s as int, e as int) == joint_edges(jv.take(q as int), seg, s as int, e as int) + a + b);
            if p == seg.points.0 {
                edges.push((n, s));
            }
            let ghost e1 = edges@;
            assert(e1.map_values(|x: (usize, usize)| (x.0 as int, x.1 as int)) =~= e0.map_values(|x: (usize, usize)| (x.0 as int, x.1 as int)) + a);
            if p == seg.points.1 {
                edges.push((n, e));
            }
            assert(edges@.map_values(|x: (usize, usize)| (x.0 as int, x.1 as int)) =~= e1.map_values(|x: (usize, usize)| (x.0 as int, x.1 as int)) + b);
            assert(edges@.map_values(|x: (usize, usize)| (x.0 as int, x.1 as int)) =~= before + joint_edges(tk, seg, s as int, e as int));
            q = q + 1;
        }
        assert(jv.take(jv.len() as int) =~= jv);
        joints.push((seg.points.0, s));
        joints.push((seg.points.1, e));
        assert(joints@.map_values(|j: (Point, usize)| (j.0, j.1 as int)) =~= solution_joints(termini@, segments@, k + 1));
        assert(edges@.map_values(|x: (usize, usize)| (x.0 as int, x.1 as int)) =~= solution_edges_spec(termini@, segments@, k + 1));
        k = k + 1;
    }
    edges
}

} // verus!

//! The rules for drawing roads: which of the offered routes may be laid down
//! given everything already on the field, and how each new segment connects
//! to what it meets.

use vstd::prelude::*;
use crate::geom::Point;
use crate::collision::{
    SegmentCollision, segment_collision, segment_collision_spec, point_segment_collision,
    point_collision, contact_point, contact_point_spec,
};
use crate::lines::{Axis, possible_lines, possible_lines_spec, is_octilinear_route, lemma_possible_lines_octilinear};
use crate::sim::SimulationState;
use bevy::platform::collections::HashSet;

verus! {

/// An entity of the game world, by its bits.
pub type EntityId = u64;

/// The shape something on the field occupies.
#[derive(Clone, Copy, Debug)]
pub enum Collider {
    Point(Point),
    Segment((Point, Point)),
}

/// A collider on the field: the entity it belongs to (a road segment, a
/// terminus or an obstacle), its shape and its layer (0 for obstacles).
#[derive(Clone, Copy, Debug)]
pub struct ColliderEntry {
    pub parent: EntityId,
    pub collider: Collider,
    pub layer: u32,
}

/// How one end of a new road segment joins the road network.
#[derive(Clone, Copy, Debug, PartialEq, Eq, Structural)]
pub enum SegmentConnection {
    /// To the end of the segment laid just before it.
    Previous,
    /// To the end of an existing segment, or to a terminus.
    Add(EntityId),
    /// By lengthening an existing collinear segment of the same layer.
    TryExtend(EntityId),
    /// By splitting an existing segment at this point.
    Split(EntityId),
}

/// A segment to be laid down, with the connections of its start and its end.
pub struct AddSegment {
    pub points: (Point, Point),
    pub connections: (Vec<SegmentConnection>, Vec<SegmentConnection>),
}

impl View for AddSegment {
    type V = ((Point, Point), Seq<SegmentConnection>, Seq<SegmentConnection>);

    open spec fn view(&self) -> Self::V {
        (self.points, self.connections.0@, self.connections.1@)
    }
}

/// The state of the road being drawn.
pub struct RoadDrawingState {
    pub drawing: bool,
    pub start: Point,
    pub end: Point,
    pub valid: bool,
    pub stop: bool,
    pub segments: Vec<(Point, Point)>,
    pub adds: Vec<AddSegment>,
    pub axis_preference: Option<Axis>,
    pub layer: u32,
    pub prev_layer: u32,
}

impl Default for RoadDrawingState {
    fn default() -> (s: Self)
        ensures
            !s.drawing,
            s.start == (Point { x: 0, y: 0 }),
            s.end == (Point { x: 0, y: 0 }),
            !s.valid,
            !s.stop,
            s.segments@.len() == 0,
            s.adds@.len() == 0,
            s.axis_preference.is_none(),
            s.layer == 1,
            s.prev_layer == 1,
    {
        RoadDrawingState {
            drawing: false,
            start: Point { x: 0, y: 0 },
            end: Point { x: 0, y: 0 },
            valid: false,
            stop: false,
            segments: Vec::new(),
            adds: Vec::new(),
            axis_preference: None,
            layer: 1,
            prev_layer: 1,
        }
    }
}

pub open spec fn is_contact(c: SegmentCollision) -> bool {
    c == SegmentCollision::Touching || c == SegmentCollision::Connecting || c
        == SegmentCollision::ConnectingParallel
}

/// Whether the collider `e` lets the segment `a -> b` of a road drawn from
/// `start` to `end` on layer `layer` be laid down: it may not cross an
/// obstacle or a road of its own layer, overlap anything, run through a
/// terminus, or meet an obstacle at all; it may meet roads and termini only at
/// the start or the end of the drawn road.
pub open spec fn collider_allows(
    e: ColliderEntry,
    a: Point,
    b: Point,
    start: Point,
    end: Point,
    layer: u32,
) -> bool {
    match e.collider {
        Collider::Segment(s) => {
            let c = segment_collision_spec(s.0, s.1, a, b);
            let ip = contact_point_spec(s.0, s.1, a, b);
            if c == SegmentCollision::Intersecting {
                !(e.layer == layer || e.layer == 0)
            } else if c == SegmentCollision::Overlapping {
                false
            } else if is_contact(c) {
                e.layer != 0 && (ip == start || ip == end)
            } else {
                true
            }
        },
        Collider::Point(p) => {
            let c = point_collision(p, a, b);
            if c == SegmentCollision::Touching {
                false
            } else if c == SegmentCollision::Connecting {
                p == start || p == end
            } else {
                true
            }
        },
    }
}

/// The collider is a road or obstacle segment that the segment `a -> b`
/// touches (one's end on the other's middle) at `pt`.
pub open spec fn touches_at(e: ColliderEntry, a: Point, b: Point, pt: Point) -> bool {
    match e.collider {
        Collider::Segment(s) => segment_collision_spec(s.0, s.1, a, b) == SegmentCollision::Touching
            && contact_point_spec(s.0, s.1, a, b) == pt,
        Collider::Point(_) => false,
    }
}

/// The segment `a -> b` may be laid down: every collider allows it, and the
/// segments it would split at its start (and at its end) are all of one layer.
pub open spec fn segment_allowed(
    cs: Seq<ColliderEntry>,
    a: Point,
    b: Point,
    start: Point,
    end: Point,
    layer: u32,
) -> bool {
    &&& forall|i: int| 0 <= i < cs.len() ==> collider_allows(#[trigger] cs[i], a, b, start, end, layer)
    &&& forall|i: int, j: int|
        0 <= i < cs.len() && 0 <= j < cs.len() && touches_at(#[trigger] cs[i], a, b, start)
            && touches_at(#[trigger] cs[j], a, b, start) ==> cs[i].layer == cs[j].layer
    &&& forall|i: int, j: int|
        0 <= i < cs.len() && 0 <= j < cs.len() && touches_at(#[trigger] cs[i], a, b, end)
            && touches_at(#[trigger] cs[j], a, b, end) ==> cs[i].layer == cs[j].layer
}

/// The connection that collider `e` gives the start (`at_start`) or the end of
/// the segment `a -> b`, if any.
pub open spec fn connection_of(
    e: ColliderEntry,
    a: Point,
    b: Point,
    start: Point,
    end: Point,
    layer: u32,
    at_start: bool,
) -> Option<SegmentConnection> {
    let q = if at_start { a } else { b };
    match e.collider {
        Collider::Segment(s) => {
            let c = segment_collision_spec(s.0, s.1, a, b);
            let ip = contact_point_spec(s.0, s.1, a, b);
            if c == SegmentCollision::Touching {
                if (at_start && ip == start) || (!at_start && ip == end) {
                    Some(SegmentConnection::Split(e.parent))
                } else {
                    None
                }
            } else if c == SegmentCollision::Connecting || c == SegmentCollision::ConnectingParallel {
                if (start == q && ip == start) || (end == q && ip == end) {
                    if c == SegmentCollision::ConnectingParallel && e.layer == layer {
                        Some(SegmentConnection::TryExtend(e.parent))
                    } else {
                        Some(SegmentConnection::Add(e.parent))
                    }
                } else {
                    None
                }
            } else {
                None
            }
        },
        Collider::Point(p) => {
            if point_collision(p, a, b) == SegmentCollision::Connecting && q == p {
                Some(SegmentConnection::Add(e.parent))
            } else {
                None
            }
        },
    }
}

pub open spec fn option_seq<T>(o: Option<T>) -> Seq<T> {
    match o {
        Some(x) => seq![x],
        None => Seq::empty(),
    }
}

/// The connections of the start (`at_start`) or the end of the segment
/// `a -> b`, in the order of the colliders.
pub open spec fn connections_of(
    cs: Seq<ColliderEntry>,
    a: Point,
    b: Point,
    start: Point,
    end: Point,
    layer: u32,
    at_start: bool,
) -> Seq<SegmentConnection>
    decreases cs.len(),
{
    if cs.len() == 0 {
        Seq::empty()
    } else {
        connections_of(cs.drop_last(), a, b, start, end, layer, at_start) + option_seq(
            connection_of(cs.last(), a, b, start, end, layer, at_start),
        )
    }
}

/// The segment `a -> b` reaches a terminus at the end of the drawn road.
pub open spec fn reaches_end_terminus(cs: Seq<ColliderEntry>, a: Point, b: Point, end: Point) -> bool {
    exists|i: int|
        0 <= i < cs.len() && (#[trigger] cs[i]).collider == Collider::Point(end) && point_collision(
            end,
            a,
            b,
        ) == SegmentCollision::Connecting
}

/// The segment to be laid down for the `k`-th segment `a -> b` of a route;
/// the second segment of a route starts where the first one ends.
pub open spec fn add_segment_spec(
    cs: Seq<ColliderEntry>,
    k: int,
    a: Point,
    b: Point,
    start: Point,
    end: Point,
    layer: u32,
) -> ((Point, Point), Seq<SegmentConnection>, Seq<SegmentConnection>) {
    (
        (a, b),
        (if k == 1 {
            seq![SegmentConnection::Previous]
        } else {
            Seq::empty()
        }) + connections_of(cs, a, b, start, end, layer, true),
        connections_of(cs, a, b, start, end, layer, false),
    )
}

/// Every segment of the route may be laid down.
pub open spec fn route_allowed(
    route: Seq<(Point, Point)>,
    cs: Seq<ColliderEntry>,
    start: Point,
    end: Point,
    layer: u32,
) -> bool {
    forall|k: int| 0 <= k < route.len() ==> segment_allowed(cs, (#[trigger] route[k]).0, route[k].1, start, end, layer)
}

/// The segments to be laid down for a route.
pub open spec fn route_adds(
    route: Seq<(Point, Point)>,
    cs: Seq<ColliderEntry>,
    start: Point,
    end: Point,
    layer: u32,
) -> Seq<((Point, Point), Seq<SegmentConnection>, Seq<SegmentConnection>)> {
    Seq::new(route.len(), |k: int| add_segment_spec(cs, k, route[k].0, route[k].1, start, end, layer))
}

/// Laying the route down finishes the road: it reaches a terminus at its end.
pub open spec fn route_stops(route: Seq<(Point, Point)>, cs: Seq<ColliderEntry>, end: Point) -> bool {
    exists|k: int| 0 <= k < route.len() && reaches_end_terminus(cs, (#[trigger] route[k]).0, route[k].1, end)
}


/// The layers a set holds.
pub uninterp spec fn layer_set(s: HashSet<u32>) -> Set<u32>;

/// `HashSet::new`: a set that holds no layer.
#[verifier::external_body]
fn layers_new() -> (r: HashSet<u32>)
    ensures
        layer_set(r) == Set::<u32>::empty(),
{
    HashSet::new()
}

/// `HashSet::contains`: whether the set holds layer `l`.
#[verifier::external_body]
fn layers_contains(s: &HashSet<u32>, l: u32) -> (r: bool)
    ensures
        r == layer_set(*s).contains(l),
{
    s.contains(&l)
}

/// `HashSet::is_empty`: whether the set holds no layer.
#[verifier::external_body]
fn layers_is_empty(s: &HashSet<u32>) -> (r: bool)
    ensures
        r == (layer_set(*s) == Set::<u32>::empty()),
{
    s.is_empty()
}

/// `HashSet::insert`: the set comes to hold layer `l`.
#[verifier::external_body]
fn layers_insert(s: &mut HashSet<u32>, l: u32)
    ensures
        layer_set(*final(s)) == layer_set(*old(s)).insert(l),
{
    s.insert(l);
}

/// The layers of the segments split so far at one point, as a set: none, or
/// the one layer they all share.
pub open spec fn split_set(split: Option<u32>) -> Set<u32> {
    match split {
        None => Set::empty(),
        Some(l) => set![l],
    }
}

/// The layer of the segments split so far at one point: all of them share it.
pub open spec fn split_layer_inv(
    split: Option<u32>,
    cs: Seq<ColliderEntry>,
    i: int,
    a: Point,
    b: Point,
    pt: Point,
) -> bool {
    match split {
        None => forall|j: int| 0 <= j < i ==> !touches_at(#[trigger] cs[j], a, b, pt),
        Some(l) => (exists|j: int| 0 <= j < i && touches_at(#[trigger] cs[j], a, b, pt))
            && forall|j: int| 0 <= j < i && touches_at(#[trigger] cs[j], a, b, pt) ==> cs[j].layer == l,
    }
}

/// What one collider makes of the segment `a -> b`: the connections it gives
/// the segment's start and end, and whether it is a terminus at `end` that the
/// segment reaches; or `None` where the collider does not allow the segment.
/// The layers of the segments it splits at the road's start and end join
/// `split0` and `split1`; a segment may not be split where one of another
/// layer already is.
fn check_collider(
    e: ColliderEntry,
    a: Point,
    b: Point,
    start: Point,
    end: Point,
    layer: u32,
    split0: &mut HashSet<u32>,
    split1: &mut HashSet<u32>,
) -> (r: Option<(Option<SegmentConnection>, Option<SegmentConnection>, bool)>)
    ensures
        r is None <==> !collider_allows(e, a, b, start, end, layer) || (touches_at(e, a, b, start)
            && !layer_set(*old(split0)).contains(e.layer) && layer_set(*old(split0)) != Set::<u32>::empty())
            || (touches_at(e, a, b, end) && !layer_set(*old(split1)).contains(e.layer) && layer_set(*old(split1))
            != Set::<u32>::empty()),
        r matches Some((x0, x1, st)) ==> {
            &&& x0 == connection_of(e, a, b, start, end, layer, true)
            &&& x1 == connection_of(e, a, b, start, end, layer, false)
            &&& st == (e.collider == Collider::Point(end) && point_collision(end, a, b)
                == SegmentCollision::Connecting)
            &&& layer_set(*final(split0)) == (if touches_at(e, a, b, start) {
                layer_set(*old(split0)).insert(e.layer)
            } else {
                layer_set(*old(split0))
            })
            &&& layer_set(*final(split1)) == (if touches_at(e, a, b, end) {
                layer_set(*old(split1)).insert(e.layer)
            } else {
                layer_set(*old(split1))
            })
        },
{
    match e.collider {
        Collider::Segment(seg) => {
            let c = segment_collision(seg.0, seg.1, a, b);
            let ip = contact_point(seg.0, seg.1, a, b);
            match c {
                SegmentCollision::Intersecting => {
                    if e.layer == layer || e.layer == 0 {
                        return None;
                    }
                    Some((None, None, false))
                },
                SegmentCollision::Overlapping => None,
                SegmentCollision::Touching => {
                    // "Touching" collisions are allowed only if they are the
                    // start or end of the line we are currently drawing.
                    if e.layer == 0 {
                        return None;
                    }
                    let start_touching = ip == start;
                    let end_touching = ip == end;
                    if !start_touching && !end_touching {
                        return None;
                    }
                    // two lines on different layers may not both be split at
                    // the point where they would intersect.
                    if start_touching && !layers_contains(split0, e.layer) && !layers_is_empty(split0) {
                        return None;
                    }
                    if end_touching && !layers_contains(split1, e.layer) && !layers_is_empty(split1) {
                        return None;
                    }
                    let x0 = if start_touching {
                        layers_insert(split0, e.layer);
                        Some(SegmentConnection::Split(e.parent))
                    } else {
                        None
                    };
                    let x1 = if end_touching {
                        layers_insert(split1, e.layer);
                        Some(SegmentConnection::Split(e.parent))
                    } else {
                        None
                    };
                    Some((x0, x1, false))
                },
                SegmentCollision::Connecting | SegmentCollision::ConnectingParallel => {
                    // "Connecting" collisions are allowed only if they are the
                    // start or end of the line we are currently drawing.
                    if e.layer == 0 {
                        return None;
                    }
                    let start_touching = ip == start;
                    let end_touching = ip == end;
                    if !start_touching && !end_touching {
                        return None;
                    }
                    let extend = c == SegmentCollision::ConnectingParallel && e.layer == layer;
                    let conn = if extend {
                        SegmentConnection::TryExtend(e.parent)
                    } else {
                        SegmentConnection::Add(e.parent)
                    };
                    let x0 = if (start == a && start_touching) || (end == a && end_touching) {
                        Some(conn)
                    } else {
                        None
                    };
                    let x1 = if (start == b && start_touching) || (end == b && end_touching) {
                        Some(conn)
                    } else {
                        None
                    };
                    Some((x0, x1, false))
                },
                SegmentCollision::Disjoint => Some((None, None, false)),
            }
        },
        Collider::Point(p) => {
            match point_segment_collision(p, a, b) {
                SegmentCollision::Touching => {
                    // don't allow the midpoint of the line to connect to a
                    // terminus
                    None
                },
                SegmentCollision::Connecting => {
                    if p != start && p != end {
                        return None;
                    }
                    let x0 = if a == p {
                        Some(SegmentConnection::Add(e.parent))
                    } else {
                        None
                    };
                    let x1 = if b == p {
                        Some(SegmentConnection::Add(e.parent))
                    } else {
                        None
                    };
                    Some((x0, x1, p == end))
                },
                _ => Some((None, None, false)),
            }
        },
    }
}

/// Checks the `k`-th segment `a -> b` of a route from `start` to `end` on
/// `layer` against every collider. Gives the segment to lay down and whether
/// it reaches a terminus at `end`, or `None` where it may not be laid down.
pub fn evaluate_segment(
    k: usize,
    a: Point,
    b: Point,
    colliders: &Vec<ColliderEntry>,
    start: Point,
    end: Point,
    layer: u32,
) -> (r: Option<(AddSegment, bool)>)
    ensures
        r is None <==> !segment_allowed(colliders@, a, b, start, end, layer),
        r matches Some((add, stop)) ==> {
            &&& add@ == add_segment_spec(colliders@, k as int, a, b, start, end, layer)
            &&& stop == reaches_end_terminus(colliders@, a, b, end)
        },
{
    let ghost cs = colliders@;
    let mut c0: Vec<SegmentConnection> = Vec::new();
    let mut c1: Vec<SegmentConnection> = Vec::new();
    if k == 1 {
        c0.push(SegmentConnection::Previous);
    }
    let ghost prefix = c0@;
    let mut split0 = layers_new();
    let mut split1 = layers_new();
    let ghost mut g0: Option<u32> = None;
    let ghost mut g1: Option<u32> = None;
    let mut stop = false;
    let mut i: usize = 0;
    while i < colliders.len()
        invariant
            cs == colliders@,
            i <= cs.len(),
            prefix == (if k == 1 {
                seq![SegmentConnection::Previous]
            } else {
                Seq::<SegmentConnection>::empty()
            }),
            forall|j: int| 0 <= j < i ==> collider_allows(#[trigger] cs[j], a, b, start, end, layer),
            split_layer_inv(g0, cs, i as int, a, b, start),
            split_layer_inv(g1, cs, i as int, a, b, end),
            layer_set(split0) == split_set(g0),
            layer_set(split1) == split_set(g1),
            c0@ == prefix + connections_of(cs.take(i as int), a, b, start, end, layer, true),
            c1@ == connections_of(cs.take(i as int), a, b, start, end, layer, false),
            stop == exists|j: int|
                0 <= j < i && (#[trigger] cs[j]).collider == Collider::Point(end) && point_collision(
                    end,
                    a,
                    b,
                ) == SegmentCollision::Connecting,
        decreases cs.len() - i,
    {
        let e = colliders[i];
        let ghost take_next = cs.take(i + 1);
        assert(take_next.drop_last() =~= cs.take(i as int));
        assert(take_next.last() == e);
        let ghost old0 = g0;
        let ghost old1 = g1;
        let checked = check_collider(e, a, b, start, end, layer, &mut split0, &mut split1);
        match checked {
            None => {
                proof {
                    if collider_allows(e, a, b, start, end, layer) {
                        if touches_at(e, a, b, start) && !split_set(old0).contains(e.layer) && split_set(old0)
                            != Set::<u32>::empty() {
                            assert(old0 is Some) by {
                                if old0 is None {
                                    assert(split_set(old0) =~= Set::<u32>::empty());
                                }
                            }
                            let j = choose|j: int| 0 <= j < i && touches_at(#[trigger] cs[j], a, b, start);
                            assert(cs[j].layer != cs[i as int].layer);
                        } else {
                            assert(old1 is Some) by {
                                if old1 is None {
                                    assert(split_set(old1) =~= Set::<u32>::empty());
                                }
                            }
                            let j = choose|j: int| 0 <= j < i && touches_at(#[trigger] cs[j], a, b, end);
                            assert(cs[j].layer != cs[i as int].layer);
                        }
                    }
                }
                return None;
            },
            Some((x0, x1, st)) => {
                if let Some(x) = x0 {
                    c0.push(x);
                }
                if let Some(x) = x1 {
                    c1.push(x);
                }
                proof {
                    assert(c0@ =~= prefix + connections_of(take_next, a, b, start, end, layer, true));
                    assert(c1@ =~= connections_of(take_next, a, b, start, end, layer, false));
                }
                proof {
                    if touches_at(e, a, b, start) {
                        if old0 is Some {
                            assert(split_set(old0).contains(old0->0));
                            assert(split_set(old0) != Set::<u32>::empty());
                            assert(split_set(old0).contains(e.layer));
                        }
                        g0 = Some(e.layer);
                        assert(layer_set(split0) =~= split_set(g0));
                    }
                    if touches_at(e, a, b, end) {
                        if old1 is Some {
                            assert(split_set(old1).contains(old1->0));
                            assert(split_set(old1) != Set::<u32>::empty());
                            assert(split_set(old1).contains(e.layer));
                        }
                        g1 = Some(e.layer);
                        assert(layer_set(split1) =~= split_set(g1));
                    }
                }
                stop = stop || st;
            },
        }
        proof {
            assert(split_layer_inv(g0, cs, i + 1, a, b, start));
            assert(split_layer_inv(g1, cs, i + 1, a, b, end));
        }
        i = i + 1;
    }
    assert(cs.take(cs.len() as int) =~= cs);
    Some((AddSegment { points: (a, b), connections: (c0, c1) }, stop))
}


/// The segments to lay down for a whole route and whether the route finishes
/// the road, or `None` where one of its segments may not be laid down.
pub fn evaluate_route(
    route: &Vec<(Point, Point)>,
    colliders: &Vec<ColliderEntry>,
    start: Point,
    end: Point,
    layer: u32,
) -> (r: Option<(Vec<AddSegment>, bool)>)
    ensures
        r is None <==> !route_allowed(route@, colliders@, start, end, layer),
        r matches Some((adds, stop)) ==> {
            &&& adds@.map_values(|x: AddSegment| x@) == route_adds(route@, colliders@, start, end, layer)
            &&& stop == route_stops(route@, colliders@, end)
        },
{
    let mut adds: Vec<AddSegment> = Vec::new();
    let mut stop = false;
    let mut k: usize = 0;
    while k < route.len()
        invariant
            k <= route.len(),
            adds@.len() == k,
            forall|j: int| 0 <= j < k ==> segment_allowed(colliders@, (#[trigger] route@[j]).0, route@[j].1, start, end, layer),
            forall|j: int| 0 <= j < k ==> (#[trigger] adds@[j])@ == add_segment_spec(colliders@, j, route@[j].0, route@[j].1, start, end, layer),
            stop == exists|j: int| 0 <= j < k && reaches_end_terminus(colliders@, (#[trigger] route@[j]).0, route@[j].1, end),
        decreases route.len() - k,
    {
        let (a, b) = route[k];
        match evaluate_segment(k, a, b, colliders, start, end, layer) {
            None => {
                return None;
            },
            Some((add, st)) => {
                adds.push(add);
                stop = stop || st;
            },
        }
        k = k + 1;
    }
    assert(adds@.map_values(|x: AddSegment| x@) =~= route_adds(route@, colliders@, start, end, layer));
    Some((adds, stop))
}

/// The first of `routes` that may be laid down.
pub open spec fn first_allowed(
    routes: Seq<Seq<(Point, Point)>>,
    cs: Seq<ColliderEntry>,
    start: Point,
    end: Point,
    layer: u32,
) -> Option<int>
    decreases routes.len(),
{
    if routes.len() == 0 {
        None
    } else {
        match first_allowed(routes.drop_last(), cs, start, end, layer) {
            Some(k) => Some(k),
            None => if route_allowed(routes.last(), cs, start, end, layer) {
                Some(routes.len() - 1)
            } else {
                None
            },
        }
    }
}

/// The axis the drawn road prefers to leave its start along: moving the mouse
/// in line with the start on one axis makes the road move along the other.
pub open spec fn axis_preference_after(start: Point, mouse: Point, pref: Option<Axis>) -> Option<Axis> {
    if start.x == mouse.x {
        Some(Axis::Y)
    } else if start.y == mouse.y {
        Some(Axis::X)
    } else {
        pref
    }
}

/// Follows the mouse while a road is being drawn: re-routes the road from its
/// start to the snapped mouse position `mouse`, and keeps the first offered
/// route that may be laid down, or shows the first route as invalid.
pub fn drawing_mouse_movement(
    state: &mut RoadDrawingState,
    sim_state: SimulationState,
    mouse: Point,
    mouse_changed: bool,
    state_changed: bool,
    colliders: &Vec<ColliderEntry>,
)
    ensures
        ({
            let o = *old(state);
            let f = *final(state);
            let applies = o.drawing && sim_state == SimulationState::NotStarted && (mouse_changed
                || state_changed) && !(mouse == o.end && o.layer == o.prev_layer);
            &&& f.drawing == o.drawing
            &&& f.start == o.start
            &&& f.layer == o.layer
            &&& !applies ==> {
                &&& f.end == o.end
                &&& f.prev_layer == o.prev_layer
                &&& f.axis_preference == o.axis_preference
                &&& f.segments@ == o.segments@
                &&& f.adds@ == o.adds@
                &&& f.valid == o.valid
                &&& f.stop == o.stop
            }
            &&& applies ==> {
                let pref = axis_preference_after(o.start, mouse, o.axis_preference);
                let routes = possible_lines_spec(o.start, mouse, pref);
                &&& f.end == mouse
                &&& f.prev_layer == o.layer
                &&& f.axis_preference == pref
                &&& match first_allowed(routes, colliders@, o.start, mouse, o.layer) {
                    Some(k) => {
                        &&& f.segments@ == routes[k]
                        &&& f.adds@.map_values(|x: AddSegment| x@) == route_adds(
                            routes[k],
                            colliders@,
                            o.start,
                            mouse,
                            o.layer,
                        )
                        &&& f.stop == route_stops(routes[k], colliders@, mouse)
                        &&& f.valid
                    },
                    None => {
                        &&& f.segments@ == routes[0]
                        &&& f.adds@.len() == 0
                        &&& f.stop == o.stop
                        &&& !f.valid
                    },
                }
            }
        }),
{
    if !state.drawing {
        return;
    }
    if sim_state != SimulationState::NotStarted {
        return;
    }
    if !mouse_changed && !state_changed {
        return;
    }
    if mouse == state.end && state.layer == state.prev_layer {
        return;
    }

    state.end = mouse;
    state.prev_layer = state.layer;

    // line drawing can be coerced to follow one axis or another by moving the mouse to a
    // position that is a straight line from the starting point in that axis.
    if state.start.x == mouse.x {
        state.axis_preference = Some(Axis::Y);
    } else if state.start.y == mouse.y {
        state.axis_preference = Some(Axis::X);
    }

    if mouse == state.start {
        state.segments = Vec::new();
        state.adds = Vec::new();
        state.valid = true;
    }

    let mut possible = possible_lines(state.start, mouse, state.axis_preference);
    let ghost routes = possible@.map_values(|v: Vec<(Point, Point)>| v@);
    proof {
        crate::lines::lemma_possible_lines_octilinear(state.start, mouse, state.axis_preference);
    }

    let mut chosen: Option<(usize, Vec<AddSegment>, bool)> = None;
    let mut i: usize = 0;
    while i < possible.len()
        invariant_except_break
            chosen is None,
            first_allowed(routes.take(i as int), colliders@, state.start, mouse, state.layer) is None,
        invariant
            i <= possible.len(),
            routes == possible@.map_values(|v: Vec<(Point, Point)>| v@),
            routes.len() == possible@.len(),
            chosen matches Some((k, adds, stop)) ==> {
                &&& first_allowed(routes, colliders@, state.start, mouse, state.layer) == Some(k as int)
                &&& adds@.map_values(|x: AddSegment| x@) == route_adds(routes[k as int], colliders@, state.start, mouse, state.layer)
                &&& stop == route_stops(routes[k as int], colliders@, mouse)
                &&& k < possible.len()
            },
        ensures
            chosen is None ==> first_allowed(routes.take(possible.len() as int), colliders@, state.start, mouse, state.layer) is None,
        decreases possible.len() - i,
    {
        let ghost take_next = routes.take(i + 1);
        assert(take_next.drop_last() =~= routes.take(i as int));
        assert(take_next.last() == possible@[i as int]@);
        match evaluate_route(&possible[i], colliders, state.start, mouse, state.layer) {
            Some((adds, stop)) => {
                proof {
                    assert(routes[i as int] == possible@[i as int]@);
                    assert(first_allowed(take_next, colliders@, state.start, mouse, state.layer) == Some(i as int));
                    lemma_first_allowed_prefix(routes, i as int + 1, colliders@, state.start, mouse, state.layer);
                }
                chosen = Some((i, adds, stop));
                break;
            },
            None => {},
        }
        i = i + 1;
    }
    proof {
        if chosen is None {
            assert(routes.take(possible.len() as int) =~= routes);
        }
    }

    match chosen {
        Some((k, adds, stop)) => {
            state.segments = possible.remove(k);
            state.adds = adds;
            state.stop = stop;
            state.valid = true;
        },
        None => {
            state.segments = possible.remove(0);
            state.adds = Vec::new();
            state.valid = false;
        },
    }
}

/// Once the first `n` routes hold one that may be laid down, the first such
/// route is the first of all the routes.
proof fn lemma_first_allowed_prefix(
    routes: Seq<Seq<(Point, Point)>>,
    n: int,
    cs: Seq<ColliderEntry>,
    start: Point,
    end: Point,
    layer: u32,
)
    requires
        0 <= n <= routes.len(),
        first_allowed(routes.take(n), cs, start, end, layer) is Some,
    ensures
        first_allowed(routes, cs, start, end, layer) == first_allowed(routes.take(n), cs, start, end, layer),
    decreases routes.len() - n,
{
    if n < routes.len() {
        assert(routes.take(n + 1).drop_last() =~= routes.take(n));
        lemma_first_allowed_prefix(routes, n + 1, cs, start, end, layer);
    } else {
        assert(routes.take(n) =~= routes);
    }
}


/// A segment collider of layer 0 (an obstacle edge) that the point `p` meets.
pub open spec fn blocks_point(e: ColliderEntry, p: Point) -> bool {
    match e.collider {
        Collider::Segment(s) => point_collision(p, s.0, s.1) != SegmentCollision::Disjoint && e.layer
            == 0,
        Collider::Point(_) => false,
    }
}

/// Follows the mouse while no road is being drawn: a road may be started
/// at the snapped mouse position `mouse` unless it lies on an obstacle.
pub fn not_drawing_mouse_movement(
    state: &mut RoadDrawingState,
    line_drawing_tool: bool,
    mouse: Point,
    mouse_changed: bool,
    colliders: &Vec<ColliderEntry>,
)
    ensures
        ({
            let o = *old(state);
            let f = *final(state);
            &&& f.valid == (if line_drawing_tool && mouse_changed && !o.drawing {
                !(exists|i: int| 0 <= i < colliders@.len() && blocks_point(#[trigger] colliders@[i], mouse))
            } else {
                o.valid
            })
            &&& f.drawing == o.drawing
            &&& f.start == o.start
            &&& f.end == o.end
            &&& f.stop == o.stop
            &&& f.segments@ == o.segments@
            &&& f.adds@ == o.adds@
            &&& f.axis_preference == o.axis_preference
            &&& f.layer == o.layer
            &&& f.prev_layer == o.prev_layer
        }),
{
    if !line_drawing_tool {
        return;
    }
    if !mouse_changed {
        return;
    }
    if state.drawing {
        return;
    }
    let mut bad = false;
    let mut i: usize = 0;
    while i < colliders.len()
        invariant
            i <= colliders.len(),
            bad == exists|j: int| 0 <= j < i && blocks_point(#[trigger] colliders@[j], mouse),
        decreases colliders.len() - i,
    {
        let e = colliders[i];
        match e.collider {
            Collider::Segment(seg) => {
                let c = point_segment_collision(mouse, seg.0, seg.1);
                if c != SegmentCollision::Disjoint && e.layer == 0 {
                    bad = true;
                }
            },
            Collider::Point(_) => {},
        }
        i = i + 1;
    }
    if bad && state.valid {
        state.valid = false;
    } else if !bad && !state.valid {
        state.valid = true;
    }
}

/// What a click does to the road being drawn.
#[derive(Clone, Copy, Debug, PartialEq, Eq, Structural)]
pub enum ClickOutcome {
    /// Nothing more to do.
    Ignored,
    /// The planned segments (`adds`) are to be laid down, then
    /// [`finish_commit`] called.
    Commit,
}

/// A left click with the line drawing tool, at the snapped mouse position
/// `mouse`: starts a road at a valid point, ends a road that has not left its
/// start, or asks for the planned segments of a valid road to be laid down.
pub fn drawing_mouse_click(
    state: &mut RoadDrawingState,
    mouse: Point,
    in_play_area: bool,
    line_drawing_tool: bool,
    sim_state: SimulationState,
    just_pressed: bool,
) -> (r: ClickOutcome)
    ensures
        ({
            let o = *old(state);
            let f = *final(state);
            let clicked = in_play_area && line_drawing_tool && sim_state == SimulationState::NotStarted
                && just_pressed;
            &&& r == (if clicked && o.drawing && o.end != o.start && o.valid && o.adds@.len() > 0 {
                ClickOutcome::Commit
            } else {
                ClickOutcome::Ignored
            })
            &&& f.drawing == (if clicked && !o.drawing && o.valid {
                true
            } else if clicked && o.drawing && o.end == o.start {
                false
            } else {
                o.drawing
            })
            &&& f.start == (if clicked && !o.drawing && o.valid { mouse } else { o.start })
            &&& f.end == (if clicked && !o.drawing && o.valid { mouse } else { o.end })
            &&& f.valid == o.valid
            &&& f.stop == o.stop
            &&& f.segments@ == o.segments@
            &&& f.adds@ == o.adds@
            &&& f.axis_preference == o.axis_preference
            &&& f.layer == o.layer
            &&& f.prev_layer == o.prev_layer
        }),
{
    if !in_play_area || !line_drawing_tool || sim_state != SimulationState::NotStarted
        || !just_pressed {
        return ClickOutcome::Ignored;
    }
    if !state.drawing {
        if state.valid {
            state.drawing = true;
            state.start = mouse;
            state.end = state.start;
        }
        return ClickOutcome::Ignored;
    }
    if state.end == state.start {
        state.drawing = false;
        return ClickOutcome::Ignored;
    }
    if !state.valid {
        return ClickOutcome::Ignored;
    }
    if state.adds.len() == 0 {
        return ClickOutcome::Ignored;
    }
    ClickOutcome::Commit
}

/// After the planned segments were laid down: the next part of the road
/// starts where this one ended, and a road that reached a terminus is done.
pub fn finish_commit(state: &mut RoadDrawingState)
    ensures
        ({
            let o = *old(state);
            let f = *final(state);
            &&& f.drawing == (o.drawing && !o.stop)
            &&& !f.stop
            &&& f.start == o.end
            &&& f.end == o.end
            &&& f.adds@.len() == 0
            &&& f.segments@.len() == 0
            &&& f.valid == o.valid
            &&& f.axis_preference == o.axis_preference
            &&& f.layer == o.layer
            &&& f.prev_layer == o.prev_layer
        }),
{
    if state.stop {
        state.drawing = false;
        state.stop = false;
    }
    state.start = state.end;
    state.adds = Vec::new();
    state.segments = Vec::new();
}

/// An end of a new segment may lengthen an existing segment only when that
/// is its one connection, so that no other connection breaks.
pub fn valid_extension(connections: &Vec<SegmentConnection>) -> (r: bool)
    ensures
        r == (connections@.len() == 1 && connections@[0] is TryExtend),
{
    connections.len() == 1 && matches!(connections[0], SegmentConnection::TryExtend(_))
}

/// The points of a new segment after lengthening it over the existing
/// segments `extend_start` (at its start) and `extend_end` (at its end): the
/// far end of the existing segment replaces the shared one.
pub fn extended_points(
    points: (Point, Point),
    extend_start: Option<(Point, Point)>,
    extend_end: Option<(Point, Point)>,
) -> (r: (Point, Point))
    ensures
        r.0 == (match extend_start {
            Some(s) => if points.0 == s.0 { s.1 } else { s.0 },
            None => points.0,
        }),
        r.1 == (match extend_end {
            Some(s) => if points.1 == s.1 { s.0 } else { s.1 },
            None => points.1,
        }),
{
    let mut r = points;
    if let Some(s) = extend_start {
        if points.0 == s.0 {
            r.0 = s.1;
        } else {
            r.0 = s.0;
        }
    }
    if let Some(s) = extend_end {
        if points.1 == s.1 {
            r.1 = s.0;
        } else {
            r.1 = s.1;
        }
    }
    r
}


/// A route that may be laid down meets no obstacle at all, crosses and
/// overlaps no road of its own layer, overlaps no road of another layer, and
/// runs through no terminus.
pub proof fn lemma_allowed_route_keeps_clear(
    route: Seq<(Point, Point)>,
    cs: Seq<ColliderEntry>,
    start: Point,
    end: Point,
    layer: u32,
    k: int,
    i: int,
)
    requires
        route_allowed(route, cs, start, end, layer),
        0 <= k < route.len(),
        0 <= i < cs.len(),
    ensures
        cs[i].collider matches Collider::Segment(s) ==> {
            let c = segment_collision_spec(s.0, s.1, route[k].0, route[k].1);
            &&& cs[i].layer == 0 ==> c == SegmentCollision::Disjoint
            &&& cs[i].layer == layer ==> c != SegmentCollision::Intersecting
            &&& c != SegmentCollision::Overlapping
        },
        cs[i].collider matches Collider::Point(p) ==> point_collision(p, route[k].0, route[k].1)
            != SegmentCollision::Touching,
{
    assert(segment_allowed(cs, route[k].0, route[k].1, start, end, layer));
    assert(collider_allows(cs[i], route[k].0, route[k].1, start, end, layer));
}


/// The route [`first_allowed`] picks is one of the routes, and may be laid
/// down.
proof fn lemma_first_allowed_is_allowed(
    routes: Seq<Seq<(Point, Point)>>,
    cs: Seq<ColliderEntry>,
    start: Point,
    end: Point,
    layer: u32,
)
    ensures
        first_allowed(routes, cs, start, end, layer) matches Some(k) ==> 0 <= k < routes.len()
            && route_allowed(routes[k], cs, start, end, layer),
    decreases routes.len(),
{
    if routes.len() > 0 {
        lemma_first_allowed_is_allowed(routes.drop_last(), cs, start, end, layer);
    }
}

/// The road the drawing tool lays down from `start` to the mouse at `end`
/// is a connected chain of at most two horizontal, vertical or 45-degree
/// segments from `start` to `end`, and it may be laid down.
pub proof fn lemma_drawn_road_is_octilinear(
    start: Point,
    end: Point,
    pref: Option<Axis>,
    cs: Seq<ColliderEntry>,
    layer: u32,
)
    ensures
        ({
            let routes = possible_lines_spec(start, end, axis_preference_after(start, end, pref));
            first_allowed(routes, cs, start, end, layer) matches Some(k) ==> {
                &&& is_octilinear_route(routes[k], start, end)
                &&& routes[k].len() <= 2
                &&& route_allowed(routes[k], cs, start, end, layer)
            }
        }),
{
    let p = axis_preference_after(start, end, pref);
    let routes = possible_lines_spec(start, end, p);
    lemma_possible_lines_octilinear(start, end, p);
    lemma_first_allowed_is_allowed(routes, cs, start, end, layer);
}

} // verus!

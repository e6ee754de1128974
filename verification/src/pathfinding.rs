//! Turning a path through the road graph into the route that pixies follow,
//! and planning the emitters that release them.

use vstd::prelude::*;
use crate::geom::{Point, RoadSegment};
use crate::road_drawing::EntityId;
use crate::level::{PixieFlavor, PathRequest, Terminus, path_requests, requests_upto, requests_from, shared_flavors};
use crate::graph::{RawGraph, RoadGraph, astar_path, cheapest_walk, no_walk};
use bevy::platform::collections::HashMap;

verus! {

/// A number for each terminus that a table of counts holds.
pub uninterp spec fn count_table(m: HashMap<EntityId, u32>) -> Map<EntityId, u32>;

/// `HashMap::new`: a table that holds no count.
#[verifier::external_body]
fn counts_new() -> (r: HashMap<EntityId, u32>)
    ensures
        count_table(r).dom() == Set::<EntityId>::empty(),
{
    HashMap::new()
}

/// `HashMap::get`: the count held for terminus `s`, if any.
#[verifier::external_body]
fn counts_get(m: &HashMap<EntityId, u32>, s: EntityId) -> (r: Option<u32>)
    ensures
        r == (if count_table(*m).dom().contains(s) {
            Some(count_table(*m)[s])
        } else {
            None
        }),
{
    m.get(&s).copied()
}

/// `HashMap::insert`: holds `c` for terminus `s`, replacing what was held.
#[verifier::external_body]
fn counts_insert(m: &mut HashMap<EntityId, u32>, s: EntityId, c: u32)
    ensures
        count_table(*final(m)) == count_table(*old(m)).insert(s, c),
{
    m.insert(s, c);
}

/// The nodes of a path after dropping each node whose entity is the entity of
/// the node before it (each road segment is two nodes of the graph).
pub open spec fn dedup_nodes(nodes: Seq<(EntityId, Option<RoadSegment>)>) -> Seq<
    (EntityId, Option<RoadSegment>),
>
    decreases nodes.len(),
{
    if nodes.len() == 0 {
        Seq::empty()
    } else if nodes.len() > 1 && nodes[nodes.len() - 1].0 == nodes[nodes.len() - 2].0 {
        dedup_nodes(nodes.drop_last())
    } else {
        dedup_nodes(nodes.drop_last()).push(nodes.last())
    }
}

/// The road segments among `nodes`, in order.
pub open spec fn road_segments(nodes: Seq<(EntityId, Option<RoadSegment>)>) -> Seq<RoadSegment>
    decreases nodes.len(),
{
    if nodes.len() == 0 {
        Seq::empty()
    } else {
        match nodes.last().1 {
            Some(seg) => road_segments(nodes.drop_last()).push(seg),
            None => road_segments(nodes.drop_last()),
        }
    }
}

/// `seg`, turned around unless it already starts at `prev_end`.
pub open spec fn oriented_from(seg: RoadSegment, prev_end: Point) -> RoadSegment {
    if seg.points.0 != prev_end {
        RoadSegment { points: (seg.points.1, seg.points.0), layer: seg.layer }
    } else {
        seg
    }
}

/// The segments, each turned to start where the one before it ends (the
/// first where the path starts).
pub open spec fn orient_segments(start: Point, segs: Seq<RoadSegment>) -> Seq<RoadSegment>
    decreases segs.len(),
{
    if segs.len() == 0 {
        Seq::empty()
    } else {
        let o = orient_segments(start, segs.drop_last());
        let prev_end = if o.len() == 0 {
            start
        } else {
            o.last().points.1
        };
        o.push(oriented_from(segs.last(), prev_end))
    }
}

/// The route that pixies follow along a path of graph nodes that starts at a
/// terminus at `start`.
pub open spec fn world_path_spec(start: Point, nodes: Seq<(EntityId, Option<RoadSegment>)>) -> Seq<
    RoadSegment,
> {
    orient_segments(start, road_segments(dedup_nodes(nodes)))
}

/// The route that pixies follow along a path found in the road graph: `nodes`
/// holds the entity of each node of the path and, where that entity is a road
/// segment, the segment; `start` is the point of the terminus the path starts
/// from.
pub fn world_path(start: Point, nodes: &Vec<(EntityId, Option<RoadSegment>)>) -> (r: Vec<
    RoadSegment,
>)
    ensures
        r@ == world_path_spec(start, nodes@),
{
    let mut path: Vec<RoadSegment> = Vec::new();
    let mut prev_end = start;
    let mut i: usize = 0;
    while i < nodes.len()
        invariant
            i <= nodes.len(),
            path@ == orient_segments(start, road_segments(dedup_nodes(nodes@.take(i as int)))),
            prev_end == (if path@.len() == 0 {
                start
            } else {
                path@.last().points.1
            }),
        decreases nodes.len() - i,
    {
        let ghost take_next = nodes@.take(i + 1);
        assert(take_next.drop_last() =~= nodes@.take(i as int));
        let (entity, seg) = nodes[i];
        let duplicate = i > 0 && nodes[i - 1].0 == entity;
        if !duplicate {
            if let Some(seg) = seg {
                let flipped = if seg.points.0 != prev_end {
                    RoadSegment { points: (seg.points.1, seg.points.0), layer: seg.layer }
                } else {
                    seg
                };
                prev_end = flipped.points.1;
                path.push(flipped);
            }
        }
        proof {
            let d = dedup_nodes(take_next);
            let d0 = dedup_nodes(nodes@.take(i as int));
            if duplicate {
                assert(d == d0);
            } else {
                assert(d == d0.push(nodes@[i as int]));
                assert(d.drop_last() =~= d0);
                if seg is Some {
                    assert(road_segments(d) == road_segments(d0).push(seg->0));
                    assert(road_segments(d).drop_last() =~= road_segments(d0));
                } else {
                    assert(road_segments(d) == road_segments(d0));
                }
            }
        }
        i = i + 1;
    }
    assert(nodes@.take(nodes@.len() as int) =~= nodes@);
    path
}

/// Each segment has the end of the one before it (the first: `start`) as one
/// of its ends.
pub open spec fn joined_from(start: Point, segs: Seq<RoadSegment>) -> bool {
    forall|i: int|
        0 <= i < segs.len() ==> {
            let prev_end = if i == 0 {
                start
            } else {
                orient_segments(start, segs.take(i)).last().points.1
            };
            (#[trigger] segs[i]).points.0 == prev_end || segs[i].points.1 == prev_end
        }
}

/// A route is continuous: it leaves `start`, and each segment starts where
/// the one before it ends.
pub open spec fn is_continuous(start: Point, route: Seq<RoadSegment>) -> bool {
    &&& route.len() > 0 ==> route[0].points.0 == start
    &&& forall|i: int| 0 < i < route.len() ==> (#[trigger] route[i]).points.0 == route[i - 1].points.1
}

/// Orienting segments that are joined end to end from `start` yields a
/// continuous route from `start`.
pub proof fn lemma_orient_continuous(start: Point, segs: Seq<RoadSegment>)
    requires
        joined_from(start, segs),
    ensures
        is_continuous(start, orient_segments(start, segs)),
        orient_segments(start, segs).len() == segs.len(),
    decreases segs.len(),
{
    if segs.len() > 0 {
        let init = segs.drop_last();
        assert forall|i: int| 0 <= i < init.len() implies {
            let prev_end = if i == 0 {
                start
            } else {
                orient_segments(start, init.take(i)).last().points.1
            };
            (#[trigger] init[i]).points.0 == prev_end || init[i].points.1 == prev_end
        } by {
            assert(init.take(i) =~= segs.take(i));
            assert(init[i] == segs[i]);
        }
        lemma_orient_continuous(start, init);
        let n = segs.len() - 1;
        assert(segs.take(n) =~= init);
        assert(segs[n] == segs.last());
    }
}

/// The pixies an emitter releases and its place among the emitters that
/// share its starting terminus.
#[derive(Clone, Copy, Debug, PartialEq, Eq, Structural)]
pub struct EmitterPlan {
    /// How many pixies it releases.
    pub pixies: u32,
    /// How many emitters share its starting terminus.
    pub group_size: u32,
    /// Its place among those emitters, from 0.
    pub group_index: u32,
}

/// The pixies released from one starting terminus, shared among its emitters.
pub const TOTAL_PIXIES: u32 = 50;

/// How many of the first `n` entries of `starts` are `s`.
pub open spec fn count_before(starts: Seq<EntityId>, n: int, s: EntityId) -> nat
    decreases n,
{
    if n <= 0 {
        0
    } else {
        count_before(starts, n - 1, s) + if starts[n - 1] == s {
            1nat
        } else {
            0nat
        }
    }
}

/// The plan of the emitter of the path at index `i`, given the starting
/// terminus of every path.
pub open spec fn emitter_plan_spec(starts: Seq<EntityId>, i: int) -> EmitterPlan {
    let size = count_before(starts, starts.len() as int, starts[i]);
    EmitterPlan {
        pixies: (TOTAL_PIXIES / (size as u32)) as u32,
        group_size: size as u32,
        group_index: count_before(starts, i, starts[i]) as u32,
    }
}

proof fn lemma_count_before_bounds(starts: Seq<EntityId>, n: int, s: EntityId)
    requires
        0 <= n <= starts.len(),
    ensures
        count_before(starts, n, s) <= n,
    decreases n,
{
    if n > 0 {
        lemma_count_before_bounds(starts, n - 1, s);
    }
}

proof fn lemma_count_before_mono(starts: Seq<EntityId>, m: int, n: int, s: EntityId)
    requires
        0 <= m <= n <= starts.len(),
    ensures
        count_before(starts, m, s) <= count_before(starts, n, s),
    decreases n - m,
{
    if m < n {
        lemma_count_before_mono(starts, m, n - 1, s);
    }
}

/// The table holds, for each terminus among the first `n` entries of
/// `starts`, how many of them it is, and nothing else.
pub open spec fn counts_first(m: Map<EntityId, u32>, starts: Seq<EntityId>, n: int) -> bool {
    forall|s: EntityId|
        #[trigger] m.dom().contains(s) == (count_before(starts, n, s) > 0) && (m.dom().contains(s) ==> m[s]
            == count_before(starts, n, s))
}

/// The count of entries of `s` that `m` holds, or 0.
fn count_of(m: &HashMap<EntityId, u32>, s: EntityId) -> (r: u32)
    ensures
        r == (if count_table(*m).dom().contains(s) {
            count_table(*m)[s]
        } else {
            0
        }),
{
    match counts_get(m, s) {
        Some(c) => c,
        None => 0,
    }
}

/// The emitters for a set of paths, given the starting terminus of each:
/// each of the `k` emitters that share a terminus releases `50 / k` pixies and
/// gets its place among them, in the order of the paths.
pub fn plan_emitters(starts: &Vec<EntityId>) -> (r: Vec<EmitterPlan>)
    requires
        starts.len() <= u32::MAX,
    ensures
        r@.len() == starts@.len(),
        forall|i: int| 0 <= i < starts@.len() ==> #[trigger] r@[i] == emitter_plan_spec(starts@, i),
{
    let mut counts = counts_new();
    let mut j: usize = 0;
    while j < starts.len()
        invariant
            j <= starts.len(),
            starts.len() <= u32::MAX,
            counts_first(count_table(counts), starts@, j as int),
        decreases starts.len() - j,
    {
        let s = starts[j];
        let c = count_of(&counts, s);
        proof {
            lemma_count_before_bounds(starts@, j as int, s);
        }
        counts_insert(&mut counts, s, c + 1);
        j = j + 1;
    }
    let mut placed = counts_new();
    let mut r: Vec<EmitterPlan> = Vec::new();
    let mut i: usize = 0;
    while i < starts.len()
        invariant
            i <= starts.len(),
            starts.len() <= u32::MAX,
            counts_first(count_table(counts), starts@, starts@.len() as int),
            counts_first(count_table(placed), starts@, i as int),
            r@.len() == i,
            forall|j: int| 0 <= j < i ==> #[trigger] r@[j] == emitter_plan_spec(starts@, j),
        decreases starts.len() - i,
    {
        let s = starts[i];
        proof {
            lemma_count_before_mono(starts@, i as int + 1, starts@.len() as int, s);
            lemma_count_before_bounds(starts@, i as int, s);
            assert(count_table(counts).dom().contains(s));
        }
        let size = count_of(&counts, s);
        let index = count_of(&placed, s);
        r.push(EmitterPlan { pixies: TOTAL_PIXIES / size, group_size: size, group_index: index });
        counts_insert(&mut placed, s, index + 1);
        i = i + 1;
    }
    r
}

/// Emitters that share a starting terminus get distinct places, each below the
/// number of emitters there, and each releases at least one pixie when at most
/// 50 paths leave that terminus.
pub proof fn lemma_emitter_groups(starts: Seq<EntityId>, i: int, j: int)
    requires
        0 <= i < starts.len(),
        0 <= j < starts.len(),
        i != j,
        starts[i] == starts[j],
        starts.len() <= u32::MAX,
    ensures
        emitter_plan_spec(starts, i).group_index != emitter_plan_spec(starts, j).group_index,
        emitter_plan_spec(starts, i).group_index < emitter_plan_spec(starts, i).group_size,
        count_before(starts, starts.len() as int, starts[i]) <= TOTAL_PIXIES ==> emitter_plan_spec(
            starts,
            i,
        ).pixies >= 1,
{
    let s = starts[i];
    assert(count_before(starts, i + 1, s) == count_before(starts, i, s) + 1);
    assert(count_before(starts, j + 1, s) == count_before(starts, j, s) + 1);
    lemma_count_before_bounds(starts, starts.len() as int, s);
    lemma_count_before_bounds(starts, i, s);
    lemma_count_before_bounds(starts, j, s);
    if i < j {
        lemma_count_before_mono(starts, i + 1, j, s);
    } else {
        lemma_count_before_mono(starts, j + 1, i, s);
    }
    lemma_count_before_mono(starts, i + 1, starts.len() as int, s);
    let size = count_before(starts, starts.len() as int, s) as u32;
    if size <= TOTAL_PIXIES {
        assert(TOTAL_PIXIES / size >= 1) by (nonlinear_arith)
            requires
                1 <= size <= TOTAL_PIXIES,
        ;
    }
}


/// A path found for a request: the flavor of its pixies, the terminus entity
/// it starts from, and the route the pixies follow.
pub type FoundPath = (PixieFlavor, EntityId, Vec<RoadSegment>);

/// What the search found for one request: its flavor, the terminus entity it
/// starts from, and the route when the road graph connects the two termini.
pub type PathOutcome = (PixieFlavor, EntityId, Option<Vec<RoadSegment>>);

pub open spec fn outcome_view(o: PathOutcome) -> (PixieFlavor, EntityId, Option<Seq<RoadSegment>>) {
    (o.0, o.1, match o.2 {
        Some(p) => Some(p@),
        None => None,
    })
}

pub open spec fn found_view(p: FoundPath) -> (PixieFlavor, EntityId, Seq<RoadSegment>) {
    (p.0, p.1, p.2@)
}

/// The routes found, in order, leaving out empty ones.
pub open spec fn found_paths(os: Seq<(PixieFlavor, EntityId, Option<Seq<RoadSegment>>)>) -> Seq<
    (PixieFlavor, EntityId, Seq<RoadSegment>),
>
    decreases os.len(),
{
    if os.len() == 0 {
        Seq::empty()
    } else {
        let last = os.last();
        found_paths(os.drop_last()) + match last.2 {
            Some(p) => if p.len() > 0 {
                seq![(last.0, last.1, p)]
            } else {
                Seq::empty()
            },
            None => Seq::empty(),
        }
    }
}

/// The starting termini of the requests that found no route, in order.
pub open spec fn unreachable_starts(os: Seq<(PixieFlavor, EntityId, Option<Seq<RoadSegment>>)>) -> Seq<
    EntityId,
>
    decreases os.len(),
{
    if os.len() == 0 {
        Seq::empty()
    } else {
        unreachable_starts(os.drop_last()) + if os.last().2 is None {
            seq![os.last().1]
        } else {
            Seq::empty()
        }
    }
}

/// Every request found a route that is not empty.
pub open spec fn all_found(os: Seq<(PixieFlavor, EntityId, Option<Seq<RoadSegment>>)>) -> bool {
    forall|i: int| 0 <= i < os.len() ==> route_found(#[trigger] os[i])
}

/// The request found a route that is not empty.
pub open spec fn route_found(o: (PixieFlavor, EntityId, Option<Seq<RoadSegment>>)) -> bool {
    match o.2 {
        Some(p) => p.len() > 0,
        None => false,
    }
}

/// Whether the pixies can be released, the paths they follow, and the termini
/// to flag as unconnected.
pub struct PathfindingState {
    pub valid: bool,
    pub paths: Vec<FoundPath>,
    pub invalid_nodes: Vec<EntityId>,
}

impl Default for PathfindingState {
    fn default() -> (s: Self)
        ensures
            !s.valid,
            s.paths@.len() == 0,
            s.invalid_nodes@.len() == 0,
    {
        PathfindingState { valid: false, paths: Vec::new(), invalid_nodes: Vec::new() }
    }
}

/// Takes in what the search found for every request of the level: the
/// pixies can be released when every request found a non-empty route and
/// there is at least one; then those routes are kept. Otherwise the state is
/// invalid and flags the termini whose requests found no route.
pub fn update_pathfinding(state: &mut PathfindingState, outcomes: Vec<PathOutcome>)
    ensures
        ({
            let os = outcomes@.map_values(|o: PathOutcome| outcome_view(o));
            let found = found_paths(os);
            if all_found(os) && found.len() > 0 {
                &&& final(state).valid
                &&& final(state).paths@.map_values(|p: FoundPath| found_view(p)) == found
                &&& final(state).invalid_nodes@ == old(state).invalid_nodes@
            } else {
                &&& !final(state).valid
                &&& final(state).invalid_nodes@ == unreachable_starts(os)
                &&& final(state).paths@ == old(state).paths@
            }
        }),
{
    let ghost os = outcomes@.map_values(|o: PathOutcome| outcome_view(o));
    let n = outcomes.len();
    let mut rest = outcomes;
    let mut ok = true;
    let mut paths: Vec<FoundPath> = Vec::new();
    let mut not_ok: Vec<EntityId> = Vec::new();
    let mut i: usize = 0;
    while rest.len() > 0
        invariant
            i <= os.len(),
            os.len() == n,
            rest@.map_values(|o: PathOutcome| outcome_view(o)) == os.skip(i as int),
            ok == all_found(os.take(i as int)),
            paths@.map_values(|p: FoundPath| found_view(p)) == found_paths(os.take(i as int)),
            not_ok@ == unreachable_starts(os.take(i as int)),
        decreases rest.len(),
    {
        let ghost take_next = os.take(i + 1);
        proof {
            assert(rest@.map_values(|o: PathOutcome| outcome_view(o)).len() == rest@.len());
            assert(i < os.len());
            assert(rest@.map_values(|o: PathOutcome| outcome_view(o))[0] == os.skip(i as int)[0]);
            assert(take_next.drop_last() =~= os.take(i as int));
            assert(take_next.last() == os[i as int]);
        }
        let ghost before_rest = rest@;
        let (flavor, start, path) = rest.remove(0);
        proof {
            assert forall|j: int| 0 <= j < rest@.len() implies outcome_view(#[trigger] rest@[j]) == os[i + 1 + j] by {
                assert(rest@[j] == before_rest[j + 1]);
                assert(before_rest.map_values(|o: PathOutcome| outcome_view(o))[j + 1] == os.skip(i as int)[j + 1]);
            }
            assert(rest@.map_values(|o: PathOutcome| outcome_view(o)) =~= os.skip(i + 1));
        }
        let ghost before_paths = paths@;
        match path {
            Some(world_path) => {
                if world_path.len() == 0 {
                    ok = false;
                } else {
                    paths.push((flavor, start, world_path));
                }
            },
            None => {
                ok = false;
                not_ok.push(start);
            },
        }
        proof {
            assert(paths@.map_values(|p: FoundPath| found_view(p)) =~= found_paths(take_next));
            assert(not_ok@ =~= unreachable_starts(take_next));
            if ok {
                assert forall|j: int| 0 <= j < take_next.len() implies route_found(#[trigger] take_next[j]) by {
                    if j < i {
                        assert(take_next[j] == os.take(i as int)[j]);
                    }
                }
            } else {
                if all_found(take_next) {
                    assert(all_found(os.take(i as int))) by {
                        assert forall|j: int| 0 <= j < i implies route_found(#[trigger] os.take(i as int)[j]) by {
                            assert(os.take(i as int)[j] == take_next[j]);
                        }
                    }
                    assert(route_found(take_next[i as int]));
                }
            }
        }
        i = i + 1;
    }
    proof {
        assert(os.skip(i as int).len() == 0);
        assert(os.take(i as int) =~= os);
    }
    if !ok || paths.len() == 0 {
        state.valid = false;
        state.invalid_nodes = not_ok;
        return;
    }
    state.paths = paths;
    state.valid = true;
}


/// The road segment that `roads` holds for entity `e` (the first entry for
/// it), if any.
pub open spec fn road_of_entity(roads: Seq<(EntityId, RoadSegment)>, e: EntityId) -> Option<RoadSegment>
    decreases roads.len(),
{
    if roads.len() == 0 {
        None
    } else if roads[0].0 == e {
        Some(roads[0].1)
    } else {
        road_of_entity(roads.drop_first(), e)
    }
}

pub(crate) fn find_road(roads: &Vec<(EntityId, RoadSegment)>, e: EntityId) -> (r: Option<RoadSegment>)
    ensures
        r == road_of_entity(roads@, e),
{
    let mut i: usize = 0;
    assert(roads@.skip(0) =~= roads@);
    while i < roads.len()
        invariant
            i <= roads.len(),
            road_of_entity(roads@, e) == road_of_entity(roads@.skip(i as int), e),
        decreases roads.len() - i,
    {
        assert(roads@.skip(i as int).drop_first() =~= roads@.skip(i + 1));
        if roads[i].0 == e {
            return Some(roads[i].1);
        }
        i = i + 1;
    }
    assert(roads@.skip(i as int).len() == 0);
    None
}

/// The entities along a path of graph nodes (nodes the graph does not hold
/// are skipped), each with its road segment when it is one.
pub open spec fn path_entities(
    nodes: Map<u32, EntityId>,
    roads: Seq<(EntityId, RoadSegment)>,
    p: Seq<u32>,
) -> Seq<(EntityId, Option<RoadSegment>)>
    decreases p.len(),
{
    if p.len() == 0 {
        Seq::empty()
    } else {
        let init = path_entities(nodes, roads, p.drop_last());
        if nodes.dom().contains(p.last()) {
            let e = nodes[p.last()];
            init.push((e, road_of_entity(roads, e)))
        } else {
            init
        }
    }
}

/// What the search finds for one request: its flavor, the entity of the
/// terminus it starts from, and the route from that terminus along the
/// cheapest path through the graph, if the graph joins the two termini.
pub open spec fn request_outcome(
    g: RawGraph,
    nodes: Map<u32, EntityId>,
    ts: Seq<Terminus>,
    entities: Seq<EntityId>,
    term_nodes: Seq<u32>,
    roads: Seq<(EntityId, RoadSegment)>,
    q: PathRequest,
) -> (PixieFlavor, EntityId, Option<Seq<RoadSegment>>) {
    (
        q.flavor,
        entities[q.from as int],
        match astar_path(g, term_nodes[q.from as int], term_nodes[q.to as int]) {
            Some((_, p)) => Some(world_path_spec(ts[q.from as int].point, path_entities(nodes, roads, p))),
            None => None,
        },
    )
}

proof fn lemma_shared_bounds(emits: Seq<PixieFlavor>, collects: Seq<PixieFlavor>, from: int, to: int)
    ensures
        forall|i: int|
            0 <= i < shared_flavors(emits, collects, from, to).len() ==> (#[trigger] shared_flavors(
                emits,
                collects,
                from,
                to,
            )[i]).from == from as usize && shared_flavors(emits, collects, from, to)[i].to == to as usize,
    decreases emits.len(),
{
    if emits.len() > 0 {
        lemma_shared_bounds(emits.drop_last(), collects, from, to);
        let x = shared_flavors(emits.drop_last(), collects, from, to);
        let all = shared_flavors(emits, collects, from, to);
        assert forall|i: int| 0 <= i < all.len() implies (#[trigger] all[i]).from == from as usize && all[i].to
            == to as usize by {
            if i < x.len() {
                assert(all[i] == x[i]);
            }
        }
    }
}

proof fn lemma_requests_from_bounds(ts: Seq<Terminus>, a: int, b: int)
    requires
        0 <= a < ts.len(),
        b <= ts.len(),
        ts.len() <= usize::MAX,
    ensures
        forall|i: int|
            0 <= i < requests_from(ts, a, b).len() ==> (#[trigger] requests_from(ts, a, b)[i]).from == a
                && requests_from(ts, a, b)[i].to < ts.len(),
    decreases b,
{
    if b > 0 {
        lemma_requests_from_bounds(ts, a, b - 1);
        lemma_shared_bounds(ts[a].emits@, ts[b - 1].collects@, a, b - 1);
        let x = requests_from(ts, a, b - 1);
        let y = shared_flavors(ts[a].emits@, ts[b - 1].collects@, a, b - 1);
        assert forall|i: int| 0 <= i < requests_from(ts, a, b).len() implies (#[trigger] requests_from(ts, a, b)[i]).from == a
            && requests_from(ts, a, b)[i].to < ts.len() by {
            if i < x.len() {
                assert(requests_from(ts, a, b)[i] == x[i]);
            } else {
                assert(requests_from(ts, a, b)[i] == y[i - x.len()]);
            }
        }
    }
}

proof fn lemma_requests_upto_bounds(ts: Seq<Terminus>, a: int)
    requires
        a <= ts.len(),
        ts.len() <= usize::MAX,
    ensures
        forall|i: int|
            0 <= i < requests_upto(ts, a).len() ==> (#[trigger] requests_upto(ts, a)[i]).from < ts.len()
                && requests_upto(ts, a)[i].to < ts.len(),
    decreases a,
{
    if a > 0 {
        lemma_requests_upto_bounds(ts, a - 1);
        lemma_requests_from_bounds(ts, a - 1, ts.len() as int);
        let x = requests_upto(ts, a - 1);
        let y = requests_from(ts, a - 1, ts.len() as int);
        assert forall|i: int| 0 <= i < requests_upto(ts, a).len() implies (#[trigger] requests_upto(ts, a)[i]).from < ts.len()
            && requests_upto(ts, a)[i].to < ts.len() by {
            if i < x.len() {
                assert(requests_upto(ts, a)[i] == x[i]);
            } else {
                assert(requests_upto(ts, a)[i] == y[i - x.len()]);
            }
        }
    }
}

/// The entities along the path `p`, each with its road segment when it is one.
fn entities_along(graph: &RoadGraph, roads: &Vec<(EntityId, RoadSegment)>, p: &Vec<u32>) -> (r: Vec<(EntityId, Option<RoadSegment>)>)
    ensures
        r@ == path_entities(graph@.nodes, roads@, p@),
{
    let mut r: Vec<(EntityId, Option<RoadSegment>)> = Vec::new();
    let mut i: usize = 0;
    while i < p.len()
        invariant
            i <= p.len(),
            r@ == path_entities(graph@.nodes, roads@, p@.take(i as int)),
        decreases p.len() - i,
    {
        let ghost t = p@.take(i + 1);
        assert(t.drop_last() =~= p@.take(i as int));
        match graph.entity(p[i]) {
            Some(e) => {
                let seg = find_road(roads, e);
                r.push((e, seg));
            },
            None => {},
        }
        i = i + 1;
    }
    assert(p@.take(p@.len() as int) =~= p@);
    r
}

/// The search for request `q` finds a cheapest walk through the graph
/// between the nodes of its two termini, or there is no walk between them.
pub open spec fn search_is_cheapest(graph: &RoadGraph, term_nodes: Seq<u32>, q: PathRequest) -> bool {
    let start = term_nodes[q.from as int];
    let goal = term_nodes[q.to as int];
    match astar_path(graph.graph, start, goal) {
        Some((c, p)) => cheapest_walk(graph@.edges, start, goal, c, p),
        None => no_walk(graph@.edges, start, goal),
    }
}

/// Searches the road graph for every request of the level: for each pair of
/// termini (the `i`-th at graph node `term_nodes[i]`, of entity
/// `entities[i]`) and each flavor that the first emits and the second
/// collects, the cheapest path between their nodes, as the route pixies
/// follow. `roads` gives the segment of each road segment entity.
pub fn find_paths(
    graph: &RoadGraph,
    terminuses: &Vec<Terminus>,
    entities: &Vec<EntityId>,
    term_nodes: &Vec<u32>,
    roads: &Vec<(EntityId, RoadSegment)>,
) -> (r: Vec<PathOutcome>)
    requires
        graph@.wf(),
        entities@.len() == terminuses@.len(),
        term_nodes@.len() == terminuses@.len(),
    ensures
        r@.map_values(|o: PathOutcome| outcome_view(o)) == requests_upto(terminuses@, terminuses@.len() as int).map_values(
            |q: PathRequest| request_outcome(graph.graph, graph@.nodes, terminuses@, entities@, term_nodes@, roads@, q),
        ),
        forall|j: int| 0 <= j < r@.len() ==> search_is_cheapest(graph, term_nodes@, #[trigger] requests_upto(terminuses@, terminuses@.len() as int)[j]),
{
    let requests = path_requests(terminuses);
    let count = terminuses.len();
    let ghost reqs = requests_upto(terminuses@, terminuses@.len() as int);
    proof {
        lemma_requests_upto_bounds(terminuses@, terminuses@.len() as int);
    }
    let mut r: Vec<PathOutcome> = Vec::new();
    let mut i: usize = 0;
    while i < requests.len()
        invariant
            i <= requests.len(),
            requests@ == reqs,
            graph@.wf(),
            entities@.len() == terminuses@.len(),
            term_nodes@.len() == terminuses@.len(),
            forall|j: int| 0 <= j < reqs.len() ==> (#[trigger] reqs[j]).from < terminuses@.len() && reqs[j].to < terminuses@.len(),
            r@.len() == i,
            forall|j: int| 0 <= j < i ==> search_is_cheapest(graph, term_nodes@, #[trigger] reqs[j]),
            forall|j: int| 0 <= j < i ==> outcome_view(#[trigger] r@[j]) == request_outcome(
                graph.graph,
                graph@.nodes,
                terminuses@,
                entities@,
                term_nodes@,
                roads@,
                reqs[j],
            ),
        decreases requests.len() - i,
    {
        let q = requests[i];
        assert(q == reqs[i as int]);
        let start = term_nodes[q.from];
        let goal = term_nodes[q.to];
        let route = match graph.shortest_path(start, goal) {
            Some((_, p)) => {
                let along = entities_along(graph, roads, &p);
                Some(world_path(terminuses[q.from].point, &along))
            },
            None => None,
        };
        r.push((q.flavor, entities[q.from], route));
        i = i + 1;
    }
    assert(r@.map_values(|o: PathOutcome| outcome_view(o)) =~= reqs.map_values(
        |q: PathRequest| request_outcome(graph.graph, graph@.nodes, terminuses@, entities@, term_nodes@, roads@, q),
    ));
    r
}

} // verus!

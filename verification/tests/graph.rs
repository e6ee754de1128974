use pixie_wrangler::commit::{plan_commit, EntityInfo, GraphOp, NodeRef};
use pixie_wrangler::geom::{Point, RoadSegment};
use pixie_wrangler::graph::{segment_weight, GraphFault, RoadGraph};
use pixie_wrangler::level::{PixieFlavor, Terminus};
use pixie_wrangler::net_ripping::{pick_net, rip_net, NetRippingState};
use pixie_wrangler::network::{apply_plan, lay_solution, reset_graph};
use pixie_wrangler::pathfinding::{find_paths, update_pathfinding, PathfindingState};
use pixie_wrangler::road_drawing::{
    drawing_mouse_click, drawing_mouse_movement, finish_commit, ClickOutcome, Collider,
    ColliderEntry, RoadDrawingState,
};
use pixie_wrangler::sim::SimulationState;

fn pt(x: i32, y: i32) -> Point {
    Point::new(x, y)
}

fn seg(a: Point, b: Point, layer: u32) -> RoadSegment {
    RoadSegment { points: (a, b), layer }
}

#[test]
fn segment_weights_are_octile_lengths() {
    assert_eq!(segment_weight(seg(pt(0, 0), pt(10, 0), 1)), 10_000);
    assert_eq!(segment_weight(seg(pt(0, 0), pt(0, -7), 1)), 7_000);
    assert_eq!(segment_weight(seg(pt(0, 0), pt(10, 10), 1)), 14_140);
    assert_eq!(segment_weight(seg(pt(5, 5), pt(-5, -5), 2)), 14_140);
    assert_eq!(segment_weight(seg(pt(0, 0), pt(3, 1), 1)), 3_414);
    assert_eq!(
        segment_weight(seg(pt(i32::MIN, 0), pt(i32::MAX, 0), 1)),
        0xffff_ffff
    );
}

#[test]
fn nodes_edges_and_removal() {
    let mut g = RoadGraph::new();
    let a = g.add_node(1).unwrap();
    let b = g.add_node(2).unwrap();
    assert_ne!(a, b);
    assert_eq!(g.entity(a), Some(1));
    assert_eq!(g.entity(b), Some(2));
    assert!(g.neighbors(a).is_empty());
    g.add_edge(a, b, 0).unwrap();
    assert_eq!(g.neighbors(a), vec![b]);
    assert_eq!(g.neighbors(b), vec![a]);
    assert_eq!(g.add_edge(a, 99, 0), Err(GraphFault::MissingNode));
    assert_eq!(g.remove_node(a), Some(1));
    assert_eq!(g.remove_node(a), None);
    assert!(!g.contains(a));
    assert!(g.neighbors(b).is_empty());
    g.clear();
    assert!(!g.contains(b));
}

#[test]
fn shortest_path_prefers_the_cheaper_way() {
    let mut g = RoadGraph::new();
    let a = g.add_node(1).unwrap();
    let b = g.add_node(2).unwrap();
    let (s1, e1) = g.add_segment(10, seg(pt(0, 0), pt(10, 10), 1)).unwrap();
    let (s2, e2) = g.add_segment(11, seg(pt(0, 0), pt(10, 0), 1)).unwrap();
    let (s3, e3) = g.add_segment(12, seg(pt(10, 0), pt(10, 10), 1)).unwrap();
    assert_eq!(g.entity(s1), Some(10));
    assert_eq!(g.entity(e1), Some(10));
    g.add_edge(a, s1, 0).unwrap();
    g.add_edge(e1, b, 0).unwrap();
    g.add_edge(a, s2, 0).unwrap();
    g.add_edge(e2, s3, 0).unwrap();
    g.add_edge(e3, b, 0).unwrap();
    // the diagonal (14140) is cheaper than the two straight pieces (20000)
    let (cost, path) = g.shortest_path(a, b).unwrap();
    assert_eq!(cost, 14_140);
    assert_eq!(path, vec![a, s1, e1, b]);
    g.remove_node(s1);
    let (cost, path) = g.shortest_path(a, b).unwrap();
    assert_eq!(cost, 20_000);
    assert_eq!(path, vec![a, s2, e2, s3, e3, b]);
    g.remove_node(e2);
    assert_eq!(g.shortest_path(a, b), None);
    assert_eq!(g.shortest_path(a, a), Some((0, vec![a])));
}

#[test]
fn walk_reaches_the_whole_net() {
    let mut g = RoadGraph::new();
    let (s1, e1) = g.add_segment(10, seg(pt(0, 0), pt(10, 0), 1)).unwrap();
    let (s2, e2) = g.add_segment(11, seg(pt(10, 0), pt(20, 0), 1)).unwrap();
    let (s3, _e3) = g.add_segment(12, seg(pt(50, 0), pt(60, 0), 1)).unwrap();
    g.add_edge(e1, s2, 0).unwrap();
    let mut walked = g.walk_from(s1);
    // post-order: the start comes last
    assert_eq!(*walked.last().unwrap(), s1);
    walked.sort();
    let mut expected = vec![s1, e1, s2, e2];
    expected.sort();
    assert_eq!(walked, expected);
    assert_eq!(g.walk_from(s3).len(), 2);
}

fn flavor() -> PixieFlavor {
    PixieFlavor { color: 1, net: 0 }
}

/// Two termini, A at (0, 0) emitting and B at (40, 20) collecting; the road
/// is drawn from A to B and laid down.
#[test]
fn draw_lay_and_find_a_route() {
    let mut g = RoadGraph::new();
    let term_ents = vec![1u64, 2u64];
    let term_nodes = reset_graph(&mut g, &term_ents).unwrap();
    let terminuses = vec![
        Terminus { point: pt(0, 0), emits: vec![flavor()], collects: vec![] },
        Terminus { point: pt(40, 20), emits: vec![], collects: vec![flavor()] },
    ];
    let colliders = vec![
        ColliderEntry { parent: 1, collider: Collider::Point(pt(0, 0)), layer: 0 },
        ColliderEntry { parent: 2, collider: Collider::Point(pt(40, 20)), layer: 0 },
    ];

    // nothing joins the termini yet
    let outcomes = find_paths(&g, &terminuses, &term_ents, &term_nodes, &vec![]);
    assert_eq!(outcomes.len(), 1);
    assert!(outcomes[0].2.is_none());

    let mut road = RoadDrawingState::default();
    road.valid = true;
    let click = drawing_mouse_click(&mut road, pt(0, 0), true, true, SimulationState::NotStarted, true);
    assert_eq!(click, ClickOutcome::Ignored);
    assert!(road.drawing);
    drawing_mouse_movement(&mut road, SimulationState::NotStarted, pt(40, 20), true, false, &colliders);
    assert!(road.valid);
    assert!(road.stop);
    assert_eq!(road.segments, vec![(pt(0, 0), pt(20, 20)), (pt(20, 20), pt(40, 20))]);
    assert_eq!(road.adds.len(), 2);
    let click = drawing_mouse_click(&mut road, pt(40, 20), true, true, SimulationState::NotStarted, true);
    assert_eq!(click, ClickOutcome::Commit);

    let infos = vec![(1u64, EntityInfo::Terminus(term_nodes[0])), (2u64, EntityInfo::Terminus(term_nodes[1]))];
    let ops = plan_commit(&road.adds, &infos, road.layer);
    let spawned_segments: Vec<RoadSegment> = ops
        .iter()
        .filter_map(|op| match op {
            GraphOp::Spawn(s) => Some(*s),
            _ => None,
        })
        .collect();
    assert_eq!(spawned_segments.len(), 2);
    let ents = vec![100u64, 101u64];
    let sp = apply_plan(&mut g, &ops, &infos, &ents).unwrap();
    assert_eq!(sp.len(), 2);
    finish_commit(&mut road);
    assert!(!road.drawing);
    assert_eq!(road.start, pt(40, 20));

    let roads: Vec<(u64, RoadSegment)> = ents.iter().copied().zip(spawned_segments.iter().copied()).collect();
    let outcomes = find_paths(&g, &terminuses, &term_ents, &term_nodes, &roads);
    assert_eq!(outcomes.len(), 1);
    assert_eq!(outcomes[0].1, 1);
    let route = outcomes[0].2.as_ref().unwrap();
    assert_eq!(route.len(), 2);
    assert_eq!(route[0].points, (pt(0, 0), pt(20, 20)));
    assert_eq!(route[1].points, (pt(20, 20), pt(40, 20)));

    let mut state = PathfindingState::default();
    update_pathfinding(&mut state, outcomes);
    assert!(state.valid);
    assert_eq!(state.paths.len(), 1);

    // the net ripping tool picks both segments and removes them
    let mut ripping = NetRippingState::new();
    pick_net(&mut ripping, &g, sp[0].0, &roads);
    let mut picked: Vec<u64> = ripping.entities.iter().copied().collect();
    picked.sort();
    assert_eq!(picked, vec![100, 101]);
    assert_eq!(ripping.segments.len(), 2);
    assert_eq!(ripping.nodes.len(), 4);
    let removed = rip_net(&mut ripping, &mut g);
    assert_eq!(removed.len(), 2);
    assert!(removed.contains(&100) && removed.contains(&101));
    assert!(ripping.entities.is_empty());
    assert!(!g.contains(sp[0].0) && !g.contains(sp[1].1));
    assert!(g.contains(term_nodes[0]) && g.contains(term_nodes[1]));
    let outcomes = find_paths(&g, &terminuses, &term_ents, &term_nodes, &roads);
    assert!(outcomes[0].2.is_none());
    let mut state = PathfindingState::default();
    update_pathfinding(&mut state, outcomes);
    assert!(!state.valid);
    assert_eq!(state.invalid_nodes, vec![1]);
}

/// A road drawn to the middle of an existing road splits it in two, and the
/// network stays joined without a shortcut across the split road.
#[test]
fn splitting_keeps_the_network_honest() {
    let mut g = RoadGraph::new();
    let term_ents = vec![1u64, 2u64, 3u64];
    let term_nodes = reset_graph(&mut g, &term_ents).unwrap();
    let a = pt(0, 0);
    let b = pt(40, 0);
    let c = pt(20, 20);
    // an existing road from A to B
    let (s, e) = g.add_segment(50, seg(a, b, 1)).unwrap();
    g.add_edge(s, term_nodes[0], 0).unwrap();
    g.add_edge(e, term_nodes[1], 0).unwrap();
    let colliders = vec![
        ColliderEntry { parent: 1, collider: Collider::Point(a), layer: 0 },
        ColliderEntry { parent: 2, collider: Collider::Point(b), layer: 0 },
        ColliderEntry { parent: 3, collider: Collider::Point(c), layer: 0 },
        ColliderEntry { parent: 50, collider: Collider::Segment((a, b)), layer: 1 },
    ];
    // draw from C straight down to the middle of the road
    let mut road = RoadDrawingState::default();
    road.valid = true;
    drawing_mouse_click(&mut road, c, true, true, SimulationState::NotStarted, true);
    drawing_mouse_movement(&mut road, SimulationState::NotStarted, pt(20, 0), true, false, &colliders);
    assert!(road.valid);
    assert_eq!(road.adds.len(), 1);
    let infos = vec![
        (1u64, EntityInfo::Terminus(term_nodes[0])),
        (2u64, EntityInfo::Terminus(term_nodes[1])),
        (3u64, EntityInfo::Terminus(term_nodes[2])),
        (50u64, EntityInfo::Road(seg(a, b, 1), (s, e))),
    ];
    let ops = plan_commit(&road.adds, &infos, road.layer);
    let spawns: Vec<RoadSegment> = ops
        .iter()
        .filter_map(|op| match op {
            GraphOp::Spawn(x) => Some(*x),
            _ => None,
        })
        .collect();
    // the new road, then the two halves of the split road
    assert_eq!(spawns.len(), 3);
    assert_eq!(spawns[1].points, (a, pt(20, 0)));
    assert_eq!(spawns[2].points, (pt(20, 0), b));
    assert!(ops.iter().any(|op| matches!(op, GraphOp::Remove(50))));
    let ents = vec![60u64, 61, 62];
    let sp = apply_plan(&mut g, &ops, &infos, &ents).unwrap();
    assert!(!g.contains(s) && !g.contains(e));
    // from A to B the way is the two halves: 40 units
    let (cost, _) = g.shortest_path(term_nodes[0], term_nodes[1]).unwrap();
    assert_eq!(cost, 40_000);
    // C reaches both
    assert_eq!(g.shortest_path(term_nodes[2], term_nodes[0]).unwrap().0, 40_000);
    assert_eq!(g.shortest_path(term_nodes[2], term_nodes[1]).unwrap().0, 40_000);
    // the new road's end joins the middle of the split road
    assert!(g.neighbors(sp[0].1).contains(&sp[1].1));
    assert!(g.neighbors(sp[0].1).contains(&sp[2].0));
}

#[test]
fn a_saved_solution_is_laid_down_again() {
    let mut g = RoadGraph::new();
    let term_ents = vec![1u64, 2u64];
    let term_nodes = reset_graph(&mut g, &term_ents).unwrap();
    let points = vec![pt(0, 0), pt(20, 0)];
    let segments = vec![seg(pt(0, 0), pt(10, 0), 1), seg(pt(10, 0), pt(20, 0), 1)];
    let sp = lay_solution(&mut g, &points, &term_nodes, &segments, &vec![7, 8]).unwrap();
    assert_eq!(sp.len(), 2);
    assert_eq!(g.entity(sp[1].0), Some(8));
    let (cost, path) = g.shortest_path(term_nodes[0], term_nodes[1]).unwrap();
    assert_eq!(cost, 20_000);
    assert_eq!(path, vec![term_nodes[0], sp[0].0, sp[0].1, sp[1].0, sp[1].1, term_nodes[1]]);
    assert_eq!(
        lay_solution(&mut g, &points, &term_nodes, &segments, &vec![9]),
        Err(GraphFault::MissingEntity)
    );
}

#[test]
fn a_plan_fails_only_where_a_node_or_entity_is_missing() {
    let mut g = RoadGraph::new();
    let term_nodes = reset_graph(&mut g, &vec![1u64, 2u64]).unwrap();
    assert_eq!(term_nodes.len(), 2);
    assert_eq!(g.entity(term_nodes[0]), Some(1));
    assert_eq!(g.entity(term_nodes[1]), Some(2));
    let seg = RoadSegment { points: (pt(0, 0), pt(20, 0)), layer: 1 };
    let infos = vec![(1u64, EntityInfo::Terminus(term_nodes[0]))];
    // joining to a terminus that the plan does not know of fails
    let ops = vec![
        GraphOp::Spawn(seg),
        GraphOp::Connect(NodeRef::Terminus(1), NodeRef::SpawnedStart(0)),
        GraphOp::Connect(NodeRef::Terminus(2), NodeRef::SpawnedEnd(0)),
    ];
    assert_eq!(apply_plan(&mut g, &ops, &infos, &vec![10]), Err(GraphFault::MissingNode));
    // a segment to spawn with no entity for it fails
    let mut g = RoadGraph::new();
    let term_nodes = reset_graph(&mut g, &vec![1u64]).unwrap();
    let infos = vec![(1u64, EntityInfo::Terminus(term_nodes[0]))];
    assert_eq!(apply_plan(&mut g, &ops[..2].to_vec(), &infos, &vec![]), Err(GraphFault::MissingEntity));
    // with both, the plan is carried out
    let sp = apply_plan(&mut g, &ops[..2].to_vec(), &infos, &vec![10]).unwrap();
    assert_eq!(sp.len(), 1);
    assert_eq!(g.entity(sp[0].0), Some(10));
    assert_eq!(g.entity(sp[0].1), Some(10));
    assert!(g.neighbors(term_nodes[0]).contains(&sp[0].0));
}

#[test]
fn ripping_picks_only_the_reachable_net() {
    let mut g = RoadGraph::new();
    let s1 = RoadSegment { points: (pt(0, 0), pt(10, 0)), layer: 1 };
    let s2 = RoadSegment { points: (pt(10, 0), pt(20, 0)), layer: 1 };
    let s3 = RoadSegment { points: (pt(0, 50), pt(10, 50)), layer: 1 };
    let (a0, a1) = g.add_segment(1, s1).unwrap();
    let (b0, _) = g.add_segment(2, s2).unwrap();
    let (c0, _) = g.add_segment(3, s3).unwrap();
    g.add_edge(a1, b0, 0).unwrap();
    let roads = vec![(1u64, s1), (2u64, s2), (3u64, s3)];
    let mut ripping = NetRippingState::new();
    pick_net(&mut ripping, &g, a0, &roads);
    let mut picked: Vec<u64> = ripping.entities.iter().copied().collect();
    picked.sort();
    assert_eq!(picked, vec![1, 2]);
    assert!(!ripping.nodes.contains(&c0));
    assert_eq!(g.walk_from(c0).len(), 2);
}

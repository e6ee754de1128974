use pixie_wrangler::geom::{Point, RoadSegment};
use pixie_wrangler::level::PixieFlavor;
use pixie_wrangler::pathfinding::{
    plan_emitters, update_pathfinding, world_path, EmitterPlan, PathfindingState, TOTAL_PIXIES,
};

fn pt(x: i32, y: i32) -> Point {
    Point::new(x, y)
}

fn seg(a: Point, b: Point, layer: u32) -> RoadSegment {
    RoadSegment { points: (a, b), layer }
}

#[test]
fn world_path_drops_repeats_and_turns_segments() {
    let s1 = seg(pt(10, 0), pt(0, 0), 1);
    let s2 = seg(pt(10, 0), pt(20, 10), 2);
    let s3 = seg(pt(30, 10), pt(20, 10), 1);
    let nodes = vec![
        (1, None),
        (10, Some(s1)),
        (10, Some(s1)),
        (11, Some(s2)),
        (11, Some(s2)),
        (12, Some(s3)),
        (12, Some(s3)),
        (2, None),
    ];
    let path = world_path(pt(0, 0), &nodes);
    assert_eq!(path.len(), 3);
    assert_eq!(path[0].points, (pt(0, 0), pt(10, 0)));
    assert_eq!(path[0].layer, 1);
    assert_eq!(path[1].points, (pt(10, 0), pt(20, 10)));
    assert_eq!(path[1].layer, 2);
    assert_eq!(path[2].points, (pt(20, 10), pt(30, 10)));
    // every segment starts where the one before it ends
    for i in 1..path.len() {
        assert_eq!(path[i].points.0, path[i - 1].points.1);
    }
    assert!(world_path(pt(0, 0), &vec![(1, None), (2, None)]).is_empty());
}

#[test]
fn emitters_share_their_terminus() {
    let plans = plan_emitters(&vec![5, 5, 6, 5]);
    assert_eq!(
        plans,
        vec![
            EmitterPlan { pixies: 16, group_size: 3, group_index: 0 },
            EmitterPlan { pixies: 16, group_size: 3, group_index: 1 },
            EmitterPlan { pixies: 50, group_size: 1, group_index: 0 },
            EmitterPlan { pixies: 16, group_size: 3, group_index: 2 },
        ]
    );
    assert_eq!(TOTAL_PIXIES, 50);
    assert!(plan_emitters(&vec![]).is_empty());
    let two = plan_emitters(&vec![9, 9]);
    assert_eq!(two[0].pixies, 25);
    assert_ne!(two[0].group_index, two[1].group_index);
}

fn flavor(color: u32) -> PixieFlavor {
    PixieFlavor { color, net: 0 }
}

#[test]
fn all_routes_found_makes_it_valid() {
    let mut state = PathfindingState::default();
    assert!(!state.valid);
    let route = vec![seg(pt(0, 0), pt(10, 0), 1)];
    update_pathfinding(
        &mut state,
        vec![(flavor(1), 1, Some(route.clone())), (flavor(2), 3, Some(route.clone()))],
    );
    assert!(state.valid);
    assert_eq!(state.paths.len(), 2);
    assert_eq!(state.paths[1].0, flavor(2));
    assert_eq!(state.paths[1].1, 3);
}

#[test]
fn a_missing_route_flags_its_terminus() {
    let mut state = PathfindingState::default();
    let route = vec![seg(pt(0, 0), pt(10, 0), 1)];
    update_pathfinding(
        &mut state,
        vec![
            (flavor(1), 1, Some(route.clone())),
            (flavor(2), 3, None),
            (flavor(3), 4, Some(vec![])),
            (flavor(4), 5, None),
        ],
    );
    assert!(!state.valid);
    assert_eq!(state.invalid_nodes, vec![3, 5]);
    assert!(state.paths.is_empty());
    // no requests at all: nothing to release
    let mut empty = PathfindingState::default();
    update_pathfinding(&mut empty, vec![]);
    assert!(!empty.valid);
    assert!(empty.invalid_nodes.is_empty());
}

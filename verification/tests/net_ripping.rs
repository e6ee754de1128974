use pixie_wrangler::geom::Point;
use pixie_wrangler::net_ripping::{
    collect_net, net_ripping_click, net_ripping_mouse_movement, ripping_target, NetRippingState,
};
use pixie_wrangler::road_drawing::{Collider, ColliderEntry};
use pixie_wrangler::sim::SimulationState;

fn pt(x: i32, y: i32) -> Point {
    Point::new(x, y)
}

fn road(parent: u64, a: Point, b: Point, layer: u32) -> (ColliderEntry, bool) {
    (ColliderEntry { parent, collider: Collider::Segment((a, b)), layer }, true)
}

#[test]
fn the_top_most_road_under_the_mouse_is_picked() {
    let colliders = vec![
        road(10, pt(0, 0), pt(20, 0), 2),
        road(11, pt(10, -10), pt(10, 10), 1),
        road(12, pt(0, 10), pt(20, -10), 1),
        (ColliderEntry { parent: 13, collider: Collider::Segment((pt(10, -5), pt(10, 5))), layer: 0 }, false),
        (ColliderEntry { parent: 14, collider: Collider::Point(pt(10, 0)), layer: 0 }, true),
    ];
    assert_eq!(ripping_target(&colliders, pt(10, 0)), Some(1));
    assert_eq!(ripping_target(&colliders, pt(15, 0)), Some(0));
    assert_eq!(ripping_target(&colliders, pt(50, 50)), None);
}

#[test]
fn mouse_movement_forgets_and_repicks() {
    let colliders = vec![road(10, pt(0, 0), pt(20, 0), 1)];
    let mut state = NetRippingState::new();
    state.entities.insert(3);
    state.nodes.push(4);
    let r = net_ripping_mouse_movement(&mut state, true, SimulationState::NotStarted, true, pt(5, 0), &colliders);
    assert_eq!(r, Some(10));
    assert!(state.entities.is_empty() && state.nodes.is_empty() && state.segments.is_empty());
    state.entities.insert(3);
    let r = net_ripping_mouse_movement(&mut state, false, SimulationState::NotStarted, true, pt(5, 0), &colliders);
    assert_eq!(r, None);
    assert!(state.entities.len() == 1 && state.entities.contains(&3));
    let r = net_ripping_mouse_movement(&mut state, true, SimulationState::Running, true, pt(5, 0), &colliders);
    assert_eq!(r, None);
    let r = net_ripping_mouse_movement(&mut state, true, SimulationState::NotStarted, true, pt(5, 5), &colliders);
    assert_eq!(r, None);
    assert!(state.entities.is_empty());
}

#[test]
fn collecting_holds_each_segment_once() {
    let a = (pt(0, 0), pt(10, 0));
    let b = (pt(10, 0), pt(20, 0));
    let visits = vec![(0, Some((10, a))), (5, None), (1, Some((10, a))), (2, Some((11, b))), (3, Some((11, b)))];
    let mut state = NetRippingState::default();
    collect_net(&mut state, &visits);
    let mut picked: Vec<u64> = state.entities.iter().copied().collect();
    picked.sort();
    assert_eq!(picked, vec![10, 11]);
    assert_eq!(state.segments, vec![a, b]);
    assert_eq!(state.nodes, vec![0, 1, 2, 3]);
    state.reset();
    assert!(state.entities.is_empty() && state.nodes.is_empty() && state.segments.is_empty());
}

#[test]
fn clicks_rip_only_with_the_tool_before_running() {
    assert!(net_ripping_click(true, SimulationState::NotStarted, true));
    assert!(!net_ripping_click(false, SimulationState::NotStarted, true));
    assert!(!net_ripping_click(true, SimulationState::Running, true));
    assert!(!net_ripping_click(true, SimulationState::NotStarted, false));
}

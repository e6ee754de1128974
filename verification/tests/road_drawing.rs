use pixie_wrangler::geom::Point;
use pixie_wrangler::lines::Axis;
use pixie_wrangler::road_drawing::{
    drawing_mouse_click, drawing_mouse_movement, evaluate_route, evaluate_segment, extended_points,
    finish_commit, not_drawing_mouse_movement, valid_extension, ClickOutcome, Collider,
    ColliderEntry, RoadDrawingState, SegmentConnection,
};
use pixie_wrangler::sim::SimulationState;

fn pt(x: i32, y: i32) -> Point {
    Point::new(x, y)
}

fn terminus(parent: u64, p: Point) -> ColliderEntry {
    ColliderEntry { parent, collider: Collider::Point(p), layer: 0 }
}

fn segment(parent: u64, a: Point, b: Point, layer: u32) -> ColliderEntry {
    ColliderEntry { parent, collider: Collider::Segment((a, b)), layer }
}

fn drawing_from(start: Point) -> RoadDrawingState {
    let mut s = RoadDrawingState::default();
    s.drawing = true;
    s.start = start;
    s.end = start;
    s.valid = true;
    s
}

#[test]
fn default_state() {
    let s = RoadDrawingState::default();
    assert!(!s.drawing && !s.valid && !s.stop);
    assert_eq!(s.layer, 1);
    assert_eq!(s.prev_layer, 1);
    assert!(s.segments.is_empty() && s.adds.is_empty());
    assert!(s.axis_preference.is_none());
}

#[test]
fn obstacle_blocks_every_route() {
    let colliders = vec![
        terminus(1, pt(0, 0)),
        segment(9, pt(20, -10), pt(20, 30), 0),
    ];
    let mut s = drawing_from(pt(0, 0));
    drawing_mouse_movement(&mut s, SimulationState::NotStarted, pt(40, 20), true, false, &colliders);
    assert!(!s.valid);
    assert!(s.adds.is_empty());
    // the first route is shown
    assert_eq!(s.segments, vec![(pt(0, 0), pt(20, 20)), (pt(20, 20), pt(40, 20))]);
    assert_eq!(s.end, pt(40, 20));
}

#[test]
fn second_route_is_taken_when_the_first_is_blocked() {
    // a road of the same layer crosses the diagonal of the first route only
    let colliders = vec![terminus(1, pt(0, 0)), segment(9, pt(0, 20), pt(20, 0), 1)];
    let mut s = drawing_from(pt(0, 0));
    drawing_mouse_movement(&mut s, SimulationState::NotStarted, pt(40, 20), true, false, &colliders);
    assert!(!s.valid);
    // the same road on another layer may be crossed
    let colliders = vec![terminus(1, pt(0, 0)), segment(9, pt(5, 25), pt(25, 5), 2)];
    let mut s = drawing_from(pt(0, 0));
    drawing_mouse_movement(&mut s, SimulationState::NotStarted, pt(40, 20), true, false, &colliders);
    assert!(s.valid);
    assert_eq!(s.segments, vec![(pt(0, 0), pt(20, 20)), (pt(20, 20), pt(40, 20))]);
    // one on the same layer crossing only the first route sends the road the other way
    let colliders = vec![terminus(1, pt(0, 0)), segment(9, pt(5, 25), pt(15, 5), 1)];
    let mut s = drawing_from(pt(0, 0));
    drawing_mouse_movement(&mut s, SimulationState::NotStarted, pt(40, 20), true, false, &colliders);
    assert!(s.valid);
    assert_eq!(s.segments, vec![(pt(0, 0), pt(20, 0)), (pt(20, 0), pt(40, 20))]);
    assert_eq!(s.adds.len(), 2);
    assert!(!s.stop);
}

#[test]
fn moving_in_line_sets_the_axis_preference() {
    let colliders = vec![];
    let mut s = drawing_from(pt(0, 0));
    drawing_mouse_movement(&mut s, SimulationState::NotStarted, pt(30, 0), true, false, &colliders);
    assert_eq!(s.axis_preference, Some(Axis::X));
    drawing_mouse_movement(&mut s, SimulationState::NotStarted, pt(40, 20), true, false, &colliders);
    assert_eq!(s.axis_preference, Some(Axis::X));
    assert_eq!(s.segments, vec![(pt(0, 0), pt(20, 0)), (pt(20, 0), pt(40, 20))]);
    drawing_mouse_movement(&mut s, SimulationState::NotStarted, pt(0, 10), true, false, &colliders);
    assert_eq!(s.axis_preference, Some(Axis::Y));
}

#[test]
fn movement_is_ignored_unless_drawing_and_changed() {
    let colliders = vec![];
    let mut s = drawing_from(pt(0, 0));
    drawing_mouse_movement(&mut s, SimulationState::Running, pt(30, 0), true, false, &colliders);
    assert_eq!(s.end, pt(0, 0));
    drawing_mouse_movement(&mut s, SimulationState::NotStarted, pt(30, 0), false, false, &colliders);
    assert_eq!(s.end, pt(0, 0));
    s.drawing = false;
    drawing_mouse_movement(&mut s, SimulationState::NotStarted, pt(30, 0), true, false, &colliders);
    assert_eq!(s.end, pt(0, 0));
}

#[test]
fn connections_of_a_segment() {
    // a segment from a terminus to the middle of a road, and past the end of another
    let colliders = vec![
        terminus(1, pt(0, 0)),
        segment(5, pt(10, -10), pt(10, 10), 1),
        segment(6, pt(10, 0), pt(20, 0), 1),
    ];
    let (add, stop) = evaluate_segment(0, pt(0, 0), pt(10, 0), &colliders, pt(0, 0), pt(10, 0), 1).unwrap();
    assert!(!stop);
    assert_eq!(add.points, (pt(0, 0), pt(10, 0)));
    assert_eq!(add.connections.0, vec![SegmentConnection::Add(1)]);
    assert_eq!(
        add.connections.1,
        vec![SegmentConnection::Split(5), SegmentConnection::TryExtend(6)]
    );
    // the second segment of a route starts with the previous one
    let (add, _) = evaluate_segment(1, pt(0, 0), pt(10, 0), &colliders, pt(0, 0), pt(10, 0), 2).unwrap();
    assert_eq!(add.connections.0, vec![SegmentConnection::Previous, SegmentConnection::Add(1)]);
    // on another layer a collinear road is joined, not lengthened
    assert_eq!(
        add.connections.1,
        vec![SegmentConnection::Split(5), SegmentConnection::Add(6)]
    );
}

#[test]
fn forbidden_contacts() {
    // through a terminus
    let colliders = vec![terminus(1, pt(5, 0))];
    assert!(evaluate_segment(0, pt(0, 0), pt(10, 0), &colliders, pt(0, 0), pt(10, 0), 1).is_none());
    // touching a road away from the start and end of the drawn road
    let colliders = vec![segment(5, pt(5, 0), pt(5, 10), 1)];
    assert!(evaluate_segment(0, pt(0, 0), pt(10, 0), &colliders, pt(0, 0), pt(20, 0), 1).is_none());
    // overlapping a road
    let colliders = vec![segment(5, pt(5, 0), pt(15, 0), 2)];
    assert!(evaluate_segment(0, pt(0, 0), pt(10, 0), &colliders, pt(0, 0), pt(10, 0), 1).is_none());
    // meeting an obstacle at all
    let colliders = vec![segment(5, pt(10, 0), pt(10, 10), 0)];
    assert!(evaluate_segment(0, pt(0, 0), pt(10, 0), &colliders, pt(0, 0), pt(10, 0), 1).is_none());
    // splitting two roads of different layers at one point
    let colliders = vec![
        segment(5, pt(10, -10), pt(10, 10), 1),
        segment(6, pt(0, 10), pt(20, -10), 2),
    ];
    assert!(evaluate_segment(0, pt(0, 0), pt(10, 0), &colliders, pt(0, 0), pt(10, 0), 3).is_none());
    // a route fails as soon as one of its segments does
    let colliders = vec![terminus(1, pt(15, 0))];
    let route = vec![(pt(0, 0), pt(10, 0)), (pt(10, 0), pt(20, 0))];
    assert!(evaluate_route(&route, &colliders, pt(0, 0), pt(20, 0), 1).is_none());
    let (adds, stop) = evaluate_route(&route, &vec![terminus(2, pt(20, 0))], pt(0, 0), pt(20, 0), 1).unwrap();
    assert_eq!(adds.len(), 2);
    assert!(stop);
}

#[test]
fn starting_points_on_obstacles_are_invalid() {
    let colliders = vec![segment(5, pt(0, 0), pt(0, 40), 0), segment(6, pt(20, 0), pt(20, 40), 1)];
    let mut s = RoadDrawingState::default();
    not_drawing_mouse_movement(&mut s, true, pt(0, 20), true, &colliders);
    assert!(!s.valid);
    not_drawing_mouse_movement(&mut s, true, pt(20, 20), true, &colliders);
    assert!(s.valid);
    not_drawing_mouse_movement(&mut s, false, pt(0, 20), true, &colliders);
    assert!(s.valid);
}

#[test]
fn clicks_start_end_and_commit() {
    let mut s = RoadDrawingState::default();
    // an invalid start does nothing
    assert_eq!(drawing_mouse_click(&mut s, pt(0, 0), true, true, SimulationState::NotStarted, true), ClickOutcome::Ignored);
    assert!(!s.drawing);
    s.valid = true;
    drawing_mouse_click(&mut s, pt(10, 10), true, true, SimulationState::NotStarted, true);
    assert!(s.drawing);
    assert_eq!((s.start, s.end), (pt(10, 10), pt(10, 10)));
    // clicking where the road started ends drawing
    drawing_mouse_click(&mut s, pt(10, 10), true, true, SimulationState::NotStarted, true);
    assert!(!s.drawing);
    // outside the play area, with another tool or while running: ignored
    assert_eq!(drawing_mouse_click(&mut s, pt(0, 0), false, true, SimulationState::NotStarted, true), ClickOutcome::Ignored);
    assert_eq!(drawing_mouse_click(&mut s, pt(0, 0), true, false, SimulationState::NotStarted, true), ClickOutcome::Ignored);
    assert_eq!(drawing_mouse_click(&mut s, pt(0, 0), true, true, SimulationState::Running, true), ClickOutcome::Ignored);
    assert!(!s.drawing);
    // a valid planned road is committed
    let mut s = drawing_from(pt(0, 0));
    drawing_mouse_movement(&mut s, SimulationState::NotStarted, pt(30, 0), true, false, &vec![]);
    assert_eq!(drawing_mouse_click(&mut s, pt(30, 0), true, true, SimulationState::NotStarted, true), ClickOutcome::Commit);
    finish_commit(&mut s);
    assert!(s.drawing);
    assert_eq!(s.start, pt(30, 0));
    assert!(s.adds.is_empty() && s.segments.is_empty());
}

#[test]
fn extensions() {
    assert!(valid_extension(&vec![SegmentConnection::TryExtend(3)]));
    assert!(!valid_extension(&vec![SegmentConnection::TryExtend(3), SegmentConnection::Add(4)]));
    assert!(!valid_extension(&vec![SegmentConnection::Add(4)]));
    assert!(!valid_extension(&vec![]));
    let p = (pt(10, 0), pt(20, 0));
    assert_eq!(extended_points(p, Some((pt(0, 0), pt(10, 0))), None), (pt(0, 0), pt(20, 0)));
    assert_eq!(extended_points(p, Some((pt(10, 0), pt(0, 0))), None), (pt(0, 0), pt(20, 0)));
    assert_eq!(extended_points(p, None, Some((pt(20, 0), pt(30, 0)))), (pt(10, 0), pt(30, 0)));
    assert_eq!(extended_points(p, None, None), p);
}

#[test]
fn drawn_roads_are_octilinear_chains() {
    let colliders = vec![terminus(1, pt(0, 0)), segment(9, pt(5, 25), pt(15, 5), 1)];
    for target in [pt(40, 20), pt(-30, 10), pt(10, 50), pt(20, 20), pt(-5, -45)] {
        let mut s = drawing_from(pt(0, 0));
        drawing_mouse_movement(&mut s, SimulationState::NotStarted, target, true, false, &colliders);
        if !s.valid {
            continue;
        }
        assert!(s.segments.len() <= 2);
        assert_eq!(s.segments[0].0, pt(0, 0));
        assert_eq!(s.segments[s.segments.len() - 1].1, target);
        for (i, (a, b)) in s.segments.iter().enumerate() {
            let dx = (b.x - a.x).abs();
            let dy = (b.y - a.y).abs();
            assert!(dx == 0 || dy == 0 || dx == dy);
            if i > 0 {
                assert_eq!(s.segments[i - 1].1, *a);
            }
        }
    }
}

#[test]
fn splitting_two_roads_of_one_layer_at_one_point() {
    // both roads cross the drawn road's end at (10, 0), on the same layer
    let colliders = vec![
        segment(5, pt(10, -10), pt(10, 10), 1),
        segment(6, pt(0, 10), pt(20, -10), 1),
    ];
    let (add, _) = evaluate_segment(0, pt(0, 0), pt(10, 0), &colliders, pt(0, 0), pt(10, 0), 2).unwrap();
    assert_eq!(add.connections.1, vec![SegmentConnection::Split(5), SegmentConnection::Split(6)]);
}

use pixie_wrangler::commit::{plan_commit, solution_edges, EntityInfo, GraphOp, NodeRef};
use pixie_wrangler::geom::{Point, RoadSegment};
use pixie_wrangler::road_drawing::{AddSegment, SegmentConnection};

fn pt(x: i32, y: i32) -> Point {
    Point::new(x, y)
}

fn seg(a: Point, b: Point, layer: u32) -> RoadSegment {
    RoadSegment { points: (a, b), layer }
}

fn add(a: Point, b: Point, c0: Vec<SegmentConnection>, c1: Vec<SegmentConnection>) -> AddSegment {
    AddSegment { points: (a, b), connections: (c0, c1) }
}

fn spawned(op: &GraphOp) -> Option<((Point, Point), u32)> {
    match op {
        GraphOp::Spawn(s) => Some((s.points, s.layer)),
        _ => None,
    }
}

fn connect(op: &GraphOp) -> Option<(NodeRef, NodeRef)> {
    match op {
        GraphOp::Connect(a, b) => Some((*a, *b)),
        _ => None,
    }
}

#[test]
fn two_segments_from_terminus_to_terminus() {
    let infos = vec![(1, EntityInfo::Terminus(0)), (2, EntityInfo::Terminus(1))];
    let adds = vec![
        add(pt(0, 0), pt(20, 20), vec![SegmentConnection::Add(1)], vec![]),
        add(pt(20, 20), pt(40, 20), vec![SegmentConnection::Previous], vec![SegmentConnection::Add(2)]),
    ];
    let ops = plan_commit(&adds, &infos, 2);
    assert_eq!(ops.len(), 5);
    assert_eq!(spawned(&ops[0]), Some(((pt(0, 0), pt(20, 20)), 2)));
    assert_eq!(connect(&ops[1]), Some((NodeRef::SpawnedStart(0), NodeRef::Terminus(1))));
    assert_eq!(spawned(&ops[2]), Some(((pt(20, 20), pt(40, 20)), 2)));
    assert_eq!(connect(&ops[3]), Some((NodeRef::SpawnedStart(1), NodeRef::SpawnedEnd(0))));
    assert_eq!(connect(&ops[4]), Some((NodeRef::SpawnedEnd(1), NodeRef::Terminus(2))));
}

#[test]
fn joining_an_existing_road_by_its_end() {
    let infos = vec![(7, EntityInfo::Road(seg(pt(0, 0), pt(10, 0), 1), (4, 5)))];
    // on another layer: joined at the shared end
    let adds = vec![add(pt(10, 0), pt(10, 10), vec![SegmentConnection::Add(7)], vec![])];
    let ops = plan_commit(&adds, &infos, 2);
    assert_eq!(ops.len(), 2);
    assert_eq!(connect(&ops[1]), Some((NodeRef::SpawnedStart(0), NodeRef::RoadEnd(7))));
}

#[test]
fn lengthening_a_collinear_road() {
    let infos = vec![(8, EntityInfo::Road(seg(pt(0, 0), pt(10, 0), 1), (4, 5)))];
    let adds = vec![add(pt(10, 0), pt(20, 0), vec![SegmentConnection::TryExtend(8)], vec![])];
    let ops = plan_commit(&adds, &infos, 1);
    assert_eq!(ops.len(), 3);
    assert_eq!(spawned(&ops[0]), Some(((pt(0, 0), pt(20, 0)), 1)));
    assert!(matches!(ops[1], GraphOp::ConnectNeighbors(NodeRef::RoadStart(8), NodeRef::SpawnedStart(0))));
    assert!(matches!(ops[2], GraphOp::Remove(8)));
    // with another connection at that end it is only joined
    let adds = vec![add(
        pt(10, 0),
        pt(20, 0),
        vec![SegmentConnection::TryExtend(8), SegmentConnection::Add(9)],
        vec![],
    )];
    let ops = plan_commit(&adds, &infos, 1);
    assert_eq!(spawned(&ops[0]), Some(((pt(10, 0), pt(20, 0)), 1)));
    assert_eq!(connect(&ops[1]), Some((NodeRef::SpawnedStart(0), NodeRef::RoadEnd(8))));
    assert_eq!(ops.len(), 2);
}

#[test]
fn splitting_a_road() {
    let infos = vec![(5, EntityInfo::Road(seg(pt(10, -10), pt(10, 10), 3), (2, 3)))];
    let adds = vec![add(pt(0, 0), pt(10, 0), vec![], vec![SegmentConnection::Split(5)])];
    let ops = plan_commit(&adds, &infos, 1);
    assert_eq!(ops.len(), 8);
    assert_eq!(spawned(&ops[0]), Some(((pt(0, 0), pt(10, 0)), 1)));
    assert_eq!(spawned(&ops[1]), Some(((pt(10, -10), pt(10, 0)), 3)));
    assert_eq!(spawned(&ops[2]), Some(((pt(10, 0), pt(10, 10)), 3)));
    assert!(matches!(
        ops[3],
        GraphOp::SplitNeighbors(
            NodeRef::RoadStart(5),
            NodeRef::SpawnedStart(1),
            NodeRef::RoadEnd(5),
            NodeRef::SpawnedEnd(2)
        )
    ));
    assert_eq!(connect(&ops[4]), Some((NodeRef::SpawnedEnd(1), NodeRef::SpawnedEnd(0))));
    assert_eq!(connect(&ops[5]), Some((NodeRef::SpawnedEnd(0), NodeRef::SpawnedStart(2))));
    assert_eq!(connect(&ops[6]), Some((NodeRef::SpawnedEnd(1), NodeRef::SpawnedStart(2))));
    assert!(matches!(ops[7], GraphOp::Remove(5)));
}

#[test]
fn unknown_entities_are_skipped() {
    let adds = vec![add(pt(0, 0), pt(10, 0), vec![SegmentConnection::Add(42)], vec![SegmentConnection::TryExtend(43)])];
    let ops = plan_commit(&adds, &vec![], 1);
    assert_eq!(ops.len(), 1);
}

#[test]
fn solution_edges_join_termini_and_segments() {
    let termini = vec![pt(0, 0), pt(20, 0)];
    let segments = vec![seg(pt(0, 0), pt(10, 0), 1), seg(pt(10, 0), pt(20, 0), 1)];
    assert_eq!(solution_edges(&termini, &segments), vec![(0, 2), (1, 5), (3, 4)]);
    assert!(solution_edges(&termini, &vec![]).is_empty());
    // a segment whose both ends sit on the same earlier point joins it twice
    let loop_segments = vec![seg(pt(0, 0), pt(0, 0), 1)];
    assert_eq!(solution_edges(&vec![pt(0, 0)], &loop_segments), vec![(0, 1), (0, 2)]);
}

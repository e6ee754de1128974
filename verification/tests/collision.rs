use pixie_wrangler::collision::{
    contact_point, point_segment_collision, segment_collision, SegmentCollision,
};
use pixie_wrangler::geom::Point;

fn pt(x: i32, y: i32) -> Point {
    Point::new(x, y)
}

#[test]
fn point_seg_connecting() {
    // .--
    assert!(matches!(
        point_segment_collision(pt(0, 0), pt(0, 0), pt(1, 2)),
        SegmentCollision::Connecting
    ));
    // --.
    assert!(matches!(
        point_segment_collision(pt(1, 2), pt(0, 0), pt(1, 2)),
        SegmentCollision::Connecting
    ));
}

#[test]
fn point_seg_touching() {
    // -.-
    assert!(matches!(
        point_segment_collision(pt(0, 0), pt(-1, 0), pt(1, 0)),
        SegmentCollision::Touching
    ));
    assert!(matches!(
        point_segment_collision(pt(0, 0), pt(0, -1), pt(0, 1)),
        SegmentCollision::Touching
    ));
}

#[test]
fn point_seg_none() {
    assert!(matches!(
        point_segment_collision(pt(1, 1), pt(0, 0), pt(1, 0)),
        SegmentCollision::Disjoint
    ));
}

#[test]
fn point_seg_collinear() {
    // collinear horizontal
    assert!(matches!(
        point_segment_collision(pt(0, 0), pt(1, 0), pt(2, 0)),
        SegmentCollision::Disjoint
    ));

    // collinear vertical
    assert!(matches!(
        point_segment_collision(pt(0, 0), pt(0, 1), pt(0, 2)),
        SegmentCollision::Disjoint
    ));
}

#[test]
fn seg_seg_collinear_none() {
    // collinear non-overlapping x axis
    assert!(matches!(
        segment_collision(pt(0, 0), pt(1, 0), pt(2, 0), pt(3, 0)),
        SegmentCollision::Disjoint
    ));
    // collinear non-overlapping y axis
    assert!(matches!(
        segment_collision(pt(0, 0), pt(0, 1), pt(0, 2), pt(0, 3)),
        SegmentCollision::Disjoint
    ));
}

#[test]
fn seg_seg_intersecting() {
    // x
    assert!(matches!(
        segment_collision(pt(-1, 1), pt(1, -1), pt(1, 1), pt(-1, -1)),
        SegmentCollision::Intersecting
    ));
}

#[test]
fn seg_seg_touching() {
    // y
    assert!(matches!(
        segment_collision(pt(-1, 1), pt(1, -1), pt(1, 1), pt(0, 0)),
        SegmentCollision::Touching
    ));
}

#[test]
fn seg_seg_connecting() {
    // V
    assert!(matches!(
        segment_collision(pt(-2, 2), pt(0, 0), pt(0, 0), pt(2, 2)),
        SegmentCollision::Connecting
    ));
    // V
    assert!(matches!(
        segment_collision(pt(2, 2), pt(0, 0), pt(-2, 2), pt(0, 0)),
        SegmentCollision::Connecting
    ));
}

#[test]
fn seg_seg_parallel() {
    // =
    assert!(matches!(
        segment_collision(pt(-2, -2), pt(2, -2), pt(-2, 2), pt(2, 2)),
        SegmentCollision::Disjoint
    ));
}

#[test]
fn seg_seg_overlapping() {
    // -=-
    assert!(matches!(
        segment_collision(pt(10, 10), pt(20, 10), pt(13, 10), pt(17, 10)),
        SegmentCollision::Overlapping
    ));
}

#[test]
fn seg_seg_none() {
    // | -
    assert!(matches!(
        segment_collision(pt(-10, -10), pt(-10, 10), pt(0, 0), pt(10, 0)),
        SegmentCollision::Disjoint
    ));
    // | /
    assert!(matches!(
        segment_collision(pt(-10, -10), pt(-10, 10), pt(0, -10), pt(10, 0)),
        SegmentCollision::Disjoint
    ));
}

#[test]
fn seg_seg_connecting_parallel() {
    // --.--
    assert_eq!(
        segment_collision(pt(0, 0), pt(48, 0), pt(48, 0), pt(96, 0)),
        SegmentCollision::ConnectingParallel
    );
    assert_eq!(contact_point(pt(0, 0), pt(48, 0), pt(48, 0), pt(96, 0)), pt(48, 0));
}

#[test]
fn seg_seg_contact_points() {
    // T-junction: the end (0, 0) of the second segment lies on the first
    assert_eq!(contact_point(pt(-1, 1), pt(1, -1), pt(1, 1), pt(0, 0)), pt(0, 0));
    // corner: the shared end
    assert_eq!(contact_point(pt(-2, 2), pt(0, 0), pt(0, 0), pt(2, 2)), pt(0, 0));
    // the end of the first segment lies on the second
    assert_eq!(
        segment_collision(pt(0, 0), pt(0, 48), pt(-48, 48), pt(48, 48)),
        SegmentCollision::Touching
    );
    assert_eq!(contact_point(pt(0, 0), pt(0, 48), pt(-48, 48), pt(48, 48)), pt(0, 48));
}

#[test]
fn seg_seg_symmetric_and_reversed() {
    let segs = [
        (pt(-1, 1), pt(1, -1), pt(1, 1), pt(-1, -1)),
        (pt(-1, 1), pt(1, -1), pt(1, 1), pt(0, 0)),
        (pt(10, 10), pt(20, 10), pt(13, 10), pt(17, 10)),
        (pt(0, 0), pt(48, 0), pt(48, 0), pt(96, 0)),
        (pt(-2, 2), pt(0, 0), pt(0, 0), pt(2, 2)),
    ];
    for (a1, a2, b1, b2) in segs {
        let c = segment_collision(a1, a2, b1, b2);
        assert_eq!(segment_collision(b1, b2, a1, a2), c);
        assert_eq!(segment_collision(a2, a1, b1, b2), c);
        assert_eq!(segment_collision(a1, a2, b2, b1), c);
    }
}

#[test]
fn point_seg_degenerate_and_reversed() {
    // a segment of length zero is met only at its own point
    assert_eq!(point_segment_collision(pt(5, 5), pt(0, 0), pt(0, 0)), SegmentCollision::Disjoint);
    assert_eq!(point_segment_collision(pt(0, 0), pt(0, 0), pt(0, 0)), SegmentCollision::Connecting);
    assert_eq!(
        point_segment_collision(pt(24, 24), pt(48, 48), pt(0, 0)),
        SegmentCollision::Touching
    );
    assert_eq!(
        point_segment_collision(pt(24, 25), pt(48, 48), pt(0, 0)),
        SegmentCollision::Disjoint
    );
}

#[test]
fn point_seg_within_tolerance() {
    // 1/20000 away from a long segment: within 0.0001
    assert_eq!(
        point_segment_collision(pt(19999, 1), pt(0, 0), pt(20000, 1)),
        SegmentCollision::Touching
    );
    assert_eq!(
        point_segment_collision(pt(19999, 1), pt(20000, 1), pt(0, 0)),
        SegmentCollision::Touching
    );
    // one unit away from a segment is far
    assert_eq!(
        point_segment_collision(pt(10000, 1), pt(0, 0), pt(20000, 0)),
        SegmentCollision::Disjoint
    );
    // just under 0.0001 away still counts; beyond the ends never does
    assert_eq!(
        point_segment_collision(pt(9999, 1), pt(0, 0), pt(10000, 1)),
        SegmentCollision::Touching
    );
    assert_eq!(
        point_segment_collision(pt(20001, 1), pt(0, 0), pt(20000, 1)),
        SegmentCollision::Disjoint
    );
}

use pixie_wrangler::geom::Point;
use pixie_wrangler::lines::{possible_lines, Axis};

fn pt(x: i32, y: i32) -> Point {
    Point::new(x, y)
}

fn is_octilinear(a: Point, b: Point) -> bool {
    let dx = (b.x - a.x).abs();
    let dy = (b.y - a.y).abs();
    dx == 0 || dy == 0 || dx == dy
}

#[test]
fn straight_line_is_the_only_route() {
    assert_eq!(possible_lines(pt(0, 0), pt(30, 30), None), vec![vec![(pt(0, 0), pt(30, 30))]]);
    assert_eq!(possible_lines(pt(0, 0), pt(0, -50), Some(Axis::X)), vec![vec![(pt(0, 0), pt(0, -50))]]);
    assert_eq!(possible_lines(pt(5, 7), pt(-20, 7), None), vec![vec![(pt(5, 7), pt(-20, 7))]]);
}

#[test]
fn two_routes_wide() {
    // dx = 40, dy = 20: corners (20, 0) and (20, 20)
    let preferred_x = possible_lines(pt(0, 0), pt(40, 20), Some(Axis::X));
    assert_eq!(
        preferred_x,
        vec![
            vec![(pt(0, 0), pt(20, 0)), (pt(20, 0), pt(40, 20))],
            vec![(pt(0, 0), pt(20, 20)), (pt(20, 20), pt(40, 20))],
        ]
    );
    let no_preference = possible_lines(pt(0, 0), pt(40, 20), None);
    assert_eq!(
        no_preference,
        vec![
            vec![(pt(0, 0), pt(20, 20)), (pt(20, 20), pt(40, 20))],
            vec![(pt(0, 0), pt(20, 0)), (pt(20, 0), pt(40, 20))],
        ]
    );
    assert_eq!(possible_lines(pt(0, 0), pt(40, 20), Some(Axis::Y)), no_preference);
}

#[test]
fn two_routes_tall() {
    // dx = 10, dy = 30: corners (0, 20) and (10, 10)
    assert_eq!(
        possible_lines(pt(0, 0), pt(10, 30), Some(Axis::Y)),
        vec![
            vec![(pt(0, 0), pt(0, 20)), (pt(0, 20), pt(10, 30))],
            vec![(pt(0, 0), pt(10, 10)), (pt(10, 10), pt(10, 30))],
        ]
    );
    // negative directions: dx = -10, dy = -30: corners (0, -20) and (-10, -10)
    assert_eq!(
        possible_lines(pt(0, 0), pt(-10, -30), None),
        vec![
            vec![(pt(0, 0), pt(-10, -10)), (pt(-10, -10), pt(-10, -30))],
            vec![(pt(0, 0), pt(0, -20)), (pt(0, -20), pt(-10, -30))],
        ]
    );
}

#[test]
fn every_route_is_an_octilinear_chain() {
    let targets = [pt(40, 20), pt(-7, 3), pt(3, -40), pt(12, 12), pt(0, 9), pt(-25, -60)];
    let from = pt(1, 2);
    for to in targets {
        for pref in [None, Some(Axis::X), Some(Axis::Y)] {
            let routes = possible_lines(from, to, pref);
            let straight = is_octilinear(from, to);
            assert_eq!(routes.len(), if straight { 1 } else { 2 });
            for route in routes.iter() {
                assert!(route.len() <= 2);
                assert_eq!(route[0].0, from);
                assert_eq!(route[route.len() - 1].1, to);
                for (i, seg) in route.iter().enumerate() {
                    assert!(is_octilinear(seg.0, seg.1));
                    if i > 0 {
                        assert_eq!(route[i - 1].1, seg.0);
                    }
                }
            }
            if routes.len() == 2 {
                assert_ne!(routes[0], routes[1]);
            }
        }
    }
}

//! Routing of the road being drawn: 45- and 90-degree polylines between two
//! grid points.

use vstd::prelude::*;
use crate::geom::Point;

verus! {

/// An axis of the play field.
#[derive(Clone, Copy, Debug, PartialEq, Eq, Structural)]
pub enum Axis {
    X,
    Y,
}

pub open spec fn abs(v: int) -> int {
    if v < 0 { -v } else { v }
}

/// `v` moved by `d` in the direction of the sign of `s`.
pub open spec fn toward(v: int, d: int, s: int) -> int {
    if s < 0 { v - d } else { v + d }
}

/// The segment from `a` to `b` runs horizontally, vertically or at 45 degrees.
pub open spec fn is_octilinear(a: Point, b: Point) -> bool {
    let dx = b.x - a.x;
    let dy = b.y - a.y;
    dx == 0 || dy == 0 || abs(dx) == abs(dy)
}

/// The two corner points of the two-segment routes from `from` to `to`: the
/// first moves along the longer axis first, then diagonally; the second moves
/// diagonally first.
pub open spec fn corners(from: Point, to: Point) -> (Point, Point) {
    let dx = to.x - from.x;
    let dy = to.y - from.y;
    if abs(dx) < abs(dy) {
        (
            Point { x: from.x, y: toward(to.y as int, abs(dx), -dy) as i32 },
            Point { x: to.x, y: toward(from.y as int, abs(dx), dy) as i32 },
        )
    } else {
        (
            Point { x: toward(to.x as int, abs(dy), -dx) as i32, y: from.y },
            Point { x: toward(from.x as int, abs(dy), dx) as i32, y: to.y },
        )
    }
}

/// The routes offered for a road from `from` to `to`: the straight segment
/// when it is octilinear, otherwise the two routes through [`corners`], the
/// one that first moves along `axis_preference` first.
pub open spec fn possible_lines_spec(from: Point, to: Point, axis_preference: Option<Axis>) -> Seq<
    Seq<(Point, Point)>,
> {
    if is_octilinear(from, to) {
        seq![seq![(from, to)]]
    } else {
        let (a, b) = corners(from, to);
        if (axis_preference == Some(Axis::X) && a.y == from.y) || (axis_preference == Some(Axis::Y)
            && a.x == from.x) {
            seq![seq![(from, a), (a, to)], seq![(from, b), (b, to)]]
        } else {
            seq![seq![(from, b), (b, to)], seq![(from, a), (a, to)]]
        }
    }
}

/// The segment moves along the x axis (its x changes).
pub open spec fn moves_in_x(seg: (Point, Point)) -> bool {
    seg.1.x != seg.0.x
}

/// The segment moves along the y axis (its y changes).
pub open spec fn moves_in_y(seg: (Point, Point)) -> bool {
    seg.1.y != seg.0.y
}

/// `v` lies between `a` and `b`, either way round.
pub open spec fn between(v: int, a: int, b: int) -> bool {
    (a <= v <= b) || (b <= v <= a)
}

/// Of the two routes offered where no straight one exists, one starts with a
/// diagonal move and the other with a horizontal or vertical one. The route
/// that moves in the preferred axis first comes first: with `X` preferred the
/// first route's first segment moves along x and the second route's moves
/// along y (so a horizontal start comes first, a vertical one last); likewise
/// with `Y`. With no preference the diagonal start comes first. Each route
/// turns at a point inside the box that `from` and `to` span.
pub proof fn lemma_possible_lines_preference(from: Point, to: Point, axis_preference: Option<Axis>)
    requires
        !is_octilinear(from, to),
    ensures
        ({
            let routes = possible_lines_spec(from, to, axis_preference);
            let f0 = routes[0][0];
            let f1 = routes[1][0];
            &&& routes.len() == 2
            &&& f0.0 == from && f1.0 == from
            &&& between(f0.1.x as int, from.x as int, to.x as int) && between(f0.1.y as int, from.y as int, to.y as int)
            &&& between(f1.1.x as int, from.x as int, to.x as int) && between(f1.1.y as int, from.y as int, to.y as int)
            &&& (moves_in_x(f0) && moves_in_y(f0)) != (moves_in_x(f1) && moves_in_y(f1))
            &&& axis_preference == Some(Axis::X) ==> moves_in_x(f0) && moves_in_y(f1)
            &&& axis_preference == Some(Axis::Y) ==> moves_in_y(f0) && moves_in_x(f1)
            &&& axis_preference is None ==> moves_in_x(f0) && moves_in_y(f0)
        }),
{
    let (a, b) = corners(from, to);
    let dx = to.x - from.x;
    let dy = to.y - from.y;
    if abs(dx) < abs(dy) {
        assert(a.x == from.x);
        assert(a.y != from.y);
        assert(b.x != from.x);
        assert(b.y != from.y);
    } else {
        assert(a.y == from.y);
        assert(a.x != from.x);
        assert(b.x != from.x);
        assert(b.y != from.y);
    }
}

/// The polyline `route` runs from `from` to `to` through connected octilinear
/// segments.
pub open spec fn is_octilinear_route(route: Seq<(Point, Point)>, from: Point, to: Point) -> bool {
    &&& route.len() > 0
    &&& route[0].0 == from
    &&& route[route.len() - 1].1 == to
    &&& forall|i: int| 0 <= i < route.len() - 1 ==> #[trigger] route[i].1 == route[i + 1].0
    &&& forall|i: int| 0 <= i < route.len() ==> is_octilinear(#[trigger] route[i].0, route[i].1)
}

/// Given a start and endpoint, return up to two polylines of one or two
/// 45-degree-only segments that connect them.
/// ```text
///   i
///  /|
/// o o
/// |/
/// i
/// ```
/// In the case where a straight line path is possible, returns that single
/// straight line.
///
/// * `axis_preference` - If this is Some(Axis), we will offer up the line that
///   "moves in the preferred axis first" as the first result.
pub fn possible_lines(from: Point, to: Point, axis_preference: Option<Axis>) -> (r: Vec<
    Vec<(Point, Point)>,
>)
    ensures
        r@.map_values(|v: Vec<(Point, Point)>| v@) == possible_lines_spec(from, to, axis_preference),
        !is_octilinear(from, to) ==> {
            &&& r@.len() == 2 && r@[0]@.len() == 2 && r@[1]@.len() == 2
            &&& axis_preference == Some(Axis::X) ==> moves_in_x(r@[0]@[0]) && moves_in_y(r@[1]@[0])
            &&& axis_preference == Some(Axis::Y) ==> moves_in_y(r@[0]@[0]) && moves_in_x(r@[1]@[0])
            &&& axis_preference is None ==> moves_in_x(r@[0]@[0]) && moves_in_y(r@[0]@[0])
        },
{
    let dx = to.x as i64 - from.x as i64;
    let dy = to.y as i64 - from.y as i64;
    let adx = if dx < 0 { -dx } else { dx };
    let ady = if dy < 0 { -dy } else { dy };

    // if a single 45 degree or 90 degree line does the job,
    // return that.
    if dx == 0 || dy == 0 || adx == ady {
        let r = vec![vec![(from, to)]];
        assert(is_octilinear(from, to));
        assert(r@[0]@ =~= seq![(from, to)]);
        assert(r@.map_values(|v: Vec<(Point, Point)>| v@) =~= possible_lines_spec(
            from,
            to,
            axis_preference,
        ));
        return r;
    }

    let (a, b) = if adx < ady {
        let ay = if dy < 0 { to.y as i64 + adx } else { to.y as i64 - adx };
        let by = if dy < 0 { from.y as i64 - adx } else { from.y as i64 + adx };
        (Point { x: from.x, y: ay as i32 }, Point { x: to.x, y: by as i32 })
    } else {
        let ax = if dx < 0 { to.x as i64 + ady } else { to.x as i64 - ady };
        let bx = if dx < 0 { from.x as i64 - ady } else { from.x as i64 + ady };
        (Point { x: ax as i32, y: from.y }, Point { x: bx as i32, y: to.y })
    };
    assert((a, b) == corners(from, to));

    let prefer_a = (matches!(axis_preference, Some(Axis::X)) && a.y == from.y) || (matches!(
        axis_preference,
        Some(Axis::Y)
    ) && a.x == from.x);

    let r = if prefer_a {
        vec![vec![(from, a), (a, to)], vec![(from, b), (b, to)]]
    } else {
        vec![vec![(from, b), (b, to)], vec![(from, a), (a, to)]]
    };
    assert(r@.map_values(|v: Vec<(Point, Point)>| v@) =~= possible_lines_spec(
        from,
        to,
        axis_preference,
    ));
    proof {
        lemma_possible_lines_preference(from, to, axis_preference);
        assert(r@[0]@ == possible_lines_spec(from, to, axis_preference)[0]);
        assert(r@[1]@ == possible_lines_spec(from, to, axis_preference)[1]);
    }
    r
}

/// Every route offered from `from` to `to` is a connected polyline of at most
/// two horizontal, vertical or 45-degree segments from `from` to `to`; a single
/// straight route is offered exactly when one exists, and otherwise two
/// distinct routes are offered.
pub proof fn lemma_possible_lines_octilinear(from: Point, to: Point, axis_preference: Option<Axis>)
    ensures
        ({
            let routes = possible_lines_spec(from, to, axis_preference);
            &&& routes.len() == (if is_octilinear(from, to) { 1int } else { 2int })
            &&& forall|i: int|
                0 <= i < routes.len() ==> is_octilinear_route(#[trigger] routes[i], from, to)
                    && routes[i].len() <= 2
            &&& routes.len() == 2 ==> routes[0] != routes[1]
        }),
{
    let routes = possible_lines_spec(from, to, axis_preference);
    if !is_octilinear(from, to) {
        let (a, b) = corners(from, to);
        let dx = to.x - from.x;
        let dy = to.y - from.y;
        assert(is_octilinear(from, a) && is_octilinear(a, to));
        assert(is_octilinear(from, b) && is_octilinear(b, to));
        assert(a != b);
        assert forall|i: int| 0 <= i < routes.len() implies is_octilinear_route(
            #[trigger] routes[i],
            from,
            to,
        ) && routes[i].len() <= 2 by {
            assert(routes[i].len() == 2);
        }
        assert(routes[0][0].1 != routes[1][0].1);
    } else {
        assert forall|i: int| 0 <= i < routes.len() implies is_octilinear_route(
            #[trigger] routes[i],
            from,
            to,
        ) && routes[i].len() <= 2 by {
            assert(routes[i].len() == 1);
        }
    }
}

} // verus!

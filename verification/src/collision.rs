//! Collision classification between road segments, terminus points and
//! obstacle edges.
//!
//! Coordinates are integers (roads live on the grid), so every test here is
//! exact: a ratio `n / d` of the parametric form is compared with 0 and 1 by
//! comparing `n` with 0 and `d`.

use vstd::prelude::*;
use crate::geom::{Point, cross, dot, perp_dot, dot_product};

verus! {

/// How two segments (or a point and a segment) meet.
#[derive(Clone, Copy, Debug, PartialEq, Eq, Structural)]
pub enum SegmentCollision {
    /// Two segments share some portion of their length (collinear and overlapping)
    Overlapping,
    /// Two segments meet at exactly one endpoint (forming a corner/junction)
    Connecting,
    /// Two collinear segments meet at exactly one endpoint (extending in the same line)
    ConnectingParallel,
    /// One segment's endpoint lies somewhere along the other segment (T-junction)
    Touching,
    /// Two segments cross each other at an interior point (X-intersection)
    Intersecting,
    /// No collision between the segments
    Disjoint,
}

/// `p`, which is neither end of the segment from `a` to `b` (`a != b`), lies
/// within 0.0001 of it. Its nearest point on the segment is the projection of
/// `p` clamped to the segment; when the projection falls on or beyond an end,
/// that end is the nearest point and lies at least 1 away, so `p` is near the
/// segment exactly when the projection falls strictly inside it and the
/// distance to the line, `|cross| / |b - a|`, is at most 0.0001, that is
/// `cross² · 10⁸ <= |b - a|²`.
pub open spec fn near_segment(p: Point, a: Point, b: Point) -> bool {
    let (px, py) = (p.x - a.x, p.y - a.y);
    let (sx, sy) = (b.x - a.x, b.y - a.y);
    let c = cross(px, py, sx, sy);
    &&& 0 < dot(px, py, sx, sy) < dot(sx, sy, sx, sy)
    &&& c * c * 100_000_000 <= dot(sx, sy, sx, sy)
}

/// How the point `p` meets the segment from `a` to `b`: at one of its ends,
/// within 0.0001 of it elsewhere, or not at all. A segment of length zero is
/// met only at its own point.
pub open spec fn point_collision(p: Point, a: Point, b: Point) -> SegmentCollision {
    if p == a || p == b {
        SegmentCollision::Connecting
    } else if a == b {
        SegmentCollision::Disjoint
    } else if near_segment(p, a, b) {
        SegmentCollision::Touching
    } else {
        SegmentCollision::Disjoint
    }
}

/// The ratio `n / d` (with `d != 0`) lies in `[0, 1]`.
pub open spec fn ratio_in_unit(n: int, d: int) -> bool {
    (d > 0 && 0 <= n <= d) || (d < 0 && d <= n <= 0)
}

/// The ratio `n / d` (with `d != 0`) is 0 or 1.
pub open spec fn ratio_at_end(n: int, d: int) -> bool {
    n == 0 || n == d
}

/// The projections of segments `a` and `b` on one axis meet in at most one
/// value.
pub open spec fn separated(a1: int, a2: int, b1: int, b2: int) -> bool {
    (a1 <= b1 && a1 <= b2 && a2 <= b1 && a2 <= b2) || (a1 >= b1 && a1 >= b2 && a2 >= b1 && a2
        >= b2)
}

/// The segments share an endpoint.
pub open spec fn share_endpoint(a1: Point, a2: Point, b1: Point, b2: Point) -> bool {
    a1 == b1 || a1 == b2 || a2 == b1 || a2 == b2
}

/// How two collinear segments meet.
pub open spec fn collinear_collision(a1: Point, a2: Point, b1: Point, b2: Point) -> SegmentCollision {
    if !separated(a1.x as int, a2.x as int, b1.x as int, b2.x as int) || !separated(
        a1.y as int,
        a2.y as int,
        b1.y as int,
        b2.y as int,
    ) {
        SegmentCollision::Overlapping
    } else if share_endpoint(a1, a2, b1, b2) {
        SegmentCollision::ConnectingParallel
    } else {
        SegmentCollision::Disjoint
    }
}

/// How the segment `a1 -> a2` meets the segment `b1 -> b2`.
///
/// In parametric form the lines meet at `a1 + t * (a2 - a1) == b1 + u * (b2 - b1)`
/// with `t == tn / den` and `u == un / den`. Both segments lying on one line
/// (`un == 0 && den == 0`) is judged by [`collinear_collision`]; other parallel
/// segments never collide. Otherwise the segments meet when `t` and `u` both lie
/// in `[0, 1]`: at a shared end when both are 0 or 1, at the end of one of them
/// when one is, and crossing otherwise.
pub open spec fn segment_collision_spec(a1: Point, a2: Point, b1: Point, b2: Point) -> SegmentCollision {
    let (dax, day) = (a2.x - a1.x, a2.y - a1.y);
    let (dbx, dby) = (b2.x - b1.x, b2.y - b1.y);
    let (dabx, daby) = (b1.x - a1.x, b1.y - a1.y);
    let un = cross(dabx, daby, dax, day);
    let den = cross(dax, day, dbx, dby);
    let tn = cross(dabx, daby, dbx, dby);
    if un == 0 && den == 0 {
        collinear_collision(a1, a2, b1, b2)
    } else if den == 0 {
        SegmentCollision::Disjoint
    } else if ratio_at_end(tn, den) && ratio_at_end(un, den) {
        SegmentCollision::Connecting
    } else if ratio_in_unit(tn, den) && ratio_in_unit(un, den) {
        if ratio_at_end(tn, den) || ratio_at_end(un, den) {
            SegmentCollision::Touching
        } else {
            SegmentCollision::Intersecting
        }
    } else {
        SegmentCollision::Disjoint
    }
}

/// The point where two segments that meet at an end meet: for collinear
/// segments the end of `a` that they share, otherwise the end of `a` at
/// `t == 0` or `t == 1`, or else the end of `b` at `u == 0` or `u == 1`.
pub open spec fn contact_point_spec(a1: Point, a2: Point, b1: Point, b2: Point) -> Point {
    let (dax, day) = (a2.x - a1.x, a2.y - a1.y);
    let (dbx, dby) = (b2.x - b1.x, b2.y - b1.y);
    let (dabx, daby) = (b1.x - a1.x, b1.y - a1.y);
    let un = cross(dabx, daby, dax, day);
    let den = cross(dax, day, dbx, dby);
    let tn = cross(dabx, daby, dbx, dby);
    if un == 0 && den == 0 {
        if a1 == b1 || a1 == b2 {
            a1
        } else {
            a2
        }
    } else if tn == 0 {
        a1
    } else if tn == den {
        a2
    } else if un == 0 {
        b1
    } else {
        b2
    }
}

/// `p` lies on the segment from `a` to `b`: it is one of its ends, or it lies
/// on the line through them strictly between the two.
pub open spec fn lies_on(p: Point, a: Point, b: Point) -> bool {
    let (px, py) = (p.x - a.x, p.y - a.y);
    let (sx, sy) = (b.x - a.x, b.y - a.y);
    p == a || p == b || (cross(px, py, sx, sy) == 0 && 0 < dot(px, py, sx, sy) < dot(sx, sy, sx, sy))
}

/// Two segments meet at an end of one of them: they touch, or connect.
pub open spec fn meets_at_an_end(c: SegmentCollision) -> bool {
    c == SegmentCollision::Touching || c == SegmentCollision::Connecting || c == SegmentCollision::ConnectingParallel
}

/// A point `p` with `den * (p - a) == n * (b - a)`, where `n / den` lies in
/// `[0, 1]`, lies on the segment from `a` to `b`.
proof fn lemma_lies_on_by_ratio(p: Point, a: Point, b: Point, n: int, den: int)
    requires
        den != 0,
        ratio_in_unit(n, den),
        den * (p.x - a.x) == n * (b.x - a.x),
        den * (p.y - a.y) == n * (b.y - a.y),
    ensures
        lies_on(p, a, b),
{
    let (px, py) = (p.x - a.x, p.y - a.y);
    let (sx, sy) = (b.x - a.x, b.y - a.y);
    if n == 0 {
        assert(px == 0 && py == 0) by (nonlinear_arith)
            requires
                den != 0,
                den * px == 0 * sx,
                den * py == 0 * sy,
        ;
    } else if n == den {
        assert(px == sx && py == sy) by (nonlinear_arith)
            requires
                den != 0,
                den * px == den * sx,
                den * py == den * sy,
        ;
    } else if sx == 0 && sy == 0 {
        assert(px == 0 && py == 0) by (nonlinear_arith)
            requires
                den != 0,
                den * px == n * sx,
                den * py == n * sy,
                sx == 0,
                sy == 0,
        ;
    } else {
        let c = cross(px, py, sx, sy);
        let d = dot(px, py, sx, sy);
        let l = dot(sx, sy, sx, sy);
        assert(den * c == 0) by (nonlinear_arith)
            requires
                den * px == n * sx,
                den * py == n * sy,
                c == px * sy - py * sx,
        ;
        assert(c == 0) by (nonlinear_arith)
            requires
                den * c == 0,
                den != 0,
        ;
        assert(den * d == n * l) by (nonlinear_arith)
            requires
                den * px == n * sx,
                den * py == n * sy,
                d == px * sx + py * sy,
                l == sx * sx + sy * sy,
        ;
        assert(l > 0) by (nonlinear_arith)
            requires
                l == sx * sx + sy * sy,
                sx != 0 || sy != 0,
        ;
        assert(0 < d < l) by (nonlinear_arith)
            requires
                den * d == n * l,
                l > 0,
                (den > 0 && 0 < n < den) || (den < 0 && den < n < 0),
        ;
    }
}

/// Where two segments touch or connect, the point at which they are said to
/// meet lies on both of them.
pub proof fn lemma_contact_point_on_both(a1: Point, a2: Point, b1: Point, b2: Point)
    requires
        meets_at_an_end(segment_collision_spec(a1, a2, b1, b2)),
    ensures
        lies_on(contact_point_spec(a1, a2, b1, b2), a1, a2),
        lies_on(contact_point_spec(a1, a2, b1, b2), b1, b2),
{
    let (dax, day) = (a2.x - a1.x, a2.y - a1.y);
    let (dbx, dby) = (b2.x - b1.x, b2.y - b1.y);
    let (dabx, daby) = (b1.x - a1.x, b1.y - a1.y);
    let un = cross(dabx, daby, dax, day);
    let den = cross(dax, day, dbx, dby);
    let tn = cross(dabx, daby, dbx, dby);
    let r = contact_point_spec(a1, a2, b1, b2);
    if un == 0 && den == 0 {
        // collinear segments that connect share an end
    } else {
        assert(den * dabx == tn * dax - un * dbx) by (nonlinear_arith)
            requires
                un == dabx * day - daby * dax,
                den == dax * dby - day * dbx,
                tn == dabx * dby - daby * dbx,
        ;
        assert(den * daby == tn * day - un * dby) by (nonlinear_arith)
            requires
                un == dabx * day - daby * dax,
                den == dax * dby - day * dbx,
                tn == dabx * dby - daby * dbx,
        ;
        if tn == 0 {
            assert(den * (a1.x - b1.x) == un * (b2.x - b1.x) && den * (a1.y - b1.y) == un * (b2.y - b1.y)) by (nonlinear_arith)
                requires
                    den * dabx == tn * dax - un * dbx,
                    den * daby == tn * day - un * dby,
                    tn == 0,
                    dabx == b1.x - a1.x,
                    daby == b1.y - a1.y,
                    dbx == b2.x - b1.x,
                    dby == b2.y - b1.y,
            ;
            lemma_lies_on_by_ratio(a1, b1, b2, un, den);
        } else if tn == den {
            assert(den * (a2.x - b1.x) == un * (b2.x - b1.x) && den * (a2.y - b1.y) == un * (b2.y - b1.y)) by (nonlinear_arith)
                requires
                    den * dabx == tn * dax - un * dbx,
                    den * daby == tn * day - un * dby,
                    tn == den,
                    dabx == b1.x - a1.x,
                    daby == b1.y - a1.y,
                    dax == a2.x - a1.x,
                    day == a2.y - a1.y,
                    dbx == b2.x - b1.x,
                    dby == b2.y - b1.y,
            ;
            lemma_lies_on_by_ratio(a2, b1, b2, un, den);
        } else if un == 0 {
            assert(den * (b1.x - a1.x) == tn * (a2.x - a1.x) && den * (b1.y - a1.y) == tn * (a2.y - a1.y)) by (nonlinear_arith)
                requires
                    den * dabx == tn * dax - un * dbx,
                    den * daby == tn * day - un * dby,
                    un == 0,
                    dabx == b1.x - a1.x,
                    daby == b1.y - a1.y,
                    dax == a2.x - a1.x,
                    day == a2.y - a1.y,
            ;
            lemma_lies_on_by_ratio(b1, a1, a2, tn, den);
        } else {
            assert(un == den);
            assert(den * (b2.x - a1.x) == tn * (a2.x - a1.x) && den * (b2.y - a1.y) == tn * (a2.y - a1.y)) by (nonlinear_arith)
                requires
                    den * dabx == tn * dax - un * dbx,
                    den * daby == tn * day - un * dby,
                    un == den,
                    dabx == b1.x - a1.x,
                    daby == b1.y - a1.y,
                    dax == a2.x - a1.x,
                    day == a2.y - a1.y,
                    dbx == b2.x - b1.x,
                    dby == b2.y - b1.y,
            ;
            assert(un == den);
            lemma_lies_on_by_ratio(b2, a1, a2, tn, den);
        }
    }
}

/// The point at which the segments `a1 -> a2` and `b1 -> b2` meet, for segments
/// that are `Touching`, `Connecting` or `ConnectingParallel`.
pub fn contact_point(a1: Point, a2: Point, b1: Point, b2: Point) -> (r: Point)
    ensures
        r == contact_point_spec(a1, a2, b1, b2),
        meets_at_an_end(segment_collision_spec(a1, a2, b1, b2)) ==> lies_on(r, a1, a2) && lies_on(r, b1, b2),
{
    proof {
        if meets_at_an_end(segment_collision_spec(a1, a2, b1, b2)) {
            lemma_contact_point_on_both(a1, a2, b1, b2);
        }
    }
    let dax = a2.x as i64 - a1.x as i64;
    let day = a2.y as i64 - a1.y as i64;
    let dbx = b2.x as i64 - b1.x as i64;
    let dby = b2.y as i64 - b1.y as i64;
    let dabx = b1.x as i64 - a1.x as i64;
    let daby = b1.y as i64 - a1.y as i64;
    let un = perp_dot(dabx, daby, dax, day);
    let den = perp_dot(dax, day, dbx, dby);
    let tn = perp_dot(dabx, daby, dbx, dby);
    if un == 0 && den == 0 {
        if a1 == b1 || a1 == b2 {
            a1
        } else {
            a2
        }
    } else if tn == 0 {
        a1
    } else if tn == den {
        a2
    } else if un == 0 {
        b1
    } else {
        b2
    }
}

/// How the point `p` meets the segment `a -> b`.
pub fn point_segment_collision(p: Point, a: Point, b: Point) -> (r: SegmentCollision)
    ensures
        r == point_collision(p, a, b),
{
    if p == a || p == b {
        return SegmentCollision::Connecting;
    }
    let sx = b.x as i64 - a.x as i64;
    let sy = b.y as i64 - a.y as i64;
    let len2 = dot_product(sx, sy, sx, sy);
    if len2 == 0 {
        assert(a == b) by (nonlinear_arith)
            requires
                len2 == sx * sx + sy * sy,
                len2 == 0,
                sx == b.x - a.x,
                sy == b.y - a.y,
        ;
        return SegmentCollision::Disjoint;
    }
    assert(a != b) by {
        if a == b {
            assert(len2 == 0) by (nonlinear_arith)
                requires
                    sx == 0,
                    sy == 0,
                    len2 == sx * sx + sy * sy,
            ;
        }
    }
    let px = p.x as i64 - a.x as i64;
    let py = p.y as i64 - a.y as i64;
    let c = perp_dot(px, py, sx, sy);
    let d = dot_product(px, py, sx, sy);
    if !(0 < d && d < len2) {
        return SegmentCollision::Disjoint;
    }
    assert(-0x10_0000_0000_0000_0000 <= c <= 0x10_0000_0000_0000_0000) by (nonlinear_arith)
        requires
            c == px * sy - py * sx,
            -0x2_0000_0000 <= px <= 0x2_0000_0000,
            -0x2_0000_0000 <= py <= 0x2_0000_0000,
            -0x2_0000_0000 <= sx <= 0x2_0000_0000,
            -0x2_0000_0000 <= sy <= 0x2_0000_0000,
    ;
    let ac: i128 = if c < 0 { -c } else { c };
    assert(len2 <= 0x10_0000_0000_0000_0000) by (nonlinear_arith)
        requires
            len2 == sx * sx + sy * sy,
            -0x2_0000_0000 <= sx <= 0x2_0000_0000,
            -0x2_0000_0000 <= sy <= 0x2_0000_0000,
    ;
    if ac >= 0x100_0000_0000 {
        assert(c * c * 100_000_000 > len2) by (nonlinear_arith)
            requires
                ac >= 0x100_0000_0000,
                ac == c || ac == -c,
                len2 <= 0x10_0000_0000_0000_0000,
        ;
        return SegmentCollision::Disjoint;
    }
    assert(0 <= ac * ac <= 0x1_0000_0000_0000_0000_0000) by (nonlinear_arith)
        requires
            0 <= ac < 0x100_0000_0000,
    ;
    let sq = ac * ac;
    assert(sq == c * c) by (nonlinear_arith)
        requires
            sq == ac * ac,
            ac == c || ac == -c,
    ;
    if sq * 100_000_000 <= len2 as i128 {
        SegmentCollision::Touching
    } else {
        SegmentCollision::Disjoint
    }
}

/// Whether the projections `a1..a2` and `b1..b2` on one axis meet in at most
/// one value.
fn projections_separated(a1: i32, a2: i32, b1: i32, b2: i32) -> (r: bool)
    ensures
        r == separated(a1 as int, a2 as int, b1 as int, b2 as int),
{
    let d0 = a1 as i64 - b1 as i64;
    let d1 = a1 as i64 - b2 as i64;
    let d2 = a2 as i64 - b1 as i64;
    let d3 = a2 as i64 - b2 as i64;
    (d0 <= 0 && d1 <= 0 && d2 <= 0 && d3 <= 0) || (d0 >= 0 && d1 >= 0 && d2 >= 0 && d3 >= 0)
}

/// How the segment `a1 -> a2` meets the segment `b1 -> b2`.
pub fn segment_collision(a1: Point, a2: Point, b1: Point, b2: Point) -> (r: SegmentCollision)
    ensures
        r == segment_collision_spec(a1, a2, b1, b2),
{
    let dax = a2.x as i64 - a1.x as i64;
    let day = a2.y as i64 - a1.y as i64;
    let dbx = b2.x as i64 - b1.x as i64;
    let dby = b2.y as i64 - b1.y as i64;
    let dabx = b1.x as i64 - a1.x as i64;
    let daby = b1.y as i64 - a1.y as i64;

    let un = perp_dot(dabx, daby, dax, day);
    let den = perp_dot(dax, day, dbx, dby);

    if un == 0 && den == 0 {
        // these are collinear
        // but are they overlapping? merely touching end to end?
        // or not touching at all?
        if !projections_separated(a1.x, a2.x, b1.x, b2.x) {
            return SegmentCollision::Overlapping;
        }
        if !projections_separated(a1.y, a2.y, b1.y, b2.y) {
            return SegmentCollision::Overlapping;
        }
        if a1 == b1 || a1 == b2 || a2 == b1 || a2 == b2 {
            return SegmentCollision::ConnectingParallel;
        }
        return SegmentCollision::Disjoint;
    }

    if den == 0 {
        // parallel, but we don't need to make that distinction
        return SegmentCollision::Disjoint;
    }

    let tn = perp_dot(dabx, daby, dbx, dby);

    let t_end = tn == 0 || tn == den;
    let u_end = un == 0 || un == den;

    if t_end && u_end {
        return SegmentCollision::Connecting;
    }

    let t_in = (den > 0 && 0 <= tn && tn <= den) || (den < 0 && den <= tn && tn <= 0);
    let u_in = (den > 0 && 0 <= un && un <= den) || (den < 0 && den <= un && un <= 0);

    if t_in && u_in && (t_end || u_end) {
        return SegmentCollision::Touching;
    }

    if t_in && u_in {
        return SegmentCollision::Intersecting;
    }

    SegmentCollision::Disjoint
}


/// The classification of two segments does not depend on the direction in
/// which the first one is drawn.
pub proof fn lemma_segment_collision_reverse_first(a1: Point, a2: Point, b1: Point, b2: Point)
    ensures
        segment_collision_spec(a2, a1, b1, b2) == segment_collision_spec(a1, a2, b1, b2),
{
    let (dax, day) = (a2.x - a1.x, a2.y - a1.y);
    let (dbx, dby) = (b2.x - b1.x, b2.y - b1.y);
    let (dabx, daby) = (b1.x - a1.x, b1.y - a1.y);
    let un = cross(dabx, daby, dax, day);
    let den = cross(dax, day, dbx, dby);
    let tn = cross(dabx, daby, dbx, dby);
    let un2 = cross(b1.x - a2.x, b1.y - a2.y, a1.x - a2.x, a1.y - a2.y);
    let den2 = cross(a1.x - a2.x, a1.y - a2.y, dbx, dby);
    let tn2 = cross(b1.x - a2.x, b1.y - a2.y, dbx, dby);
    assert(un2 == -un) by (nonlinear_arith)
        requires
            un2 == (dabx - dax) * (-day) - (daby - day) * (-dax),
            un == dabx * day - daby * dax,
    ;
    assert(den2 == -den) by (nonlinear_arith)
        requires
            den2 == (-dax) * dby - (-day) * dbx,
            den == dax * dby - day * dbx,
    ;
    assert(tn2 == tn - den) by (nonlinear_arith)
        requires
            tn2 == (dabx - dax) * dby - (daby - day) * dbx,
            tn == dabx * dby - daby * dbx,
            den == dax * dby - day * dbx,
    ;
}

/// The classification of two segments does not depend on the direction in
/// which the second one is drawn.
pub proof fn lemma_segment_collision_reverse_second(a1: Point, a2: Point, b1: Point, b2: Point)
    ensures
        segment_collision_spec(a1, a2, b2, b1) == segment_collision_spec(a1, a2, b1, b2),
{
    let (dax, day) = (a2.x - a1.x, a2.y - a1.y);
    let (dbx, dby) = (b2.x - b1.x, b2.y - b1.y);
    let (dabx, daby) = (b1.x - a1.x, b1.y - a1.y);
    let un = cross(dabx, daby, dax, day);
    let den = cross(dax, day, dbx, dby);
    let tn = cross(dabx, daby, dbx, dby);
    let un2 = cross(b2.x - a1.x, b2.y - a1.y, dax, day);
    let den2 = cross(dax, day, b1.x - b2.x, b1.y - b2.y);
    let tn2 = cross(b2.x - a1.x, b2.y - a1.y, b1.x - b2.x, b1.y - b2.y);
    assert(un2 == un - den) by (nonlinear_arith)
        requires
            un2 == (dabx + dbx) * day - (daby + dby) * dax,
            un == dabx * day - daby * dax,
            den == dax * dby - day * dbx,
    ;
    assert(den2 == -den) by (nonlinear_arith)
        requires
            den2 == dax * (-dby) - day * (-dbx),
            den == dax * dby - day * dbx,
    ;
    assert(tn2 == -tn) by (nonlinear_arith)
        requires
            tn2 == (dabx + dbx) * (-dby) - (daby + dby) * (-dbx),
            tn == dabx * dby - daby * dbx,
    ;
}

/// Two segments of non-zero length are classified the same whichever of them
/// is named first.
pub proof fn lemma_segment_collision_symmetric(a1: Point, a2: Point, b1: Point, b2: Point)
    requires
        a1 != a2,
        b1 != b2,
    ensures
        segment_collision_spec(b1, b2, a1, a2) == segment_collision_spec(a1, a2, b1, b2),
{
    let (dax, day) = (a2.x - a1.x, a2.y - a1.y);
    let (dbx, dby) = (b2.x - b1.x, b2.y - b1.y);
    let (dabx, daby) = (b1.x - a1.x, b1.y - a1.y);
    let un = cross(dabx, daby, dax, day);
    let den = cross(dax, day, dbx, dby);
    let tn = cross(dabx, daby, dbx, dby);
    let un2 = cross(a1.x - b1.x, a1.y - b1.y, dbx, dby);
    let den2 = cross(dbx, dby, dax, day);
    let tn2 = cross(a1.x - b1.x, a1.y - b1.y, dax, day);
    assert(un2 == -tn) by (nonlinear_arith)
        requires
            un2 == (-dabx) * dby - (-daby) * dbx,
            tn == dabx * dby - daby * dbx,
    ;
    assert(den2 == -den) by (nonlinear_arith)
        requires
            den2 == dbx * day - dby * dax,
            den == dax * dby - day * dbx,
    ;
    assert(tn2 == -un) by (nonlinear_arith)
        requires
            tn2 == (-dabx) * day - (-daby) * dax,
            un == dabx * day - daby * dax,
    ;
    // On parallel lines, `b1` lies on the line of `a` exactly when `a1` lies on the line of `b`.
    assert(un * dbx == tn * dax - den * dabx) by (nonlinear_arith)
        requires
            un == dabx * day - daby * dax,
            den == dax * dby - day * dbx,
            tn == dabx * dby - daby * dbx,
    ;
    assert(un * dby == tn * day - den * daby) by (nonlinear_arith)
        requires
            un == dabx * day - daby * dax,
            den == dax * dby - day * dbx,
            tn == dabx * dby - daby * dbx,
    ;
    if den == 0 {
        if un == 0 {
            assert(tn * dax == 0 && tn * day == 0) by (nonlinear_arith)
                requires
                    un * dbx == tn * dax - den * dabx,
                    un * dby == tn * day - den * daby,
                    un == 0,
                    den == 0,
            ;
            assert(dax != 0 || day != 0);
            assert(tn == 0) by (nonlinear_arith)
                requires
                    tn * dax == 0,
                    tn * day == 0,
                    dax != 0 || day != 0,
            ;
        }
        if tn == 0 {
            assert(un * dbx == 0 && un * dby == 0) by (nonlinear_arith)
                requires
                    un * dbx == tn * dax - den * dabx,
                    un * dby == tn * day - den * daby,
                    tn == 0,
                    den == 0,
            ;
            assert(dbx != 0 || dby != 0);
            assert(un == 0) by (nonlinear_arith)
                requires
                    un * dbx == 0,
                    un * dby == 0,
                    dbx != 0 || dby != 0,
            ;
        }
    }
}

/// Two segments that meet end to end without being parallel are `Connecting`.
pub proof fn lemma_shared_endpoint_connecting(a1: Point, a2: Point, b1: Point, b2: Point)
    requires
        share_endpoint(a1, a2, b1, b2),
        cross(a2.x - a1.x, a2.y - a1.y, b2.x - b1.x, b2.y - b1.y) != 0,
    ensures
        segment_collision_spec(a1, a2, b1, b2) == SegmentCollision::Connecting,
{
    let (dax, day) = (a2.x - a1.x, a2.y - a1.y);
    let (dbx, dby) = (b2.x - b1.x, b2.y - b1.y);
    let (dabx, daby) = (b1.x - a1.x, b1.y - a1.y);
    let un = cross(dabx, daby, dax, day);
    let den = cross(dax, day, dbx, dby);
    let tn = cross(dabx, daby, dbx, dby);
    if a1 == b1 {
        assert(un == 0 && tn == 0) by (nonlinear_arith)
            requires
                dabx == 0,
                daby == 0,
                un == dabx * day - daby * dax,
                tn == dabx * dby - daby * dbx,
        ;
    } else if a1 == b2 {
        assert(un == den && tn == 0) by (nonlinear_arith)
            requires
                dabx == -dbx,
                daby == -dby,
                un == dabx * day - daby * dax,
                den == dax * dby - day * dbx,
                tn == dabx * dby - daby * dbx,
        ;
    } else if a2 == b1 {
        assert(un == 0 && tn == den) by (nonlinear_arith)
            requires
                dabx == dax,
                daby == day,
                un == dabx * day - daby * dax,
                den == dax * dby - day * dbx,
                tn == dabx * dby - daby * dbx,
        ;
    } else {
        assert(un == den && tn == den) by (nonlinear_arith)
            requires
                dabx == dax - dbx,
                daby == day - dby,
                un == dabx * day - daby * dax,
                den == dax * dby - day * dbx,
                tn == dabx * dby - daby * dbx,
        ;
    }
}

/// The classification of a point against a segment does not depend on the
/// direction in which the segment is drawn.
pub proof fn lemma_point_collision_reverse(p: Point, a: Point, b: Point)
    ensures
        point_collision(p, b, a) == point_collision(p, a, b),
{
    let (px, py) = (p.x - a.x, p.y - a.y);
    let (sx, sy) = (b.x - a.x, b.y - a.y);
    let (qx, qy) = (p.x - b.x, p.y - b.y);
    let c1 = cross(px, py, sx, sy);
    let c2 = cross(qx, qy, -sx, -sy);
    let d1 = dot(px, py, sx, sy);
    let d2 = dot(qx, qy, -sx, -sy);
    let l1 = dot(sx, sy, sx, sy);
    let l2 = dot(-sx, -sy, -sx, -sy);
    assert(c2 == -c1) by (nonlinear_arith)
        requires
            qx == px - sx,
            qy == py - sy,
            c1 == px * sy - py * sx,
            c2 == qx * (-sy) - qy * (-sx),
    ;
    assert(c2 * c2 == c1 * c1) by (nonlinear_arith)
        requires
            c2 == -c1,
    ;
    assert(d2 == l1 - d1 && l2 == l1) by (nonlinear_arith)
        requires
            qx == px - sx,
            qy == py - sy,
            d1 == px * sx + py * sy,
            d2 == qx * (-sx) + qy * (-sy),
            l1 == sx * sx + sy * sy,
            l2 == (-sx) * (-sx) + (-sy) * (-sy),
    ;
}

} // verus!

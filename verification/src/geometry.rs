//! Points and boxes on the fixed-point plane, and the moves the simulation
//! makes on them.

use vstd::prelude::*;
use crate::fixed::{
    is_sqrt_floor, isqrt, lemma_scaled_bounds, lemma_sqrt_exists, lemma_square_monotone, scale,
    scaled, sqrt_floor,
};

verus! {

/// Coordinates are kept within this distance of the origin, so that sums and
/// differences of two of them never leave `i64`.
pub const WORLD_LIMIT: i64 = 0x1000_0000_0000_0000;

/// A position, in thousandths of a pixel.
#[derive(Clone, Copy, Debug, PartialEq, Eq, Structural)]
pub struct Point {
    pub x: i64,
    pub y: i64,
}

impl Point {
    /// Both coordinates are within `WORLD_LIMIT` of the origin.
    pub open spec fn in_world(self) -> bool {
        &&& -WORLD_LIMIT <= self.x <= WORLD_LIMIT
        &&& -WORLD_LIMIT <= self.y <= WORLD_LIMIT
    }

    /// Both coordinates are within `reach` of the origin.
    pub open spec fn within(self, reach: int) -> bool {
        &&& -reach <= self.x <= reach
        &&& -reach <= self.y <= reach
    }

    /// The point moved by `by`.
    pub open spec fn plus(self, by: Point) -> Point {
        Point { x: (self.x + by.x) as i64, y: (self.y + by.y) as i64 }
    }

    /// The point moved against `by`.
    pub open spec fn minus(self, by: Point) -> Point {
        Point { x: (self.x - by.x) as i64, y: (self.y - by.y) as i64 }
    }

    /// Whether the point is in the world.
    pub fn is_in_world(&self) -> (ok: bool)
        ensures
            ok == self.in_world(),
    {
        -WORLD_LIMIT <= self.x && self.x <= WORLD_LIMIT && -WORLD_LIMIT <= self.y && self.y
            <= WORLD_LIMIT
    }
}

/// An axis-aligned box given by its two extreme corners; edges are inclusive.
#[derive(Clone, Copy, Debug, PartialEq, Eq, Structural)]
pub struct Aabb {
    pub min_x: i64,
    pub min_y: i64,
    pub max_x: i64,
    pub max_y: i64,
}

impl Aabb {
    /// The corners are in order and not far outside the world.
    pub open spec fn valid(self) -> bool {
        &&& -2 * WORLD_LIMIT <= self.min_x <= self.max_x <= 2 * WORLD_LIMIT
        &&& -2 * WORLD_LIMIT <= self.min_y <= self.max_y <= 2 * WORLD_LIMIT
    }

    /// Whether the box is valid.
    pub fn is_valid(&self) -> (ok: bool)
        ensures
            ok == self.valid(),
    {
        -2 * WORLD_LIMIT <= self.min_x && self.min_x <= self.max_x && self.max_x <= 2
            * WORLD_LIMIT && -2 * WORLD_LIMIT <= self.min_y && self.min_y <= self.max_y
            && self.max_y <= 2 * WORLD_LIMIT
    }

    /// Two boxes overlap when they share at least one point, edges included.
    pub open spec fn overlaps(self, other: Aabb) -> bool {
        &&& self.max_x >= other.min_x
        &&& self.max_y >= other.min_y
        &&& self.min_x <= other.max_x
        &&& self.min_y <= other.max_y
    }
}

/// The square of the distance between two points.
pub open spec fn dist_sq(a: Point, b: Point) -> int {
    (a.x - b.x) * (a.x - b.x) + (a.y - b.y) * (a.y - b.y)
}

/// A distance is at least its extent along either axis.
pub proof fn lemma_dist_covers_axes(dx: int, dy: int, reach: int)
    requires
        0 <= reach,
        dx * dx + dy * dy <= reach * reach,
    ensures
        -reach <= dx <= reach,
        -reach <= dy <= reach,
{
    assert(-reach <= dx <= reach) by (nonlinear_arith)
        requires
            0 <= reach,
            dx * dx + dy * dy <= reach * reach,
    ;
    assert(-reach <= dy <= reach) by (nonlinear_arith)
        requires
            0 <= reach,
            dx * dx + dy * dy <= reach * reach,
    ;
}

/// Whether `entity_pos` lies within `radius` of `target`, the rim included.
pub fn is_close(entity_pos: Point, target: Point, radius: u32) -> (close: bool)
    ensures
        close == (dist_sq(entity_pos, target) <= radius * radius),
{
    let dx: i128 = entity_pos.x as i128 - target.x as i128;
    let dy: i128 = entity_pos.y as i128 - target.y as i128;
    let r: i128 = radius as i128;
    if dx > r || dx < -r || dy > r || dy < -r {
        proof {
            if dist_sq(entity_pos, target) <= radius * radius {
                lemma_dist_covers_axes(dx as int, dy as int, r as int);
            }
        }
        return false;
    }
    assert(0 <= dx * dx <= 0xffff_ffff * 0xffff_ffff) by (nonlinear_arith)
        requires
            -0xffff_ffff <= dx <= 0xffff_ffff,
    ;
    assert(0 <= dy * dy <= 0xffff_ffff * 0xffff_ffff) by (nonlinear_arith)
        requires
            -0xffff_ffff <= dy <= 0xffff_ffff,
    ;
    assert(0 <= r * r <= 0xffff_ffff * 0xffff_ffff) by (nonlinear_arith)
        requires
            0 <= r <= 0xffff_ffff,
    ;
    dx * dx + dy * dy <= r * r
}

/// Where a walker at `from` stands after one step of length `step` towards
/// `to`. The direction is the difference of the two points over its integer
/// length; a walker already at `to` stays. A step longer than the way left
/// carries the walker past `to`.
pub open spec fn moved_towards(from: Point, to: Point, step: int) -> Point {
    let d2 = dist_sq(to, from);
    if d2 == 0 {
        from
    } else {
        let dist = sqrt_floor(d2);
        Point {
            x: (from.x + scaled(to.x - from.x, step, dist)) as i64,
            y: (from.y + scaled(to.y - from.y, step, dist)) as i64,
        }
    }
}

/// Neither axis of a vector is longer than the vector's integer length.
pub proof fn lemma_axes_within_length(dx: int, dy: int, dist: int)
    requires
        is_sqrt_floor(dx * dx + dy * dy, dist),
    ensures
        -dist <= dx <= dist,
        -dist <= dy <= dist,
        (dx != 0 || dy != 0) ==> dist >= 1,
{
    assert(-dist <= dx <= dist) by (nonlinear_arith)
        requires
            0 <= dist,
            dx * dx + dy * dy < (dist + 1) * (dist + 1),
    ;
    assert(-dist <= dy <= dist) by (nonlinear_arith)
        requires
            0 <= dist,
            dx * dx + dy * dy < (dist + 1) * (dist + 1),
    ;
}

/// Takes one step of length `speed` from `from` towards `to`.
pub fn move_towards(from: Point, to: Point, speed: u64) -> (at: Point)
    requires
        from.in_world(),
        to.in_world(),
        speed <= WORLD_LIMIT,
    ensures
        at == moved_towards(from, to, speed as int),
        from.x - speed <= at.x <= from.x + speed,
        from.y - speed <= at.y <= from.y + speed,
{
    let dx: i128 = to.x as i128 - from.x as i128;
    let dy: i128 = to.y as i128 - from.y as i128;
    assert(0 <= dx * dx <= 0x2000_0000_0000_0000 * 0x2000_0000_0000_0000) by (nonlinear_arith)
        requires
            -0x2000_0000_0000_0000 <= dx <= 0x2000_0000_0000_0000,
    ;
    assert(0 <= dy * dy <= 0x2000_0000_0000_0000 * 0x2000_0000_0000_0000) by (nonlinear_arith)
        requires
            -0x2000_0000_0000_0000 <= dy <= 0x2000_0000_0000_0000,
    ;
    let d2: u128 = (dx * dx + dy * dy) as u128;
    if d2 == 0 {
        return from;
    }
    let dist: u64 = isqrt(d2);
    proof {
        lemma_axes_within_length(dx as int, dy as int, dist as int);
        let mx = if dx >= 0 { dx as int } else { -dx as int };
        let my = if dy >= 0 { dy as int } else { -dy as int };
        assert(mx * speed <= speed * dist) by (nonlinear_arith)
            requires
                0 <= mx <= dist,
                0 <= speed,
        ;
        assert(my * speed <= speed * dist) by (nonlinear_arith)
            requires
                0 <= my <= dist,
                0 <= speed,
        ;
        lemma_scaled_bounds(dx as int, speed as int, dist as int, speed as int);
        lemma_scaled_bounds(dy as int, speed as int, dist as int, speed as int);
    }
    let sx: i128 = scale(dx, speed, dist as u128);
    let sy: i128 = scale(dy, speed, dist as u128);
    Point { x: (from.x as i128 + sx) as i64, y: (from.y as i128 + sy) as i64 }
}

/// How far the first of two crowded souls is pushed, the second being pushed
/// as far the other way. `anchor` is where the first stands and `other` where
/// the second does. Souls at least `min_distance` apart are left alone, and
/// so are souls on the very same spot, between which no direction exists.
/// Otherwise the push runs along the line from `other` to `anchor`, by half
/// of what is missing to `min_distance`, or by all of it when one of the two
/// follows the player. Each component is rounded away from zero.
pub open spec fn separation(anchor: Point, other: Point, min_distance: int, following: bool)
    -> Point {
    let d2 = dist_sq(anchor, other);
    if d2 == 0 || d2 >= min_distance * min_distance {
        Point { x: 0, y: 0 }
    } else {
        let dist = sqrt_floor(d2);
        let overlap = min_distance - dist;
        let force: int = if following { 2 } else { 1 };
        Point {
            x: scaled(anchor.x - other.x, overlap * force, 2 * dist) as i64,
            y: scaled(anchor.y - other.y, overlap * force, 2 * dist) as i64,
        }
    }
}

/// The integer length of a vector shorter than `reach` is shorter than
/// `reach` too.
pub proof fn lemma_length_below(d2: int, dist: int, reach: int)
    requires
        is_sqrt_floor(d2, dist),
        0 < reach,
        d2 < reach * reach,
    ensures
        dist < reach,
{
    if dist >= reach {
        lemma_square_monotone(reach, dist);
    }
}

/// Computes `separation`.
pub fn separation_push(anchor: Point, other: Point, min_distance: u32, following: bool) -> (push:
    Point)
    ensures
        push == separation(anchor, other, min_distance as int, following),
        -(min_distance as int) <= push.x <= min_distance,
        -(min_distance as int) <= push.y <= min_distance,
{
    let dx: i128 = anchor.x as i128 - other.x as i128;
    let dy: i128 = anchor.y as i128 - other.y as i128;
    let reach: i128 = min_distance as i128;
    if dx >= reach || dx <= -reach || dy >= reach || dy <= -reach {
        proof {
            if dist_sq(anchor, other) < min_distance * min_distance {
                lemma_dist_covers_axes(dx as int, dy as int, reach as int);
                assert(dx * dx + dy * dy >= reach * reach) by (nonlinear_arith)
                    requires
                        dx >= reach || dx <= -reach || dy >= reach || dy <= -reach,
                        reach >= 0,
                ;
            }
        }
        return Point { x: 0, y: 0 };
    }
    assert(0 <= dx * dx <= 0xffff_ffff * 0xffff_ffff) by (nonlinear_arith)
        requires
            -0xffff_ffff <= dx <= 0xffff_ffff,
    ;
    assert(0 <= dy * dy <= 0xffff_ffff * 0xffff_ffff) by (nonlinear_arith)
        requires
            -0xffff_ffff <= dy <= 0xffff_ffff,
    ;
    assert(0 <= reach * reach <= 0xffff_ffff * 0xffff_ffff) by (nonlinear_arith)
        requires
            0 <= reach <= 0xffff_ffff,
    ;
    let d2: i128 = dx * dx + dy * dy;
    if d2 == 0 || d2 >= reach * reach {
        return Point { x: 0, y: 0 };
    }
    let dist: u64 = isqrt(d2 as u128);
    proof {
        lemma_axes_within_length(dx as int, dy as int, dist as int);
        lemma_length_below(d2 as int, dist as int, reach as int);
    }
    let overlap: u64 = min_distance as u64 - dist;
    let amount: u64 = if following {
        overlap * 2
    } else {
        overlap
    };
    proof {
        let mx = if dx >= 0 { dx as int } else { -dx as int };
        let my = if dy >= 0 { dy as int } else { -dy as int };
        assert(mx * amount <= overlap * (2 * dist)) by (nonlinear_arith)
            requires
                0 <= mx <= dist,
                0 <= amount <= 2 * overlap,
        ;
        assert(my * amount <= overlap * (2 * dist)) by (nonlinear_arith)
            requires
                0 <= my <= dist,
                0 <= amount <= 2 * overlap,
        ;
        lemma_scaled_bounds(dx as int, amount as int, 2 * dist, overlap as int);
        lemma_scaled_bounds(dy as int, amount as int, 2 * dist, overlap as int);
        assert(amount == overlap * (if following { 2int } else { 1int }));
    }
    let sx: i128 = scale(dx, amount, 2 * (dist as u128));
    let sy: i128 = scale(dy, amount, 2 * (dist as u128));
    Point { x: sx as i64, y: sy as i64 }
}

/// One push strictly widens the gap between two crowded souls that do not
/// stand on the same spot.
pub proof fn lemma_separation_widens(a: Point, b: Point, min_distance: int, following: bool)
    requires
        a.in_world(),
        b.in_world(),
        0 < min_distance <= u32::MAX,
        0 < dist_sq(a, b) < min_distance * min_distance,
    ensures
        ({
            let push = separation(a, b, min_distance, following);
            dist_sq(a.plus(push), b.minus(push)) > dist_sq(a, b)
        }),
{
    let dx = a.x - b.x;
    let dy = a.y - b.y;
    let d2 = dist_sq(a, b);
    let dist = sqrt_floor(d2);
    lemma_dist_covers_axes(dx, dy, min_distance);
    lemma_sqrt_exists(d2);
    lemma_axes_within_length(dx, dy, dist);
    lemma_length_below(d2, dist, min_distance);
    let overlap = min_distance - dist;
    let force: int = if following { 2 } else { 1 };
    let amount = overlap * force;
    let mx = if dx >= 0 { dx } else { -dx };
    let my = if dy >= 0 { dy } else { -dy };
    assert(mx * amount <= overlap * (2 * dist)) by (nonlinear_arith)
        requires
            0 <= mx <= dist,
            0 <= amount <= 2 * overlap,
    ;
    assert(my * amount <= overlap * (2 * dist)) by (nonlinear_arith)
        requires
            0 <= my <= dist,
            0 <= amount <= 2 * overlap,
    ;
    lemma_scaled_bounds(dx, amount, 2 * dist, overlap);
    lemma_scaled_bounds(dy, amount, 2 * dist, overlap);
    let sx = scaled(dx, amount, 2 * dist);
    let sy = scaled(dy, amount, 2 * dist);
    let push = separation(a, b, min_distance, following);
    assert(push.x == sx && push.y == sy);
    let ex = dx + 2 * sx;
    let ey = dy + 2 * sy;
    assert(a.plus(push).x - b.minus(push).x == ex);
    assert(a.plus(push).y - b.minus(push).y == ey);
    assert(ex * ex >= dx * dx && (dx != 0 ==> ex * ex > dx * dx)) by (nonlinear_arith)
        requires
            ex == dx + 2 * sx,
            dx >= 0 ==> sx >= 0,
            dx <= 0 ==> sx <= 0,
            dx > 0 ==> sx >= 1,
            dx < 0 ==> sx <= -1,
    ;
    assert(ey * ey >= dy * dy && (dy != 0 ==> ey * ey > dy * dy)) by (nonlinear_arith)
        requires
            ey == dy + 2 * sy,
            dy >= 0 ==> sy >= 0,
            dy <= 0 ==> sy <= 0,
            dy > 0 ==> sy >= 1,
            dy < 0 ==> sy <= -1,
    ;
    assert(dx != 0 || dy != 0) by (nonlinear_arith)
        requires
            dx * dx + dy * dy > 0,
    ;
}

} // verus!

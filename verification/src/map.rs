use vstd::prelude::*;
use crate::entities::{Task, PLAYER_RADIUS};
use crate::rng::random_i64_between;
use crate::vec2::{Position, Speed, MAX_DIM, MAX_SPEED, MAX_ELAPSED_MICROS};

verus! {

/// The farthest a player can move in one simulation step, in fine units:
/// the speed cap times the longest step.
pub const MAX_MOVE: i64 = 16_000_000_000;

/// Whether `r` is the integer square root of `s`, rounded down.
pub open spec fn is_floor_sqrt(s: int, r: int) -> bool {
    0 <= r && r * r <= s && s < (r + 1) * (r + 1)
}

/// The integer square root of a nonnegative value, rounded down.
pub open spec fn sqrt_floor(s: int) -> int
    recommends
        s >= 0,
{
    choose|r: int| is_floor_sqrt(s, r)
}

/// Two floor square roots of the same value are the same.
pub proof fn lemma_floor_sqrt_unique(s: int, a: int, b: int)
    requires
        is_floor_sqrt(s, a),
        is_floor_sqrt(s, b),
    ensures
        a == b,
{
    assert(a == b) by (nonlinear_arith)
        requires
            0 <= a && a * a <= s && s < (a + 1) * (a + 1),
            0 <= b && b * b <= s && s < (b + 1) * (b + 1),
    ;
}

/// The integer square root, rounded down, found by bisection.
pub fn isqrt(s: i128) -> (r: i128)
    requires
        0 <= s < 0x4000_0000_0000_0000_0000_0000_0000_0000,
    ensures
        is_floor_sqrt(s as int, r as int),
        r as int == sqrt_floor(s as int),
        0 <= r <= 0x8000_0000_0000_0000,
{
    let mut lo: i128 = 0;
    let mut hi: i128 = 0x8000_0000_0000_0000;
    proof {
        assert(hi * hi == 0x4000_0000_0000_0000_0000_0000_0000_0000) by (nonlinear_arith)
            requires
                hi == 0x8000_0000_0000_0000,
        ;
    }
    while hi - lo > 1
        invariant
            0 <= lo < hi <= 0x8000_0000_0000_0000,
            lo * lo <= s,
            s < hi * hi,
        decreases hi - lo,
    {
        let mid = lo + (hi - lo) / 2;
        proof {
            assert(lo < mid < hi);
            assert(mid * mid < 0x8000_0000_0000_0000_0000_0000_0000_0000) by (nonlinear_arith)
                requires
                    0 < mid <= 0x8000_0000_0000_0000,
            ;
            assert(mid * mid >= 0) by (nonlinear_arith);
        }
        if mid * mid <= s {
            lo = mid;
        } else {
            hi = mid;
        }
    }
    proof {
        assert(hi == lo + 1);
        assert(is_floor_sqrt(s as int, lo as int));
        lemma_floor_sqrt_unique(s as int, lo as int, sqrt_floor(s as int));
    }
    lo
}

/// The product of values bounded in magnitude is bounded by the product of
/// the bounds.
proof fn lemma_mul_bound(a: int, b: int, ab: int, bb: int)
    requires
        -ab <= a <= ab,
        -bb <= b <= bb,
        0 <= ab,
        0 <= bb,
    ensures
        -(ab * bb) <= a * b <= ab * bb,
{
    assert(-(ab * bb) <= a * b <= ab * bb) by (nonlinear_arith)
        requires
            -ab <= a <= ab,
            -bb <= b <= bb,
            0 <= ab,
            0 <= bb,
    ;
}

/// A product of one nonnegative factor at most the divisor, divided by that
/// divisor, stays at or below the other factor.
proof fn lemma_scale_within(a: int, q: int, m2: int)
    requires
        0 <= a,
        0 <= q <= m2,
        1 <= m2,
    ensures
        0 <= (a * q) / m2 <= a,
{
    assert(a * q >= 0) by (nonlinear_arith)
        requires
            0 <= a && 0 <= q,
    ;
    assert(a * q <= a * m2) by (nonlinear_arith)
        requires
            0 <= a && q <= m2,
    ;
    vstd::arithmetic::div_mod::lemma_div_pos_is_pos(a * q, m2);
    vstd::arithmetic::div_mod::lemma_div_is_ordered(a * q, a * m2, m2);
    vstd::arithmetic::div_mod::lemma_div_by_multiple(a, m2);
    assert((a * q) / m2 <= (a * m2) / m2);
    assert((a * m2) / m2 == a);
}

/// The truncating quotient of a scaled component: the magnitude is divided
/// and the sign is put back.
pub open spec fn scale_trunc(a: int, q: int, m2: int) -> int
    recommends
        0 <= q,
        1 <= m2,
{
    if a >= 0 {
        (a * q) / m2
    } else {
        -(((-a) * q) / m2)
    }
}

/// A static obstacle of the map. Only circles exist; the visual fields are
/// carried for clients and play no part in the rules.
#[derive(Clone, Debug, PartialEq)]
pub enum Shape {
    Circle {
        radius: i64,
        center: Position,
        fill_color: String,
        outline_width: i64,
        outline_color: String,
    },
}

impl Shape {
    /// A shape the collision engine can work with: it lies in the modeled
    /// coordinate range.
    pub open spec fn wf(self) -> bool {
        match self {
            Shape::Circle { radius, center, .. } => 0 <= radius <= MAX_DIM && 0 <= center.x
                <= MAX_DIM && 0 <= center.y <= MAX_DIM,
        }
    }

    /// What colliding a moving player circle with this shape leaves of the
    /// movement: the movement unchanged when the swept circles stay apart,
    /// else the movement cut down to stop at first contact. A movement that
    /// starts already overlapping the shape is stopped, not pushed back.
    pub open spec fn collide_spec(self, position: Position, radius: int, mv: Speed) -> Speed {
        match self {
            Shape::Circle { radius: sradius, center, .. } => {
                let sum = radius + sradius;
                let cx = center.x - position.x;
                let cy = center.y - position.y;
                let c2 = cx * cx + cy * cy;
                let m2 = mv.dx * mv.dx + mv.dy * mv.dy;
                if sqrt_floor(m2) < sqrt_floor(c2) - sum {
                    mv
                } else {
                    let d = cx * mv.dx + cy * mv.dy;
                    if d <= 0 {
                        mv
                    } else if c2 * m2 - d * d >= sum * sum * m2 {
                        mv
                    } else {
                        let s = sum * sum * m2 - c2 * m2 + d * d;
                        let q0 = d - sqrt_floor(s);
                        let q = if q0 < 0 {
                            0
                        } else {
                            q0
                        };
                        if m2 < q {
                            mv
                        } else {
                            Speed {
                                dx: scale_trunc(mv.dx as int, q, m2) as i64,
                                dy: scale_trunc(mv.dy as int, q, m2) as i64,
                            }
                        }
                    }
                }
            },
        }
    }

    /// Resolves a moving player circle against this shape, swept along the
    /// movement vector.
    pub fn collide(&self, position: Position, radius: i64, movement_vector: Speed) -> (r: Speed)
        requires
            self.wf(),
            0 <= position.x <= MAX_DIM,
            0 <= position.y <= MAX_DIM,
            0 <= radius <= MAX_DIM,
            -MAX_MOVE <= movement_vector.dx <= MAX_MOVE,
            -MAX_MOVE <= movement_vector.dy <= MAX_MOVE,
        ensures
            r == self.collide_spec(position, radius as int, movement_vector),
            -MAX_MOVE <= r.dx <= MAX_MOVE,
            -MAX_MOVE <= r.dy <= MAX_MOVE,
    {
        match self {
            Shape::Circle { radius: sradius, center, .. } => {
                let mdx: i128 = movement_vector.dx as i128;
                let mdy: i128 = movement_vector.dy as i128;
                let sum: i128 = radius as i128 + *sradius as i128;
                let cx: i128 = center.x as i128 - position.x as i128;
                let cy: i128 = center.y as i128 - position.y as i128;
                proof {
                    lemma_mul_bound(cx as int, cx as int, MAX_DIM as int, MAX_DIM as int);
                    lemma_mul_bound(cy as int, cy as int, MAX_DIM as int, MAX_DIM as int);
                    lemma_mul_bound(mdx as int, mdx as int, MAX_MOVE as int, MAX_MOVE as int);
                    lemma_mul_bound(mdy as int, mdy as int, MAX_MOVE as int, MAX_MOVE as int);
                    assert(cx * cx >= 0 && cy * cy >= 0 && mdx * mdx >= 0 && mdy * mdy >= 0)
                        by (nonlinear_arith);
                }
                let c2: i128 = cx * cx + cy * cy;
                let m2: i128 = mdx * mdx + mdy * mdy;
                let root_c2 = isqrt(c2);
                let root_m2 = isqrt(m2);
                if root_m2 < root_c2 - sum {
                    return movement_vector;
                }
                proof {
                    lemma_mul_bound(cx as int, mdx as int, MAX_DIM as int, MAX_MOVE as int);
                    lemma_mul_bound(cy as int, mdy as int, MAX_DIM as int, MAX_MOVE as int);
                }
                let d: i128 = cx * mdx + cy * mdy;
                if d <= 0 {
                    return movement_vector;
                }
                proof {
                    lemma_mul_bound(
                        c2 as int,
                        m2 as int,
                        8_589_934_592_000_000,
                        512_000_000_000_000_000_000,
                    );
                    lemma_mul_bound(
                        d as int,
                        d as int,
                        2_097_152_000_000_000_000,
                        2_097_152_000_000_000_000,
                    );
                    lemma_mul_bound(sum as int, sum as int, 131_072_000, 131_072_000);
                    lemma_mul_bound(
                        (sum * sum) as int,
                        m2 as int,
                        17_179_869_184_000_000,
                        512_000_000_000_000_000_000,
                    );
                }
                let cm: i128 = c2 * m2;
                let dd: i128 = d * d;
                let rr: i128 = (sum * sum) * m2;
                if cm - dd >= rr {
                    return movement_vector;
                }
                let s: i128 = rr - cm + dd;
                proof {
                    assert(s >= 0);
                }
                let root_s = isqrt(s);
                let q0: i128 = d - root_s;
                let q: i128 = if q0 < 0 {
                    0
                } else {
                    q0
                };
                if m2 < q {
                    return movement_vector;
                }
                proof {
                    assert(m2 >= 1) by {
                        if m2 <= 0 {
                            assert(mdx == 0 && mdy == 0) by (nonlinear_arith)
                                requires
                                    mdx * mdx + mdy * mdy <= 0,
                            ;
                            assert(d == 0) by (nonlinear_arith)
                                requires
                                    mdx == 0 && mdy == 0 && d == cx * mdx + cy * mdy,
                            ;
                        }
                    }
                    lemma_scale_within(
                        if mdx >= 0 {
                            mdx as int
                        } else {
                            -mdx as int
                        },
                        q as int,
                        m2 as int,
                    );
                    lemma_scale_within(
                        if mdy >= 0 {
                            mdy as int
                        } else {
                            -mdy as int
                        },
                        q as int,
                        m2 as int,
                    );
                    lemma_mul_bound(
                        mdx as int,
                        q as int,
                        16_000_000_000,
                        512_000_000_000_000_000_000,
                    );
                    lemma_mul_bound(
                        mdy as int,
                        q as int,
                        16_000_000_000,
                        512_000_000_000_000_000_000,
                    );
                    lemma_mul_bound(
                        -mdx as int,
                        q as int,
                        16_000_000_000,
                        512_000_000_000_000_000_000,
                    );
                    lemma_mul_bound(
                        -mdy as int,
                        q as int,
                        16_000_000_000,
                        512_000_000_000_000_000_000,
                    );
                }
                let rx: i128 = if mdx >= 0 {
                    (mdx * q) / m2
                } else {
                    -((-mdx * q) / m2)
                };
                let ry: i128 = if mdy >= 0 {
                    (mdy * q) / m2
                } else {
                    -((-mdy * q) / m2)
                };
                Speed { dx: rx as i64, dy: ry as i64 }
            },
        }
    }
}

/// The clamp of a value into an interval: values past either end move to
/// that end, the upper end winning when the interval is empty the way the
/// nested minimum and maximum read.
pub open spec fn clamp_within(v: int, lo: int, hi: int) -> int {
    let m = if v < hi {
        v
    } else {
        hi
    };
    if m < lo {
        lo
    } else {
        m
    }
}

/// The static description of the playing field: its dimensions in fine
/// units and the obstacles players collide with.
#[derive(Clone, Debug, PartialEq)]
pub struct GameMap {
    pub width: i64,
    pub height: i64,
    pub static_geometry: Vec<Shape>,
}

impl GameMap {
    /// A map the engine can simulate on: dimensions within the modeled
    /// range with room for a player circle, and every shape well formed.
    pub open spec fn wf(self) -> bool {
        &&& 2 * PLAYER_RADIUS <= self.width <= MAX_DIM
        &&& 2 * PLAYER_RADIUS <= self.height <= MAX_DIM
        &&& forall|i: int|
            0 <= i < self.static_geometry@.len() ==> (#[trigger] self.static_geometry@[i]).wf()
    }

    /// The standard playing field: 1024 by 768 map units with the round
    /// conference table in the meeting area.
    pub fn first_map() -> (r: GameMap)
        ensures
            r.wf(),
            r.width == 16_384_000,
            r.height == 12_288_000,
            r.static_geometry@.len() == 1,
            r.static_geometry@[0] matches Shape::Circle {
                radius,
                center,
                fill_color,
                outline_width,
                outline_color,
            } && radius == 1_200_000 && center == (Position { x: 4_400_000, y: 4_400_000 })
                && fill_color@ == "#358"@ && outline_width == 16_000 && outline_color@
                == "#000"@,
    {
        let mut geometry: Vec<Shape> = Vec::new();
        geometry.push(
            Shape::Circle {
                radius: 1_200_000,
                center: Position { x: 4_400_000, y: 4_400_000 },
                fill_color: String::from_str("#358"),
                outline_width: 16_000,
                outline_color: String::from_str("#000"),
            },
        );
        GameMap { width: 16_384_000, height: 12_288_000, static_geometry: geometry }
    }

    /// The width of the map, in fine units.
    pub fn width(&self) -> (r: i64)
        ensures
            r == self.width,
    {
        self.width
    }

    /// The height of the map, in fine units.
    pub fn height(&self) -> (r: i64)
        ensures
            r == self.height,
    {
        self.height
    }

    /// Moves a circle's center the least amount that brings the circle
    /// within the map: each coordinate is clamped between the radius and
    /// the matching dimension less the radius.
    pub fn constrain_circle_within_bounds(&self, center: Position, radius: i64) -> (r: Position)
        requires
            self.wf(),
            0 <= radius,
            radius <= self.width,
            radius <= self.height,
        ensures
            r.x == clamp_within(center.x as int, radius as int, self.width - radius),
            r.y == clamp_within(center.y as int, radius as int, self.height - radius),
            2 * radius <= self.width ==> radius <= r.x <= self.width - radius,
            2 * radius <= self.height ==> radius <= r.y <= self.height - radius,
    {
        let hi_x = self.width - radius;
        let hi_y = self.height - radius;
        let mx = if center.x < hi_x {
            center.x
        } else {
            hi_x
        };
        let my = if center.y < hi_y {
            center.y
        } else {
            hi_y
        };
        Position {
            x: if mx < radius {
                radius
            } else {
                mx
            },
            y: if my < radius {
                radius
            } else {
                my
            },
        }
    }
}

impl Position {
    /// A position drawn uniformly at random with a margin of 30 map units
    /// to every edge of the map.
    pub fn random(map: &GameMap) -> (r: Position)
        requires
            map.wf(),
            map.width > 960_000,
            map.height > 960_000,
        ensures
            480_000 <= r.x < map.width - 480_000,
            480_000 <= r.y < map.height - 480_000,
    {
        Position {
            x: random_i64_between(480_000, map.width - 480_000),
            y: random_i64_between(480_000, map.height - 480_000),
        }
    }
}

impl Task {
    /// An unfinished task placed uniformly at random within the map's
    /// margins.
    pub fn random_positioned_in_map(map: &GameMap) -> (r: Task)
        requires
            map.wf(),
            map.width > 960_000,
            map.height > 960_000,
        ensures
            !r.finished,
            480_000 <= r.position.x < map.width - 480_000,
            480_000 <= r.position.y < map.height - 480_000,
    {
        Task { finished: false, position: Position::random(map) }
    }
}

} // verus!

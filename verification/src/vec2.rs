use vstd::prelude::*;

verus! {

/// Coordinates are held in integer "fine units": `UNIT` fine units make one
/// map unit. A movement step lasts `UNIT` microseconds, so a speed written in
/// fine units per microsecond is numerically the same as map units per step.
pub const UNIT: i64 = 16_000;

/// Largest map dimension, in fine units (4096 map units).
pub const MAX_DIM: i64 = 65_536_000;

/// Largest admitted speed component, in fine units per microsecond
/// (1000 map units per step).
pub const MAX_SPEED: i64 = 16_000;

/// Longest single simulation step, in microseconds.
pub const MAX_ELAPSED_MICROS: u64 = 1_000_000;

/// A place on the map, in fine units.
#[derive(Clone, Copy, PartialEq, Eq, Structural, Debug)]
pub struct Position {
    pub x: i64,
    pub y: i64,
}

/// A rate of movement, in fine units per microsecond.
#[derive(Clone, Copy, PartialEq, Eq, Structural, Debug)]
pub struct Speed {
    pub dx: i64,
    pub dy: i64,
}

impl Position {
    /// The component-wise difference of two positions, as a displacement.
    pub fn sub(self, other: Position) -> (r: Position)
        requires
            -0x8000_0000_0000_0000 <= self.x - other.x <= 0x7fff_ffff_ffff_ffff,
            -0x8000_0000_0000_0000 <= self.y - other.y <= 0x7fff_ffff_ffff_ffff,
        ensures
            r.x == self.x - other.x,
            r.y == self.y - other.y,
    {
        Position { x: self.x - other.x, y: self.y - other.y }
    }

    /// The square of the euclidean distance between two positions.
    pub fn distance_squared(self, other: Position) -> (r: i128)
        requires
            -0x2000_0000_0000_0000 <= self.x <= 0x2000_0000_0000_0000,
            -0x2000_0000_0000_0000 <= self.y <= 0x2000_0000_0000_0000,
            -0x2000_0000_0000_0000 <= other.x <= 0x2000_0000_0000_0000,
            -0x2000_0000_0000_0000 <= other.y <= 0x2000_0000_0000_0000,
        ensures
            r == (self.x - other.x) * (self.x - other.x) + (self.y - other.y) * (self.y
                - other.y),
    {
        let dx: i128 = self.x as i128 - other.x as i128;
        let dy: i128 = self.y as i128 - other.y as i128;
        proof {
            assert(dx * dx + dy * dy < 0x8000_0000_0000_0000_0000_0000_0000_0000
                && dx * dx >= 0 && dy * dy >= 0) by (nonlinear_arith)
                requires
                    -0x4000_0000_0000_0000 <= dx <= 0x4000_0000_0000_0000,
                    -0x4000_0000_0000_0000 <= dy <= 0x4000_0000_0000_0000,
            ;
        }
        dx * dx + dy * dy
    }
}

impl Default for Speed {
    /// A speed with no movement in either direction.
    fn default() -> (r: Speed)
        ensures
            r.dx == 0,
            r.dy == 0,
    {
        Speed { dx: 0, dy: 0 }
    }
}

impl Speed {
    /// A speed with no movement in either direction.
    pub fn zero() -> (r: Speed)
        ensures
            r.dx == 0,
            r.dy == 0,
    {
        Speed { dx: 0, dy: 0 }
    }

    /// The square of the euclidean magnitude of this speed.
    pub fn magnitude_squared(self) -> (r: i128)
        requires
            -0x2000_0000_0000_0000 <= self.dx <= 0x2000_0000_0000_0000,
            -0x2000_0000_0000_0000 <= self.dy <= 0x2000_0000_0000_0000,
        ensures
            r == self.dx * self.dx + self.dy * self.dy,
    {
        let dx: i128 = self.dx as i128;
        let dy: i128 = self.dy as i128;
        proof {
            assert(dx * dx + dy * dy < 0x8000_0000_0000_0000_0000_0000_0000_0000
                && dx * dx >= 0 && dy * dy >= 0) by (nonlinear_arith)
                requires
                    -0x2000_0000_0000_0000 <= dx <= 0x2000_0000_0000_0000,
                    -0x2000_0000_0000_0000 <= dy <= 0x2000_0000_0000_0000,
            ;
        }
        dx * dx + dy * dy
    }

    /// The dot product of two speeds taken as plain vectors.
    pub fn dot(self, other: Speed) -> (r: i128)
        requires
            -0x2000_0000_0000_0000 <= self.dx <= 0x2000_0000_0000_0000,
            -0x2000_0000_0000_0000 <= self.dy <= 0x2000_0000_0000_0000,
            -0x2000_0000_0000_0000 <= other.dx <= 0x2000_0000_0000_0000,
            -0x2000_0000_0000_0000 <= other.dy <= 0x2000_0000_0000_0000,
        ensures
            r == self.dx * other.dx + self.dy * other.dy,
    {
        proof {
            assert(-0x1000_0000_0000_0000_0000_0000_0000_0000 <= (self.dx as i128) * (
            other.dx as i128) <= 0x1000_0000_0000_0000_0000_0000_0000_0000
                && -0x1000_0000_0000_0000_0000_0000_0000_0000 <= (self.dy as i128) * (
            other.dy as i128) <= 0x1000_0000_0000_0000_0000_0000_0000_0000) by (nonlinear_arith)
                requires
                    -0x2000_0000_0000_0000 <= self.dx <= 0x2000_0000_0000_0000,
                    -0x2000_0000_0000_0000 <= self.dy <= 0x2000_0000_0000_0000,
                    -0x2000_0000_0000_0000 <= other.dx <= 0x2000_0000_0000_0000,
                    -0x2000_0000_0000_0000 <= other.dy <= 0x2000_0000_0000_0000,
            ;
        }
        let a: i128 = self.dx as i128 * other.dx as i128;
        let b: i128 = self.dy as i128 * other.dy as i128;
        a + b
    }
}

} // verus!

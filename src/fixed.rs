//! Fixed-point arithmetic: every continuous quantity is an integer number of
//! millionths, so `UNIT` stands for 1.0.
use vstd::prelude::*;

verus! {

/// The fixed-point representation of 1.0.
pub const UNIT: i64 = 1_000_000;

/// The largest coordinate magnitude for which distances are computed exactly.
pub const COORD_LIMIT: i64 = 0x2000_0000_0000_0000;

pub open spec fn clamp_spec(v: int, lo: int, hi: int) -> int {
    if v < lo {
        lo
    } else if v > hi {
        hi
    } else {
        v
    }
}

/// `v` saturated into the range of `i64`.
pub open spec fn saturate(v: int) -> int {
    clamp_spec(v, i64::MIN as int, i64::MAX as int)
}

/// `new` is `old` moved by at most `t` either way, saturated.
pub open spec fn shifted_within(old: i64, new: i64, t: int) -> bool {
    exists|d: int| -t <= d <= t && new == #[trigger] saturate(old + d)
}

/// Restricts `value` to `[min, max]`.
pub fn clamp(value: i64, min: i64, max: i64) -> (r: i64)
    requires
        min <= max,
    ensures
        r == clamp_spec(value as int, min as int, max as int),
{
    if value < min {
        min
    } else if value > max {
        max
    } else {
        value
    }
}

/// Narrows a wide intermediate result to `i64`, saturating at either end.
pub fn saturate_wide(v: i128) -> (r: i64)
    ensures
        r == saturate(v as int),
{
    if v < i64::MIN as i128 {
        i64::MIN
    } else if v > i64::MAX as i128 {
        i64::MAX
    } else {
        v as i64
    }
}

/// `r` is the integer square root of `n`, rounded down.
pub open spec fn is_floor_sqrt(n: int, r: int) -> bool {
    0 <= r && r * r <= n && n < (r + 1) * (r + 1)
}

/// The integer square root of `n`, rounded down, by bisection.
pub fn floor_sqrt(n: u128) -> (r: u128)
    requires
        n < 0x8000_0000_0000_0000_0000_0000_0000_0000,
    ensures
        is_floor_sqrt(n as int, r as int),
{
    let mut lo: u128 = 0;
    let mut hi: u128 = 0x1_0000_0000_0000_0000;
    assert(hi * hi == 0x1_0000_0000_0000_0000_0000_0000_0000_0000) by (nonlinear_arith)
        requires hi == 0x1_0000_0000_0000_0000u128;
    while hi - lo > 1
        invariant
            lo < hi <= 0x1_0000_0000_0000_0000,
            lo * lo <= n,
            n < hi * hi,
        decreases hi - lo,
    {
        let mid: u128 = lo + (hi - lo) / 2;
        assert(mid * mid <= 0xffff_ffff_ffff_fffe_0000_0000_0000_0001) by (nonlinear_arith)
            requires mid < 0x1_0000_0000_0000_0000u128;
        if mid * mid <= n {
            lo = mid;
        } else {
            hi = mid;
        }
    }
    assert(hi == lo + 1);
    lo
}

/// A point in three-dimensional space, in millionths.
#[derive(Clone, Copy, Debug)]
pub struct Position {
    pub x: i64,
    pub y: i64,
    pub z: i64,
}

pub open spec fn within_limit(c: i64) -> bool {
    -COORD_LIMIT <= c <= COORD_LIMIT
}

impl Position {
    pub fn new(x: i64, y: i64, z: i64) -> (r: Position)
        ensures
            r == (Position { x, y, z }),
    {
        Position { x, y, z }
    }

    /// Squared Euclidean distance between two points.
    pub open spec fn distance_squared(&self, other: &Position) -> int {
        let dx = self.x - other.x;
        let dy = self.y - other.y;
        let dz = self.z - other.z;
        dx * dx + dy * dy + dz * dz
    }

    /// Euclidean distance, rounded down to a whole number of millionths.
    pub fn distance(&self, other: &Position) -> (r: u128)
        requires
            within_limit(self.x) && within_limit(self.y) && within_limit(self.z),
            within_limit(other.x) && within_limit(other.y) && within_limit(other.z),
        ensures
            is_floor_sqrt(self.distance_squared(other), r as int),
    {
        let dx: i128 = self.x as i128 - other.x as i128;
        let dy: i128 = self.y as i128 - other.y as i128;
        let dz: i128 = self.z as i128 - other.z as i128;
        let ax: u128 = if dx < 0 { (-dx) as u128 } else { dx as u128 };
        let ay: u128 = if dy < 0 { (-dy) as u128 } else { dy as u128 };
        let az: u128 = if dz < 0 { (-dz) as u128 } else { dz as u128 };
        assert(ax * ax <= 0x1000_0000_0000_0000_0000_0000_0000_0000) by (nonlinear_arith)
            requires ax <= 0x4000_0000_0000_0000u128;
        assert(ay * ay <= 0x1000_0000_0000_0000_0000_0000_0000_0000) by (nonlinear_arith)
            requires ay <= 0x4000_0000_0000_0000u128;
        assert(az * az <= 0x1000_0000_0000_0000_0000_0000_0000_0000) by (nonlinear_arith)
            requires az <= 0x4000_0000_0000_0000u128;
        let sum: u128 = ax * ax + ay * ay + az * az;
        assert(sum == self.distance_squared(other)) by (nonlinear_arith)
            requires
                ax as int == (if dx < 0 { -dx } else { dx as int }),
                ay as int == (if dy < 0 { -dy } else { dy as int }),
                az as int == (if dz < 0 { -dz } else { dz as int }),
                dx == self.x - other.x,
                dy == self.y - other.y,
                dz == self.z - other.z,
                sum == ax * ax + ay * ay + az * az;
        floor_sqrt(sum)
    }
}

} // verus!

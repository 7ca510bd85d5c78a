//! Poses, rectangles and the mathematical regions they stand for.

use vstd::prelude::*;

verus! {

/// Position and heading of the actor. Headings are raw degrees: `0` and `360`
/// are different poses.
#[derive(Clone, Copy, Debug, Hash, PartialEq, Eq, PartialOrd, Ord, Structural)]
pub struct Pose {
    pub x: i32,
    pub y: i32,
    pub t: i32,
}

/// Axis-aligned rectangle given by its top-left corner and its extent.
#[derive(Clone, Copy, Debug, PartialEq, Eq)]
pub struct Rect {
    pub anchor: (i32, i32),
    pub size: (i32, i32),
}

/// A rectangle over the unbounded integers, borders included.
pub struct Region {
    pub x: int,
    pub y: int,
    pub w: int,
    pub h: int,
}

impl Region {
    /// Neither extent is negative.
    pub open spec fn well_formed(self) -> bool {
        self.w >= 0 && self.h >= 0
    }

    /// The two closed rectangles share at least a border point.
    pub open spec fn touches(self, other: Region) -> bool {
        &&& self.x <= other.x + other.w
        &&& other.x <= self.x + self.w
        &&& self.y <= other.y + other.h
        &&& other.y <= self.y + self.h
    }

    /// The two rectangles share interior area.
    pub open spec fn overlaps(self, other: Region) -> bool {
        &&& self.x < other.x + other.w
        &&& other.x < self.x + self.w
        &&& self.y < other.y + other.h
        &&& other.y < self.y + self.h
    }

    /// The rectangle grown by one unit on every side.
    pub open spec fn inflated(self) -> Region {
        Region { x: self.x - 1, y: self.y - 1, w: self.w + 2, h: self.h + 2 }
    }

    /// Every point of `other` is a point of `self`.
    pub open spec fn contains(self, other: Region) -> bool {
        &&& self.x <= other.x
        &&& self.y <= other.y
        &&& other.x + other.w <= self.x + self.w
        &&& other.y + other.h <= self.y + self.h
    }
}

impl Rect {
    /// The region that the rectangle covers.
    pub open spec fn region(self) -> Region {
        Region {
            x: self.anchor.0 as int,
            y: self.anchor.1 as int,
            w: self.size.0 as int,
            h: self.size.1 as int,
        }
    }

    /// Neither extent is negative.
    pub open spec fn well_formed(self) -> bool {
        self.region().well_formed()
    }
}

/// Touching is symmetric.
pub proof fn lemma_touches_symmetric(a: Region, b: Region)
    ensures
        a.touches(b) == b.touches(a),
{
}

/// Growing one rectangle by a unit turns touching into overlapping.
pub proof fn lemma_inflated_overlap_is_touch(a: Region, b: Region)
    ensures
        a.inflated().overlaps(b) == a.touches(b),
{
}

/// Square of the straight-line distance between the positions of two poses;
/// the headings play no part.
pub open spec fn dist_sq(a: Pose, b: Pose) -> int {
    (a.x - b.x) * (a.x - b.x) + (a.y - b.y) * (a.y - b.y)
}

/// The quotient of `n` by a positive `d`, rounded toward zero.
pub open spec fn quotient_toward_zero(n: int, d: int) -> int {
    if n >= 0 {
        n / d
    } else {
        -((-n) / d)
    }
}

/// `r` is the root of `n`, rounded down.
pub open spec fn is_floor_sqrt(r: int, n: int) -> bool {
    0 <= r && r * r <= n < (r + 1) * (r + 1)
}

/// The square root of `n`, rounded down.
pub open spec fn floor_sqrt(n: int) -> int {
    choose|r: int| is_floor_sqrt(r, n)
}

/// Largest argument of [`isqrt`].
pub const ISQRT_LIMIT: u128 = 0x3fff_ffff_ffff_ffff_ffff_ffff_ffff_ffff;

/// Squaring keeps the order of the naturals.
pub proof fn lemma_square_monotone(a: int, b: int)
    requires
        0 <= a <= b,
    ensures
        a * a <= b * b,
{
    assert(a * a <= b * b) by (nonlinear_arith)
        requires
            0 <= a <= b,
    ;
}

/// A number has one rounded-down root only.
pub proof fn lemma_floor_sqrt_unique(r: int, n: int)
    requires
        is_floor_sqrt(r, n),
    ensures
        floor_sqrt(n) == r,
{
    let c = floor_sqrt(n);
    if c < r {
        lemma_square_monotone(c + 1, r);
    } else if r < c {
        lemma_square_monotone(r + 1, c);
    }
}

/// The squared distance is the same in both directions and never negative.
pub proof fn lemma_dist_sq_symmetric(a: Pose, b: Pose)
    ensures
        dist_sq(a, b) == dist_sq(b, a),
        dist_sq(a, b) >= 0,
        (dist_sq(a, b) == 0) == (a.x == b.x && a.y == b.y),
{
    let dx = a.x - b.x;
    let dy = a.y - b.y;
    assert(dx * dx == (-dx) * (-dx)) by (nonlinear_arith);
    assert(dy * dy == (-dy) * (-dy)) by (nonlinear_arith);
    assert(dx * dx >= 0 && (dx * dx == 0) == (dx == 0)) by (nonlinear_arith);
    assert(dy * dy >= 0 && (dy * dy == 0) == (dy == 0)) by (nonlinear_arith);
}

/// Every natural has a rounded-down root.
pub proof fn lemma_floor_sqrt_exists(n: int)
    requires
        n >= 0,
    ensures
        is_floor_sqrt(floor_sqrt(n), n),
    decreases n,
{
    if n == 0 {
        assert(is_floor_sqrt(0, 0));
    } else {
        lemma_floor_sqrt_exists(n - 1);
        let r = floor_sqrt(n - 1);
        if (r + 1) * (r + 1) <= n {
            assert((r + 2) * (r + 2) > n) by (nonlinear_arith)
                requires
                    r >= 0,
                    n - 1 < (r + 1) * (r + 1),
            ;
            lemma_floor_sqrt_unique(r + 1, n);
        } else {
            lemma_floor_sqrt_unique(r, n);
        }
    }
}

/// The rounded-down length of a straight piece is a natural below
/// `3 * 2^31`, and it is zero just where the two positions are the same.
pub proof fn lemma_piece_bound(a: Pose, b: Pose)
    ensures
        0 <= floor_sqrt(dist_sq(a, b)) <= 0x1_8000_0000,
        (floor_sqrt(dist_sq(a, b)) == 0) == (a.x == b.x && a.y == b.y),
{
    let n = dist_sq(a, b);
    lemma_dist_sq_symmetric(a, b);
    let dx = a.x - b.x;
    let dy = a.y - b.y;
    assert(dx * dx <= 0x1_0000_0000 * 0x1_0000_0000) by (nonlinear_arith)
        requires
            -0x1_0000_0000 <= dx <= 0x1_0000_0000,
    ;
    assert(dy * dy <= 0x1_0000_0000 * 0x1_0000_0000) by (nonlinear_arith)
        requires
            -0x1_0000_0000 <= dy <= 0x1_0000_0000,
    ;
    lemma_floor_sqrt_exists(n);
    let r = floor_sqrt(n);
    if r > 0x1_8000_0000 {
        assert(r * r > 0x1_8000_0000 * 0x1_8000_0000) by (nonlinear_arith)
            requires
                r > 0x1_8000_0000,
        ;
    }
    if n == 0 {
        assert(r == 0) by (nonlinear_arith)
            requires
                r >= 0,
                r * r <= 0,
        ;
    } else {
        if r == 0 {
            assert((r + 1) * (r + 1) == 1) by (nonlinear_arith)
                requires
                    r == 0,
            ;
        }
    }
}

/// Computes [`dist_sq`].
pub fn squared_distance(a: &Pose, b: &Pose) -> (d: u128)
    ensures
        d == dist_sq(*a, *b),
        d <= 0x2_0000_0000_0000_0000,
{
    let ax = a.x as i64;
    let bx = b.x as i64;
    let ay = a.y as i64;
    let by = b.y as i64;
    let dx: u64 = if ax >= bx { (ax - bx) as u64 } else { (bx - ax) as u64 };
    let dy: u64 = if ay >= by { (ay - by) as u64 } else { (by - ay) as u64 };
    proof {
        lemma_square_monotone(dx as int, 0x1_0000_0000);
        lemma_square_monotone(dy as int, 0x1_0000_0000);
        let sx = a.x - b.x;
        let sy = a.y - b.y;
        assert(sx * sx == (-sx) * (-sx)) by (nonlinear_arith);
        assert(sy * sy == (-sy) * (-sy)) by (nonlinear_arith);
    }
    (dx as u128) * (dx as u128) + (dy as u128) * (dy as u128)
}

/// The square root of `n`, rounded down.
pub fn isqrt(n: u128) -> (r: u64)
    requires
        n <= ISQRT_LIMIT,
    ensures
        r == floor_sqrt(n as int),
        is_floor_sqrt(r as int, n as int),
{
    let mut lo: u128 = 0;
    let mut hi: u128 = 0x8000_0000_0000_0000;
    while hi - lo > 1
        invariant
            lo < hi <= 0x8000_0000_0000_0000,
            lo * lo <= n < hi * hi,
        decreases hi - lo,
    {
        let mid: u128 = lo + (hi - lo) / 2;
        proof {
            lemma_square_monotone(mid as int, 0x8000_0000_0000_0000);
        }
        if mid * mid <= n {
            lo = mid;
        } else {
            hi = mid;
        }
    }
    proof {
        lemma_floor_sqrt_unique(lo as int, n as int);
    }
    lo as u64
}

/// Straight-line distance between the positions of two poses, rounded down
/// to whole units.
pub fn euclid_dist(from: &Pose, to: &Pose) -> (d: u64)
    ensures
        d == floor_sqrt(dist_sq(*from, *to)),
        d <= 0x1_8000_0000,
{
    let d = isqrt(squared_distance(from, to));
    proof {
        if d > 0x1_8000_0000 {
            lemma_square_monotone(0x1_8000_0000, d as int);
        }
    }
    d
}

} // verus!

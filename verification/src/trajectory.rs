//! Trajectories: a path laid out along its own length. Each component of
//! the pose becomes a curve of keyframes, keyed by the distance travelled,
//! and is read back between keyframes by linear interpolation.

use vstd::prelude::*;
use vstd::arithmetic::div_mod::{lemma_div_by_multiple, lemma_div_is_ordered};
use crate::geometry::{
    dist_sq, euclid_dist, floor_sqrt, lemma_dist_sq_symmetric, lemma_piece_bound, quotient_toward_zero, Pose,
};

verus! {

/// A value that a curve takes at a distance along the path.
#[derive(Clone, Copy, Debug, PartialEq, Eq, Structural)]
pub struct Keyframe {
    pub t: u64,
    pub value: i32,
}

/// Keyframes in the order of their distances; equal distances may follow
/// each other.
pub struct Curve {
    keys: Vec<Keyframe>,
}

/// Most waypoints that a path may have to be laid out as a trajectory: the
/// distances along it then fit their type.
pub const MAX_WAYPOINTS: usize = 0x8000_0000;

/// No keyframe lies before an earlier one.
pub open spec fn sorted(keys: Seq<Keyframe>) -> bool {
    forall|i: int, j: int| 0 <= i <= j < keys.len() ==> keys[i].t <= keys[j].t
}

/// The value at `s` on the straight line from keyframe `a` to a later
/// keyframe `b`, rounded toward zero.
pub open spec fn blend(a: Keyframe, b: Keyframe, s: int) -> int {
    quotient_toward_zero(a.value * (b.t - s) + b.value * (s - a.t), b.t - a.t)
}

/// Keyframe `i` is the last one that lies at or before `s`.
pub open spec fn holds_segment(keys: Seq<Keyframe>, s: int, i: int) -> bool {
    &&& 0 <= i < keys.len()
    &&& keys[i].t <= s
    &&& i + 1 < keys.len() ==> s < keys[i + 1].t
}

/// The value of the curve at `s`: nothing where there are no keyframes, the
/// first value before the first keyframe, the last value from the last
/// keyframe on, and between two keyframes their blend.
pub open spec fn sample_of(keys: Seq<Keyframe>, s: int) -> Option<int> {
    if keys.len() == 0 {
        None
    } else if s < keys[0].t {
        Some(keys[0].value as int)
    } else {
        let i = choose|i: int| holds_segment(keys, s, i);
        if i + 1 < keys.len() {
            Some(blend(keys[i], keys[i + 1], s))
        } else {
            Some(keys[i].value as int)
        }
    }
}

/// Distance along the path from its first waypoint to waypoint `i`, each
/// straight piece rounded down to whole units.
pub open spec fn arc_length(path: Seq<Pose>, i: int) -> int
    decreases i,
{
    if i <= 0 {
        0
    } else {
        arc_length(path, i - 1) + floor_sqrt(dist_sq(path[i - 1], path[i]))
    }
}

/// The keyframes of the curve of `x` along the path.
pub open spec fn x_keys(path: Seq<Pose>) -> Seq<Keyframe> {
    Seq::new(path.len(), |i: int| Keyframe { t: arc_length(path, i) as u64, value: path[i].x })
}

/// The keyframes of the curve of `y` along the path.
pub open spec fn y_keys(path: Seq<Pose>) -> Seq<Keyframe> {
    Seq::new(path.len(), |i: int| Keyframe { t: arc_length(path, i) as u64, value: path[i].y })
}

/// The keyframes of the curve of the heading along the path.
pub open spec fn heading_keys(path: Seq<Pose>) -> Seq<Keyframe> {
    Seq::new(path.len(), |i: int| Keyframe { t: arc_length(path, i) as u64, value: path[i].t })
}

/// The pose at distance `s` along the path, where the path has waypoints.
pub open spec fn pose_along(path: Seq<Pose>, s: int) -> Option<Pose> {
    match (sample_of(x_keys(path), s), sample_of(y_keys(path), s), sample_of(heading_keys(path), s)) {
        (Some(x), Some(y), Some(t)) => Some(Pose { x: x as i32, y: y as i32, t: t as i32 }),
        _ => None,
    }
}

/// A quotient is bounded as its numerator is.
pub proof fn lemma_quotient_bound(n: int, d: int, m: int)
    requires
        d > 0,
        0 <= n <= m * d,
    ensures
        0 <= n / d <= m,
{
    assert(m >= 0) by (nonlinear_arith)
        requires
            d > 0,
            0 <= m * d,
    ;
    lemma_div_is_ordered(0, n, d);
    lemma_div_is_ordered(n, m * d, d);
    lemma_div_by_multiple(m, d);
}

/// Only one keyframe of a sorted curve is the last at or before `s`.
pub proof fn lemma_segment_unique(keys: Seq<Keyframe>, s: int, i: int)
    requires
        sorted(keys),
        holds_segment(keys, s, i),
    ensures
        (choose|k: int| holds_segment(keys, s, k)) == i,
{
}

/// The distance along the path never falls from one waypoint to a later one,
/// and grows by no more than `3 * 2^31` from one waypoint to the next.
pub proof fn lemma_arc_length_monotone(path: Seq<Pose>, i: int, j: int)
    requires
        0 <= i <= j < path.len(),
    ensures
        0 <= arc_length(path, i) <= arc_length(path, j),
        arc_length(path, j) <= j * 0x1_8000_0000,
    decreases j,
{
    if j > 0 {
        lemma_dist_sq_symmetric(path[j - 1], path[j]);
        lemma_piece_bound(path[j - 1], path[j]);
        if i < j {
            lemma_arc_length_monotone(path, i, j - 1);
        } else {
            lemma_arc_length_monotone(path, j - 1, j - 1);
        }
    }
}

/// A curve read exactly at a keyframe gives that keyframe's value, where
/// every later keyframe at the same distance has that value too.
pub proof fn lemma_sample_at_keyframe(keys: Seq<Keyframe>, j: int)
    requires
        sorted(keys),
        0 <= j < keys.len(),
        forall|k: int| j < k < keys.len() && keys[k].t == keys[j].t ==> keys[k].value == keys[j].value,
    ensures
        sample_of(keys, keys[j].t as int) == Some(keys[j].value as int),
    decreases keys.len() - j,
{
    let s = keys[j].t as int;
    if j + 1 < keys.len() && keys[j + 1].t == keys[j].t {
        lemma_sample_at_keyframe(keys, j + 1);
    } else {
        lemma_segment_unique(keys, s, j);
        if j + 1 < keys.len() {
            let a = keys[j];
            let b = keys[j + 1];
            let d = b.t - a.t;
            if a.value >= 0 {
                lemma_div_by_multiple(a.value as int, d);
            } else {
                assert(a.value * d < 0 && -(a.value * d) == (-a.value) * d) by (nonlinear_arith)
                    requires
                        a.value < 0,
                        d > 0,
                ;
                lemma_div_by_multiple(-a.value, d);
            }
        }
    }
}

/// A curve read before its first keyframe gives the first value, and read
/// at or after its last keyframe gives the last value.
pub proof fn lemma_sample_clamps(keys: Seq<Keyframe>, s: int)
    requires
        sorted(keys),
        keys.len() > 0,
    ensures
        s < keys[0].t ==> sample_of(keys, s) == Some(keys[0].value as int),
        s >= keys.last().t ==> sample_of(keys, s) == Some(keys.last().value as int),
{
    if s >= keys.last().t {
        let last = keys.len() - 1;
        lemma_segment_unique(keys, s, last);
    }
}

/// Between two keyframes the curve stays between their values.
pub proof fn lemma_blend_between(a: Keyframe, b: Keyframe, s: int)
    requires
        a.t <= s < b.t,
    ensures
        a.value <= b.value ==> a.value <= blend(a, b, s) <= b.value,
        b.value <= a.value ==> b.value <= blend(a, b, s) <= a.value,
{
    let wa = b.t - s;
    let wb = s - a.t;
    let d = b.t - a.t;
    let n = a.value * wa + b.value * wb;
    let lo: int = if a.value <= b.value { a.value as int } else { b.value as int };
    let hi: int = if a.value <= b.value { b.value as int } else { a.value as int };
    assert(lo * d <= n <= hi * d) by (nonlinear_arith)
        requires
            wa > 0,
            wb >= 0,
            d == wa + wb,
            n == a.value * wa + b.value * wb,
            lo <= a.value <= hi,
            lo <= b.value <= hi,
    ;
    if n >= 0 {
        lemma_quotient_bound(n, d, hi);
        if lo > 0 {
            lemma_div_is_ordered(lo * d, n, d);
            lemma_div_by_multiple(lo, d);
        }
    } else {
        assert(0 <= -n <= (-lo) * d) by (nonlinear_arith)
            requires
                lo * d <= n,
                n < 0,
        ;
        lemma_quotient_bound(-n, d, -lo);
        if hi < 0 {
            assert((-hi) * d <= -n) by (nonlinear_arith)
                requires
                    n <= hi * d,
            ;
            lemma_div_is_ordered((-hi) * d, -n, d);
            lemma_div_by_multiple(-hi, d);
        }
    }
}

/// The three curves of a path are sorted.
pub proof fn lemma_path_keys_sorted(path: Seq<Pose>)
    requires
        path.len() <= MAX_WAYPOINTS,
    ensures
        sorted(x_keys(path)),
        sorted(y_keys(path)),
        sorted(heading_keys(path)),
        forall|i: int| 0 <= i < path.len() ==> 0 <= #[trigger] arc_length(path, i) <= u64::MAX,
{
    assert forall|i: int| 0 <= i < path.len() implies 0 <= #[trigger] arc_length(path, i) <= u64::MAX by {
        lemma_arc_length_monotone(path, i, i);
    }
    assert forall|i: int, j: int| 0 <= i <= j < path.len() implies arc_length(path, i) as u64 <= arc_length(
        path,
        j,
    ) as u64 by {
        lemma_arc_length_monotone(path, i, j);
    }
}

/// Waypoints at the same distance along the path stand at the same
/// position.
pub proof fn lemma_same_distance_same_position(path: Seq<Pose>, j: int, k: int)
    requires
        0 <= j <= k < path.len(),
        arc_length(path, j) == arc_length(path, k),
    ensures
        path[j].x == path[k].x,
        path[j].y == path[k].y,
    decreases k - j,
{
    if j < k {
        lemma_arc_length_monotone(path, j, k - 1);
        lemma_piece_bound(path[k - 1], path[k]);
        lemma_same_distance_same_position(path, j, k - 1);
    }
}

/// A trajectory read at the distance of a waypoint gives that waypoint,
/// where every later waypoint at the same distance has the same heading.
pub proof fn lemma_pose_at_waypoint(path: Seq<Pose>, j: int)
    requires
        path.len() <= MAX_WAYPOINTS,
        0 <= j < path.len(),
        forall|k: int|
            j < k < path.len() && arc_length(path, k) == arc_length(path, j) ==> path[k].t == path[j].t,
    ensures
        pose_along(path, arc_length(path, j)) == Some(path[j]),
{
    lemma_path_keys_sorted(path);
    lemma_position_at_waypoint(path, j);
    lemma_sample_at_keyframe(heading_keys(path), j);
}

/// A trajectory read at the distance of a waypoint gives that waypoint's
/// position, whatever stands before or after it.
pub proof fn lemma_position_at_waypoint(path: Seq<Pose>, j: int)
    requires
        path.len() <= MAX_WAYPOINTS,
        0 <= j < path.len(),
    ensures
        sample_of(x_keys(path), arc_length(path, j)) == Some(path[j].x as int),
        sample_of(y_keys(path), arc_length(path, j)) == Some(path[j].y as int),
{
    lemma_path_keys_sorted(path);
    assert forall|k: int| j < k < path.len() && x_keys(path)[k].t == x_keys(path)[j].t implies x_keys(
        path,
    )[k].value == x_keys(path)[j].value by {
        lemma_same_distance_same_position(path, j, k);
    }
    assert forall|k: int| j < k < path.len() && y_keys(path)[k].t == y_keys(path)[j].t implies y_keys(
        path,
    )[k].value == y_keys(path)[j].value by {
        lemma_same_distance_same_position(path, j, k);
    }
    lemma_sample_at_keyframe(x_keys(path), j);
    lemma_sample_at_keyframe(y_keys(path), j);
}

impl Curve {
    /// Every curve is sorted.
    #[verifier::type_invariant]
    spec fn in_order(&self) -> bool {
        sorted(self.keys@)
    }

    /// The keyframes of the curve.
    pub closed spec fn view(&self) -> Seq<Keyframe> {
        self.keys@
    }

    /// The curve of the given keyframes, where they are in order.
    pub fn from_keys(keys: Vec<Keyframe>) -> (curve: Option<Curve>)
        ensures
            sorted(keys@) == curve is Some,
            curve is Some ==> curve->0@ == keys@,
    {
        let mut i: usize = 1;
        while i < keys.len()
            invariant
                1 <= i,
                forall|a: int, b: int| 0 <= a <= b < i && b < keys@.len() ==> keys@[a].t <= keys@[b].t,
            decreases keys@.len() - i,
        {
            if keys[i - 1].t > keys[i].t {
                return None;
            }
            i = i + 1;
        }
        Some(Curve { keys })
    }

    /// Number of keyframes.
    pub fn len(&self) -> (n: usize)
        ensures
            n == self@.len(),
            sorted(self@),
    {
        proof {
            use_type_invariant(self);
        }
        self.keys.len()
    }

    /// The keyframe at position `i`.
    pub fn key(&self, i: usize) -> (k: Keyframe)
        requires
            i < self@.len(),
        ensures
            k == self@[i as int],
    {
        self.keys[i]
    }

    /// The value of the curve at distance `s`.
    pub fn clamped_sample(&self, s: u64) -> (v: Option<i32>)
        ensures
            sample_of(self@, s as int) == match v {
                Some(x) => Some(x as int),
                None => None,
            },
    {
        proof {
            use_type_invariant(self);
        }
        let n = self.keys.len();
        if n == 0 {
            return None;
        }
        if s < self.keys[0].t {
            return Some(self.keys[0].value);
        }
        let mut lo: usize = 0;
        let mut hi: usize = n;
        while hi - lo > 1
            invariant
                n == self.keys@.len(),
                sorted(self.keys@),
                lo < hi <= n,
                self.keys@[lo as int].t <= s,
                hi < n ==> s < self.keys@[hi as int].t,
            decreases hi - lo,
        {
            let mid = lo + (hi - lo) / 2;
            if self.keys[mid].t <= s {
                lo = mid;
            } else {
                hi = mid;
            }
        }
        proof {
            lemma_segment_unique(self@, s as int, lo as int);
        }
        if lo + 1 < n {
            Some(blend_keys(self.keys[lo], self.keys[lo + 1], s))
        } else {
            Some(self.keys[lo].value)
        }
    }
}

/// Computes [`blend`].
pub fn blend_keys(a: Keyframe, b: Keyframe, s: u64) -> (v: i32)
    requires
        a.t <= s < b.t,
    ensures
        v == blend(a, b, s as int),
{
    let wa: u128 = (b.t - s) as u128;
    let wb: u128 = (s - a.t) as u128;
    let d: u128 = (b.t - a.t) as u128;
    let ma: u128 = if a.value >= 0 { a.value as u128 } else { (-(a.value as i64)) as u128 };
    let mb: u128 = if b.value >= 0 { b.value as u128 } else { (-(b.value as i64)) as u128 };
    proof {
        assert(ma * wa <= 0x8000_0000 * 0x1_0000_0000_0000_0000) by (nonlinear_arith)
            requires
                0 <= ma <= 0x8000_0000,
                0 <= wa <= 0x1_0000_0000_0000_0000,
        ;
        assert(mb * wb <= 0x8000_0000 * 0x1_0000_0000_0000_0000) by (nonlinear_arith)
            requires
                0 <= mb <= 0x8000_0000,
                0 <= wb <= 0x1_0000_0000_0000_0000,
        ;
        assert(a.value * wa == (if a.value >= 0 { ma * wa } else { -(ma * wa) })) by (nonlinear_arith)
            requires
                ma == (if a.value >= 0 { a.value as int } else { -(a.value as int) }),
        ;
        assert(b.value * wb == (if b.value >= 0 { mb * wb } else { -(mb * wb) })) by (nonlinear_arith)
            requires
                mb == (if b.value >= 0 { b.value as int } else { -(b.value as int) }),
        ;
        lemma_blend_between(a, b, s as int);
    }
    let pa = ma * wa;
    let pb = mb * wb;
    let up: u128 = (if a.value >= 0 { pa } else { 0 }) + (if b.value >= 0 { pb } else { 0 });
    let down: u128 = (if a.value >= 0 { 0 } else { pa }) + (if b.value >= 0 { 0 } else { pb });
    if up >= down {
        let q = (up - down) / d;
        q as i32
    } else {
        let q = (down - up) / d;
        (-(q as i64)) as i32
    }
}

/// Lays a path out as three curves, of `x`, of `y` and of the heading, each
/// with one keyframe per waypoint at the waypoint's distance along the path.
pub fn build_spline(path: &Vec<Pose>) -> (curves: (Curve, Curve, Curve))
    requires
        path@.len() <= MAX_WAYPOINTS,
    ensures
        curves.0@ == x_keys(path@),
        curves.1@ == y_keys(path@),
        curves.2@ == heading_keys(path@),
{
    let mut xs: Vec<Keyframe> = Vec::new();
    let mut ys: Vec<Keyframe> = Vec::new();
    let mut ts: Vec<Keyframe> = Vec::new();
    let mut dist: u64 = 0;
    let mut i: usize = 0;
    proof {
        lemma_path_keys_sorted(path@);
    }
    while i < path.len()
        invariant
            path@.len() <= MAX_WAYPOINTS,
            i <= path@.len(),
            i > 0 ==> dist == arc_length(path@, i - 1),
            i == 0 ==> dist == 0,
            xs@ == x_keys(path@).take(i as int),
            ys@ == y_keys(path@).take(i as int),
            ts@ == heading_keys(path@).take(i as int),
            forall|k: int| 0 <= k < path@.len() ==> 0 <= #[trigger] arc_length(path@, k) <= u64::MAX,
        decreases path@.len() - i,
    {
        let pose = path[i];
        if i > 0 {
            let piece = euclid_dist(&path[i - 1], &pose);
            assert(arc_length(path@, i as int) == arc_length(path@, i - 1) + piece);
            dist = dist + piece;
        }
        xs.push(Keyframe { t: dist, value: pose.x });
        ys.push(Keyframe { t: dist, value: pose.y });
        ts.push(Keyframe { t: dist, value: pose.t });
        i = i + 1;
    }
    (Curve { keys: xs }, Curve { keys: ys }, Curve { keys: ts })
}

} // verus!

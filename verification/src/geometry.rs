//! The plane model shared by both fractals: exact points in Z[sqrt(3)],
//! the depth bound, and the error for an out-of-range depth request.

use vstd::prelude::*;

verus! {

/// Greatest recursion depth either fractal cache accepts.
pub const MAX_DEPTH: u32 = 10;

/// A point of the plane with exact coordinates in Z[sqrt(3)].
///
/// The numerators are read against a scale that the owning fractal fixes:
/// `x = (xa + xb * sqrt(3)) / denom` and `y = (ya + yb * sqrt(3)) / denom`.
/// The Koch cache uses the denominator `15 * 6^d` for the level of depth
/// `d`; the Sierpinski cache uses the fixed denominator `15 * 2^10`.
#[derive(Clone, Copy, PartialEq, Eq, Structural, Debug)]
pub struct Point {
    pub xa: i64,
    pub xb: i64,
    pub ya: i64,
    pub yb: i64,
}

/// A depth outside the supported range `0 ..= MAX_DEPTH`, or one that the
/// cache was never asked to ensure. The UI layer clamps before calling, so
/// in normal operation this condition is unreachable.
#[derive(Clone, Copy, PartialEq, Eq, Structural, Debug)]
pub struct InvalidDepth;

/// The mathematical value of a `Point`: the same four numerators as
/// unbounded integers.
pub struct PointModel {
    pub xa: int,
    pub xb: int,
    pub ya: int,
    pub yb: int,
}

impl View for Point {
    type V = PointModel;

    open spec fn view(&self) -> PointModel {
        PointModel { xa: self.xa as int, xb: self.xb as int, ya: self.ya as int, yb: self.yb as int }
    }
}

/// The mathematical value of a sequence of points.
pub open spec fn points_model(s: Seq<Point>) -> Seq<PointModel> {
    Seq::new(s.len(), |i: int| s[i]@)
}

/// All four numerators of `p` lie within `[-m, m]`.
pub open spec fn point_bounded(p: PointModel, m: int) -> bool {
    &&& -m <= p.xa <= m
    &&& -m <= p.xb <= m
    &&& -m <= p.ya <= m
    &&& -m <= p.yb <= m
}

/// Every point of `s` is bounded by `m`.
pub open spec fn points_bounded(s: Seq<PointModel>, m: int) -> bool {
    forall|i: int| 0 <= i < s.len() ==> point_bounded(#[trigger] s[i], m)
}

} // verus!

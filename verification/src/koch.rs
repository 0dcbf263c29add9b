//! The Koch snowflake family: the subdivision rule for the convex
//! (snowflake) and concave (antisnowflake) variants, the canonical level
//! geometry per depth, and the incremental level cache.
//!
//! A level of depth `d` is a closed polyline whose points carry numerators
//! over the denominator `15 * 6^d`: one subdivision step multiplies the
//! scale by 6, so the third-points (denominator 3) and the apex offset by
//! `1 / (2 * sqrt(3))` (denominator `2 * sqrt(3) = 6 / sqrt(3)`) stay
//! exact integers.

use vstd::prelude::*;

verus! {

use vstd::arithmetic::power::pow;
use crate::geometry::{Point, PointModel, points_model, point_bounded, points_bounded, InvalidDepth, MAX_DEPTH};

/// Which way the apex of each replaced edge is displaced: outward for the
/// snowflake, inward for the antisnowflake.
#[derive(Clone, Copy, PartialEq, Eq, Structural, Debug)]
pub enum KochVariant {
    Snowflake,
    Antisnowflake,
}

/// The seed polyline of depth 0: an equilateral triangle
/// `(-0.8, -0.8/sqrt(3))`, `(0.8, -0.8/sqrt(3))`, `(0, 1.6/sqrt(3))`,
/// as numerators over the denominator 15.
pub open spec fn koch_seed() -> Seq<PointModel> {
    seq![
        PointModel { xa: -12, xb: 0, ya: 0, yb: -4 },
        PointModel { xa: 12, xb: 0, ya: 0, yb: -4 },
        PointModel { xa: 0, xb: 0, ya: 0, yb: 8 },
    ]
}

/// `p` rescaled from the denominator of its level to the denominator of
/// the next level, 6 times as large.
pub open spec fn rescaled(p: PointModel) -> PointModel {
    PointModel { xa: 6 * p.xa, xb: 6 * p.xb, ya: 6 * p.ya, yb: 6 * p.yb }
}

/// The point one third of the way from `a` to `b`, that is `(2a + b) / 3`,
/// as numerators over the next level's denominator.
pub open spec fn third_point(a: PointModel, b: PointModel) -> PointModel {
    PointModel {
        xa: 2 * (2 * a.xa + b.xa),
        xb: 2 * (2 * a.xb + b.xb),
        ya: 2 * (2 * a.ya + b.ya),
        yb: 2 * (2 * a.yb + b.yb),
    }
}

/// The midpoint of the edge `(s, e)`, as numerators over the next level's
/// denominator.
pub open spec fn edge_midpoint(s: PointModel, e: PointModel) -> PointModel {
    PointModel {
        xa: 3 * (s.xa + e.xa),
        xb: 3 * (s.xb + e.xb),
        ya: 3 * (s.ya + e.ya),
        yb: 3 * (s.yb + e.yb),
    }
}

/// The perpendicular offset of the apex over the edge `(s, e)`: the edge
/// direction rotated a quarter turn and scaled by `1 / (2 * sqrt(3))`,
/// that is `((e.y - s.y) / (2*sqrt(3)), (s.x - e.x) / (2*sqrt(3)))`,
/// as numerators over the next level's denominator. Multiplying a
/// numerator pair `(a, b)` by `sqrt(3)` gives the pair `(3b, a)`.
pub open spec fn apex_offset(s: PointModel, e: PointModel) -> PointModel {
    PointModel {
        xa: 3 * (e.yb - s.yb),
        xb: e.ya - s.ya,
        ya: 3 * (s.xb - e.xb),
        yb: s.xa - e.xa,
    }
}

/// The equilateral apex over the edge `(s, e)`: the edge midpoint
/// displaced perpendicular to the edge, outward for the snowflake and
/// inward for the antisnowflake.
pub open spec fn apex(s: PointModel, e: PointModel, variant: KochVariant) -> PointModel {
    let m = edge_midpoint(s, e);
    let o = apex_offset(s, e);
    match variant {
        KochVariant::Snowflake => PointModel {
            xa: m.xa + o.xa,
            xb: m.xb + o.xb,
            ya: m.ya + o.ya,
            yb: m.yb + o.yb,
        },
        KochVariant::Antisnowflake => PointModel {
            xa: m.xa - o.xa,
            xb: m.xb - o.xb,
            ya: m.ya - o.ya,
            yb: m.yb - o.yb,
        },
    }
}

/// The `k`-th of the four points that replace the edge `(s, e)`: the start
/// point, the inner third-point, the apex, the outer third-point. The edge's
/// end point is not emitted; it starts the next edge's replacement.
pub open spec fn edge_point(s: PointModel, e: PointModel, variant: KochVariant, k: int) -> PointModel {
    if k == 0 {
        rescaled(s)
    } else if k == 1 {
        third_point(s, e)
    } else if k == 2 {
        apex(s, e, variant)
    } else {
        third_point(e, s)
    }
}

/// One subdivision step: every edge of the closed polyline `level`
/// (edge `i` runs from point `i` to point `i + 1`, the last edge wraps
/// around to point 0) is replaced by its four points, in edge order.
pub open spec fn koch_step(level: Seq<PointModel>, variant: KochVariant) -> Seq<PointModel> {
    Seq::new(
        4 * level.len(),
        |j: int|
            edge_point(
                level[j / 4],
                level[if j / 4 + 1 == level.len() { 0int } else { j / 4 + 1 }],
                variant,
                j % 4,
            ),
    )
}

/// The canonical level of depth `d`: the seed subdivided `d` times.
pub open spec fn koch_level(variant: KochVariant, d: nat) -> Seq<PointModel>
    decreases d,
{
    if d == 0 {
        koch_seed()
    } else {
        koch_step(koch_level(variant, (d - 1) as nat), variant)
    }
}

/// Numerators of a level of depth `d` never leave `[-pow(12, d + 1), pow(12, d + 1)]`:
/// the seed numerators lie within `[-12, 12]`, and one subdivision step at
/// most multiplies the largest numerator by 12.
pub open spec fn koch_bound(d: nat) -> int {
    pow(12, d + 1)
}

/// One subdivision step keeps numerators within 12 times the input bound.
pub proof fn lemma_koch_step_bounded(level: Seq<PointModel>, variant: KochVariant, m: int)
    requires
        points_bounded(level, m),
        m >= 0,
    ensures
        points_bounded(koch_step(level, variant), 12 * m),
{
    let stepped = koch_step(level, variant);
    assert forall|j: int| 0 <= j < stepped.len() implies point_bounded(#[trigger] stepped[j], 12 * m) by {
        let i = j / 4;
        assert(0 <= i < level.len());
        let n = if i + 1 == level.len() { 0int } else { i + 1 };
        assert(point_bounded(level[i], m));
        assert(point_bounded(level[n], m));
    }
}

/// The canonical level of depth `d` is bounded by `koch_bound(d)`.
pub proof fn lemma_koch_level_bounded(variant: KochVariant, d: nat)
    ensures
        points_bounded(koch_level(variant, d), koch_bound(d)),
    decreases d,
{
    vstd::arithmetic::power::lemma_pow1(12);
    if d == 0 {
        vstd::arithmetic::power::lemma_pow0(12);
        assert(koch_bound(0) == 12);
    } else {
        lemma_koch_level_bounded(variant, (d - 1) as nat);
        vstd::arithmetic::power::lemma_pow_positive(12, d);
        lemma_koch_step_bounded(koch_level(variant, (d - 1) as nat), variant, koch_bound((d - 1) as nat));
        assert(pow(12, d + 1) == 12 * pow(12, d)) by {
            vstd::arithmetic::power::lemma_pow_adds(12, 1, d);
        }
    }
}

/// A bound on a point sequence weakens to any larger bound.
pub proof fn lemma_points_bounded_le(s: Seq<PointModel>, m1: int, m2: int)
    requires
        points_bounded(s, m1),
        m1 <= m2,
    ensures
        points_bounded(s, m2),
{
}

/// The concrete value of the largest input bound the subdivision step
/// accepts, `pow(12, MAX_DEPTH)`.
pub proof fn lemma_koch_input_bound_value()
    ensures
        pow(12, MAX_DEPTH as nat) == 61917364224,
{
    reveal_with_fuel(pow, 11);
}

/// A level of depth `d` has exactly `3 * 4^d` points.
pub proof fn lemma_koch_level_len(variant: KochVariant, d: nat)
    ensures
        koch_level(variant, d).len() == 3 * pow(4, d),
    decreases d,
{
    vstd::arithmetic::power::lemma_pow_positive(4, d);
    if d == 0 {
        assert(pow(4, 0) == 1) by {
            vstd::arithmetic::power::lemma_pow0(4);
        }
    } else {
        lemma_koch_level_len(variant, (d - 1) as nat);
        assert(pow(4, d) == 4 * pow(4, (d - 1) as nat)) by {
            vstd::arithmetic::power::lemma_pow1(4);
            vstd::arithmetic::power::lemma_pow_adds(4, 1, (d - 1) as nat);
        }
    }
}

/// A number `4 * i + k` with `0 <= k < 4` splits as quotient `i` and
/// remainder `k`.
proof fn lemma_div4(i: int, k: int)
    requires
        0 <= k < 4,
    ensures
        (4 * i + k) / 4 == i,
        (4 * i + k) % 4 == k,
{
    vstd::arithmetic::div_mod::lemma_fundamental_div_mod_converse_div(4 * i + k, 4, i, k);
    vstd::arithmetic::div_mod::lemma_fundamental_div_mod_converse_mod(4 * i + k, 4, i, k);
}

/// `p` rescaled to the next level's denominator.
fn rescale_point(p: Point) -> (r: Point)
    requires
        point_bounded(p@, pow(12, MAX_DEPTH as nat)),
    ensures
        r@ == rescaled(p@),
{
    proof {
        lemma_koch_input_bound_value();
    }
    Point { xa: 6 * p.xa, xb: 6 * p.xb, ya: 6 * p.ya, yb: 6 * p.yb }
}

/// The point one third of the way from `a` to `b`, over the next level's
/// denominator.
fn third_between(a: Point, b: Point) -> (r: Point)
    requires
        point_bounded(a@, pow(12, MAX_DEPTH as nat)),
        point_bounded(b@, pow(12, MAX_DEPTH as nat)),
    ensures
        r@ == third_point(a@, b@),
{
    proof {
        lemma_koch_input_bound_value();
    }
    Point {
        xa: 2 * (2 * a.xa + b.xa),
        xb: 2 * (2 * a.xb + b.xb),
        ya: 2 * (2 * a.ya + b.ya),
        yb: 2 * (2 * a.yb + b.yb),
    }
}

/// The apex over the edge `(s, e)`, over the next level's denominator.
/// A horizontal edge keeps the simplified formulas: its perpendicular
/// offset is purely vertical.
fn apex_between(s: Point, e: Point, variant: KochVariant) -> (r: Point)
    requires
        point_bounded(s@, pow(12, MAX_DEPTH as nat)),
        point_bounded(e@, pow(12, MAX_DEPTH as nat)),
    ensures
        r@ == apex(s@, e@, variant),
{
    proof {
        lemma_koch_input_bound_value();
    }
    if s.ya == e.ya && s.yb == e.yb {
        match variant {
            KochVariant::Snowflake => Point {
                xa: 3 * (s.xa + e.xa),
                xb: 3 * (s.xb + e.xb),
                ya: 3 * (s.ya + e.ya) + 3 * (s.xb - e.xb),
                yb: 3 * (s.yb + e.yb) + (s.xa - e.xa),
            },
            KochVariant::Antisnowflake => Point {
                xa: 3 * (s.xa + e.xa),
                xb: 3 * (s.xb + e.xb),
                ya: 3 * (s.ya + e.ya) - 3 * (s.xb - e.xb),
                yb: 3 * (s.yb + e.yb) - (s.xa - e.xa),
            },
        }
    } else {
        match variant {
            KochVariant::Snowflake => Point {
                xa: 3 * (s.xa + e.xa) + 3 * (e.yb - s.yb),
                xb: 3 * (s.xb + e.xb) + (e.ya - s.ya),
                ya: 3 * (s.ya + e.ya) + 3 * (s.xb - e.xb),
                yb: 3 * (s.yb + e.yb) + (s.xa - e.xa),
            },
            KochVariant::Antisnowflake => Point {
                xa: 3 * (s.xa + e.xa) - 3 * (e.yb - s.yb),
                xb: 3 * (s.xb + e.xb) - (e.ya - s.ya),
                ya: 3 * (s.ya + e.ya) - 3 * (s.xb - e.xb),
                yb: 3 * (s.yb + e.yb) - (s.xa - e.xa),
            },
        }
    }
}

/// One subdivision step on a stored level: emits, for every edge of the
/// closed polyline, the edge's four replacement points, in edge order.
fn subdivide(level: &Vec<Point>, variant: KochVariant) -> (r: Vec<Point>)
    requires
        points_bounded(points_model(level@), pow(12, MAX_DEPTH as nat)),
    ensures
        points_model(r@) == koch_step(points_model(level@), variant),
{
    let ghost lm = points_model(level@);
    let ghost target = koch_step(lm, variant);
    let len = level.len();
    let mut out: Vec<Point> = Vec::new();
    let mut i: usize = 0;
    while i < len
        invariant
            len == level@.len(),
            points_bounded(lm, pow(12, MAX_DEPTH as nat)),
            lm == points_model(level@),
            target == koch_step(lm, variant),
            i <= len,
            out@.len() == 4 * i,
            forall|j: int| 0 <= j < 4 * i ==> points_model(out@)[j] == target[j],
        decreases len - i,
    {
        let s = level[i];
        let e = if i + 1 == len { level[0] } else { level[i + 1] };
        proof {
            assert(lm[i as int] == s@);
            if i + 1 == len {
                assert(lm[0] == e@);
            } else {
                assert(lm[i as int + 1] == e@);
            }
            assert(point_bounded(s@, pow(12, MAX_DEPTH as nat)));
            assert(point_bounded(e@, pow(12, MAX_DEPTH as nat)));
        }
        let p0 = rescale_point(s);
        let p1 = third_between(s, e);
        let p2 = apex_between(s, e, variant);
        let p3 = third_between(e, s);
        out.push(p0);
        out.push(p1);
        out.push(p2);
        out.push(p3);
        proof {
            lemma_div4(i as int, 0);
            lemma_div4(i as int, 1);
            lemma_div4(i as int, 2);
            lemma_div4(i as int, 3);
        }
        i = i + 1;
    }
    proof {
        assert(points_model(out@) =~= target);
    }
    out
}

/// The incremental level cache of one Koch fractal instance.
///
/// The cache holds one stored level per depth seen so far, always the
/// canonical geometry of that depth: level `d` equals
/// `koch_level(variant, d)`. It grows monotonically — `ensure` appends
/// missing levels in increasing depth order and never mutates or removes
/// a stored one.
pub struct KochSnowFlake {
    variant: KochVariant,
    levels: Vec<Vec<Point>>,
}

impl KochSnowFlake {
    /// The cache invariant: at least the seed level is present, no level
    /// beyond `MAX_DEPTH` is, and every stored level is the canonical
    /// geometry of its depth.
    pub closed spec fn wf(self) -> bool {
        &&& 1 <= self.levels@.len() <= MAX_DEPTH + 1
        &&& forall|d: int|
            0 <= d < self.levels@.len() ==> points_model(
                (#[trigger] self.levels@[d])@,
            ) == koch_level(self.variant, d as nat)
    }

    /// The mathematical content of the cache: the stored levels, deepest
    /// last, as sequences of exact points.
    pub closed spec fn model(self) -> Seq<Seq<PointModel>> {
        Seq::new(self.levels@.len(), |d: int| points_model(self.levels@[d]@))
    }

    /// The variant this cache subdivides for.
    pub closed spec fn spec_variant(self) -> KochVariant {
        self.variant
    }

    /// A fresh cache holding only the seed level of depth 0.
    pub fn new(variant: KochVariant) -> (c: Self)
        ensures
            c.wf(),
            c.spec_variant() == variant,
            c.model().len() == 1,
            c.model()[0] == koch_level(variant, 0),
    {
        let seed: Vec<Point> = vec![
            Point { xa: -12, xb: 0, ya: 0, yb: -4 },
            Point { xa: 12, xb: 0, ya: 0, yb: -4 },
            Point { xa: 0, xb: 0, ya: 0, yb: 8 },
        ];
        let levels: Vec<Vec<Point>> = vec![seed];
        let c = KochSnowFlake { variant, levels };
        proof {
            assert(points_model(c.levels@[0]@) =~= koch_seed());
        }
        c
    }

    /// Guarantees that levels `0 ..= depth` are present, computing any
    /// missing ones in increasing depth order, each derived from the
    /// immediately preceding one only. A depth already cached is a no-op.
    /// Stored levels are never mutated: the old cache content stays, as it
    /// was, at the front.
    pub fn ensure(&mut self, depth: u32)
        requires
            old(self).wf(),
            depth <= MAX_DEPTH,
        ensures
            final(self).wf(),
            final(self).spec_variant() == old(self).spec_variant(),
            final(self).model().len() == if old(self).model().len() >= depth + 1 {
                old(self).model().len() as int
            } else {
                depth + 1
            },
            forall|d: int|
                0 <= d < final(self).model().len() ==> final(self).model()[d] == koch_level(
                    final(self).spec_variant(),
                    d as nat,
                ),
            forall|d: int|
                0 <= d < old(self).model().len() ==> final(self).model()[d] == old(self).model()[d],
    {
        while self.levels.len() <= depth as usize
            invariant
                self.wf(),
                self.variant == old(self).variant,
                depth <= MAX_DEPTH,
                old(self).levels@.len() <= self.levels@.len(),
                self.levels@.len() <= depth + 1 || self.levels@.len() == old(self).levels@.len(),
                forall|d: int|
                    0 <= d < old(self).levels@.len() ==> self.levels@[d] == old(self).levels@[d],
            decreases depth + 1 - self.levels@.len(),
        {
            let top = self.levels.len() - 1;
            proof {
                lemma_koch_level_bounded(self.variant, top as nat);
                vstd::arithmetic::power::lemma_pow_increases(12, (top + 1) as nat, MAX_DEPTH as nat);
                lemma_points_bounded_le(
                    points_model(self.levels@[top as int]@),
                    koch_bound(top as nat),
                    pow(12, MAX_DEPTH as nat),
                );
            }
            let next = subdivide(&self.levels[top], self.variant);
            self.levels.push(next);
        }
    }

    /// The draw list for `depth`: a copy of exactly that level, the closed
    /// polyline of the canonical geometry at `depth` — `3 * 4^depth`
    /// points over the denominator `15 * 6^depth`. The depth must already
    /// be ensured.
    pub fn extract(&self, depth: u32) -> (r: Vec<Point>)
        requires
            self.wf(),
            (depth as int) < self.model().len(),
        ensures
            points_model(r@) == koch_level(self.spec_variant(), depth as nat),
            r@.len() == 3 * pow(4, depth as nat),
    {
        let d = depth as usize;
        let n = self.levels[d].len();
        let mut out: Vec<Point> = Vec::new();
        let mut i: usize = 0;
        while i < n
            invariant
                (depth as int) < self.levels@.len(),
                d == depth as int,
                n == self.levels@[d as int]@.len(),
                i <= n,
                out@.len() == i,
                forall|j: int| 0 <= j < i ==> out@[j] == self.levels@[d as int]@[j],
            decreases n - i,
        {
            let p = self.levels[d][i];
            out.push(p);
            i = i + 1;
        }
        proof {
            assert(points_model(out@) =~= points_model(self.levels@[depth as int]@));
            lemma_koch_level_len(self.variant, depth as nat);
        }
        out
    }

    /// How many levels are cached: depths `0 ..< cached_levels()` can be
    /// extracted.
    pub fn cached_levels(&self) -> (n: usize)
        ensures
            n == self.model().len(),
    {
        self.levels.len()
    }

    /// `ensure` behind a checked depth: an out-of-range depth is refused
    /// as `InvalidDepth` and leaves the cache untouched.
    pub fn try_ensure(&mut self, depth: u32) -> (res: Result<(), InvalidDepth>)
        requires
            old(self).wf(),
        ensures
            final(self).wf(),
            final(self).spec_variant() == old(self).spec_variant(),
            res is Ok <==> depth <= MAX_DEPTH,
            depth > MAX_DEPTH ==> *final(self) == *old(self),
            depth <= MAX_DEPTH ==> final(self).model().len() == if old(self).model().len() >= depth
                + 1 {
                old(self).model().len() as int
            } else {
                depth + 1
            },
            forall|d: int|
                0 <= d < final(self).model().len() ==> final(self).model()[d] == koch_level(
                    final(self).spec_variant(),
                    d as nat,
                ),
            forall|d: int|
                0 <= d < old(self).model().len() ==> final(self).model()[d] == old(self).model()[d],
    {
        if depth > MAX_DEPTH {
            Err(InvalidDepth)
        } else {
            self.ensure(depth);
            Ok(())
        }
    }

    /// `extract` behind a checked depth: a depth that was never ensured
    /// (in particular one beyond `MAX_DEPTH`) is refused as
    /// `InvalidDepth`.
    pub fn try_extract(&self, depth: u32) -> (res: Result<Vec<Point>, InvalidDepth>)
        requires
            self.wf(),
        ensures
            res is Ok <==> (depth as int) < self.model().len(),
            match res {
                Ok(v) => points_model(v@) == koch_level(self.spec_variant(), depth as nat)
                    && v@.len() == 3 * pow(4, depth as nat),
                Err(e) => e == InvalidDepth,
            },
    {
        if (depth as usize) < self.levels.len() {
            Ok(self.extract(depth))
        } else {
            Err(InvalidDepth)
        }
    }
}

/// The number of points (and so of painted line segments, the polyline
/// being closed) of the level of depth `depth`: `3 * 4^depth`.
pub fn koch_point_count(depth: u32) -> (n: u64)
    requires
        depth <= MAX_DEPTH,
    ensures
        n == 3 * pow(4, depth as nat),
{
    proof {
        vstd::arithmetic::power::lemma_pow0(4);
    }
    let mut n: u64 = 3;
    let mut i: u32 = 0;
    while i < depth
        invariant
            i <= depth,
            depth <= MAX_DEPTH,
            n == 3 * pow(4, i as nat),
        decreases depth - i,
    {
        proof {
            assert(pow(4, (i + 1) as nat) == 4 * pow(4, i as nat)) by {
                vstd::arithmetic::power::lemma_pow1(4);
                vstd::arithmetic::power::lemma_pow_adds(4, 1, i as nat);
            }
            assert(pow(4, (i + 1) as nat) <= pow(4, MAX_DEPTH as nat)) by {
                vstd::arithmetic::power::lemma_pow_increases(4, (i + 1) as nat, MAX_DEPTH as nat);
            }
            assert(pow(4, MAX_DEPTH as nat) == 1048576) by {
                reveal_with_fuel(pow, 11);
            }
        }
        n = 4 * n;
        i = i + 1;
    }
    n
}

/// The denominator the numerators of the level of depth `depth` are read
/// against: `15 * 6^depth`.
pub fn koch_denominator(depth: u32) -> (den: i64)
    requires
        depth <= MAX_DEPTH,
    ensures
        den == 15 * pow(6, depth as nat),
{
    proof {
        vstd::arithmetic::power::lemma_pow0(6);
    }
    let mut den: i64 = 15;
    let mut i: u32 = 0;
    while i < depth
        invariant
            i <= depth,
            depth <= MAX_DEPTH,
            den == 15 * pow(6, i as nat),
        decreases depth - i,
    {
        proof {
            assert(pow(6, (i + 1) as nat) == 6 * pow(6, i as nat)) by {
                vstd::arithmetic::power::lemma_pow1(6);
                vstd::arithmetic::power::lemma_pow_adds(6, 1, i as nat);
            }
            assert(pow(6, (i + 1) as nat) <= pow(6, MAX_DEPTH as nat)) by {
                vstd::arithmetic::power::lemma_pow_increases(6, (i + 1) as nat, MAX_DEPTH as nat);
            }
            assert(pow(6, MAX_DEPTH as nat) == 60466176) by {
                reveal_with_fuel(pow, 11);
            }
            vstd::arithmetic::power::lemma_pow_positive(6, i as nat);
        }
        den = 6 * den;
        i = i + 1;
    }
    den
}

/// The two variants displace the apex of an edge by exactly opposite
/// perpendicular offsets: for every edge, the snowflake apex and the
/// antisnowflake apex mirror each other across the edge midpoint.
pub proof fn lemma_apex_mirror(s: PointModel, e: PointModel)
    ensures
        apex(s, e, KochVariant::Snowflake).xa - edge_midpoint(s, e).xa == -(apex(
            s,
            e,
            KochVariant::Antisnowflake,
        ).xa - edge_midpoint(s, e).xa),
        apex(s, e, KochVariant::Snowflake).xb - edge_midpoint(s, e).xb == -(apex(
            s,
            e,
            KochVariant::Antisnowflake,
        ).xb - edge_midpoint(s, e).xb),
        apex(s, e, KochVariant::Snowflake).ya - edge_midpoint(s, e).ya == -(apex(
            s,
            e,
            KochVariant::Antisnowflake,
        ).ya - edge_midpoint(s, e).ya),
        apex(s, e, KochVariant::Snowflake).yb - edge_midpoint(s, e).yb == -(apex(
            s,
            e,
            KochVariant::Antisnowflake,
        ).yb - edge_midpoint(s, e).yb),
{
}

/// The cache content is determined by the variant and the number of
/// levels present: two well-formed caches of the same variant with
/// equally many levels hold identical geometry. With `ensure`'s length
/// clause this gives idempotence — ensuring a depth twice leaves the
/// cache exactly as ensuring it once — and independence of the call
/// order that filled the cache.
pub proof fn lemma_koch_cache_determined(a: KochSnowFlake, b: KochSnowFlake)
    requires
        a.wf(),
        b.wf(),
        a.spec_variant() == b.spec_variant(),
        a.model().len() == b.model().len(),
    ensures
        a.model() == b.model(),
{
    assert forall|d: int| 0 <= d < a.model().len() implies a.model()[d] == b.model()[d] by {
        assert(points_model(a.levels@[d]@) == koch_level(a.variant, d as nat));
        assert(points_model(b.levels@[d]@) == koch_level(b.variant, d as nat));
    }
    assert(a.model() =~= b.model());
}

} // verus!

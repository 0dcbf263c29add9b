//! The Sierpinski triangle: triangle subdivision over a shared append-only
//! vertex pool, the canonical pool and triangle list per depth, and the
//! incremental level cache.

use vstd::prelude::*;

verus! {

use vstd::arithmetic::power::pow;
use crate::geometry::{Point, PointModel, points_model, point_bounded, points_bounded, InvalidDepth, MAX_DEPTH};

/// One triangle as three indices into the shared vertex pool:
/// lower-left, lower-right and upper corner.
#[derive(Clone, Copy, PartialEq, Eq, Structural, Debug)]
pub struct TriangleIndex {
    pub l: u32,
    pub r: u32,
    pub u: u32,
}

/// The mathematical value of a `TriangleIndex`: the same three indices as
/// unbounded integers.
pub struct TriangleModel {
    pub l: int,
    pub r: int,
    pub u: int,
}

impl View for TriangleIndex {
    type V = TriangleModel;

    open spec fn view(&self) -> TriangleModel {
        TriangleModel { l: self.l as int, r: self.r as int, u: self.u as int }
    }
}

/// The mathematical value of a sequence of triangles.
pub open spec fn triangles_model(s: Seq<TriangleIndex>) -> Seq<TriangleModel> {
    Seq::new(s.len(), |i: int| s[i]@)
}

/// The denominator every Sierpinski pool numerator is read against:
/// `15 * 2^MAX_DEPTH`. It is fixed once, so that the midpoint halvings of
/// all `MAX_DEPTH` subdivision rounds stay exact integers.
pub const SIER_DENOMINATOR: i64 = 15360;

/// The seed pool of depth 0: the same equilateral triangle as the Koch
/// seed, `(-0.8, -0.8/sqrt(3))`, `(0.8, -0.8/sqrt(3))`, `(0, 1.6/sqrt(3))`,
/// as numerators over `SIER_DENOMINATOR`.
pub open spec fn sier_seed() -> Seq<PointModel> {
    seq![
        PointModel { xa: -12288, xb: 0, ya: 0, yb: -4096 },
        PointModel { xa: 12288, xb: 0, ya: 0, yb: -4096 },
        PointModel { xa: 0, xb: 0, ya: 0, yb: 8192 },
    ]
}

/// The midpoint of two numerators. On the canonical pools the sum is
/// always even, so the halving is exact.
pub open spec fn mid_num(a: int, b: int) -> int {
    (a + b) / 2
}

/// The midpoint of two points, numerator by numerator.
pub open spec fn midpoint(p: PointModel, q: PointModel) -> PointModel {
    PointModel {
        xa: mid_num(p.xa, q.xa),
        xb: mid_num(p.xb, q.xb),
        ya: mid_num(p.ya, q.ya),
        yb: mid_num(p.yb, q.yb),
    }
}

/// The `k`-th of the three midpoints appended to the pool for the parent
/// triangle `t` over the pool `pool`: `mid(l, u)`, then `mid(r, u)`, then
/// `mid(l, r)`.
pub open spec fn child_vertex(pool: Seq<PointModel>, t: TriangleModel, k: int) -> PointModel {
    if k == 0 {
        midpoint(pool[t.l], pool[t.u])
    } else if k == 1 {
        midpoint(pool[t.r], pool[t.u])
    } else {
        midpoint(pool[t.l], pool[t.r])
    }
}

/// The `k`-th of the three children replacing the parent triangle `t`,
/// where `i`, `i + 1`, `i + 2` are the pool indices of the parent's three
/// new midpoints. The central inverted triangle is left out: it is the
/// removed hole.
pub open spec fn child_triangle(t: TriangleModel, i: int, k: int) -> TriangleModel {
    if k == 0 {
        TriangleModel { l: t.l, r: i + 2, u: i }
    } else if k == 1 {
        TriangleModel { l: i + 2, r: t.r, u: i + 1 }
    } else {
        TriangleModel { l: i, r: i + 1, u: t.u }
    }
}

/// The canonical triangle list of depth `d`: each parent of depth `d - 1`
/// replaced by its three corner children, in parent order.
pub open spec fn sier_tris(d: nat) -> Seq<TriangleModel>
    decreases d, 1int,
{
    if d == 0 {
        seq![TriangleModel { l: 0, r: 1, u: 2 }]
    } else {
        let parents = sier_tris((d - 1) as nat);
        let base = sier_pool((d - 1) as nat).len() as int;
        Seq::new(
            3 * parents.len(),
            |j: int| child_triangle(parents[j / 3], base + 3 * (j / 3), j % 3),
        )
    }
}

/// The canonical vertex pool once the levels `0 ..= d` exist: the pool of
/// depth `d - 1` with the three midpoints of each parent triangle
/// appended, in parent order. The pool only ever grows at the end, so
/// every stored index stays valid forever.
pub open spec fn sier_pool(d: nat) -> Seq<PointModel>
    decreases d, 0int,
{
    if d == 0 {
        sier_seed()
    } else {
        let parents = sier_tris((d - 1) as nat);
        let pool = sier_pool((d - 1) as nat);
        pool + Seq::new(3 * parents.len(), |j: int| child_vertex(pool, parents[j / 3], j % 3))
    }
}

/// Depth `d` holds exactly `3^d` triangles, and the pool consumed through
/// depth `d` holds exactly `(3^d + 1) * 3 / 2` points.
pub proof fn lemma_sier_counts(d: nat)
    ensures
        sier_tris(d).len() == pow(3, d),
        2 * sier_pool(d).len() == 3 * (pow(3, d) + 1),
    decreases d,
{
    if d == 0 {
        assert(pow(3, 0) == 1) by {
            vstd::arithmetic::power::lemma_pow0(3);
        }
    } else {
        lemma_sier_counts((d - 1) as nat);
        assert(pow(3, d) == 3 * pow(3, (d - 1) as nat)) by {
            vstd::arithmetic::power::lemma_pow1(3);
            vstd::arithmetic::power::lemma_pow_adds(3, 1, (d - 1) as nat);
        }
    }
}

/// A number `3 * i + k` with `0 <= k < 3` splits as quotient `i` and
/// remainder `k`.
proof fn lemma_div3(i: int, k: int)
    requires
        0 <= k < 3,
    ensures
        (3 * i + k) / 3 == i,
        (3 * i + k) % 3 == k,
{
    vstd::arithmetic::div_mod::lemma_fundamental_div_mod_converse_div(3 * i + k, 3, i, k);
    vstd::arithmetic::div_mod::lemma_fundamental_div_mod_converse_mod(3 * i + k, 3, i, k);
}

/// The midpoint of two numerators within `[-m, m]` stays within `[-m, m]`.
proof fn lemma_mid_in_range(a: int, b: int, m: int)
    requires
        -m <= a <= m,
        -m <= b <= m,
    ensures
        -m <= mid_num(a, b) <= m,
{
    vstd::arithmetic::div_mod::lemma_div_is_ordered(-2 * m, a + b, 2);
    vstd::arithmetic::div_mod::lemma_div_is_ordered(a + b, 2 * m, 2);
    vstd::arithmetic::div_mod::lemma_div_multiples_vanish(m, 2);
    vstd::arithmetic::div_mod::lemma_div_multiples_vanish(-m, 2);
}

/// The pool grows monotonically: the pool consumed through a shallower
/// depth stands unchanged at the front of every deeper pool.
pub proof fn lemma_sier_pool_prefix(d1: nat, d2: nat)
    requires
        d1 <= d2,
    ensures
        sier_pool(d1).len() <= sier_pool(d2).len(),
        sier_pool(d2).subrange(0, sier_pool(d1).len() as int) == sier_pool(d1),
    decreases d2,
{
    if d1 == d2 {
        assert(sier_pool(d2).subrange(0, sier_pool(d1).len() as int) =~= sier_pool(d1));
    } else {
        lemma_sier_pool_prefix(d1, (d2 - 1) as nat);
        let l1 = sier_pool(d1).len() as int;
        assert(sier_pool(d2).subrange(0, l1) =~= sier_pool((d2 - 1) as nat).subrange(0, l1));
    }
}

/// Every index of the triangle `t` lies in `[0, n)`.
pub open spec fn tri_in_range(t: TriangleModel, n: int) -> bool {
    &&& 0 <= t.l < n
    &&& 0 <= t.r < n
    &&& 0 <= t.u < n
}

/// Every triangle of depth `d` references only pool entries that exist by
/// depth `d`: old triangles stay valid forever as the pool grows.
pub proof fn lemma_sier_tris_valid(d: nat)
    ensures
        forall|j: int|
            0 <= j < sier_tris(d).len() ==> tri_in_range(
                #[trigger] sier_tris(d)[j],
                sier_pool(d).len() as int,
            ),
    decreases d,
{
    if d != 0 {
        let prev = (d - 1) as nat;
        lemma_sier_tris_valid(prev);
        let parents = sier_tris(prev);
        let base = sier_pool(prev).len() as int;
        assert forall|j: int| 0 <= j < sier_tris(d).len() implies tri_in_range(
            #[trigger] sier_tris(d)[j],
            sier_pool(d).len() as int,
        ) by {
            let k = j / 3;
            assert(0 <= k < parents.len());
            assert(tri_in_range(parents[k], base));
            assert(sier_pool(d).len() == base + 3 * parents.len());
            assert(base + 3 * k + 2 < sier_pool(d).len());
        }
    }
}

/// Every numerator of every canonical pool lies within `[-12288, 12288]`:
/// the seed does, and a midpoint of bounded points is bounded.
pub proof fn lemma_sier_pool_bounded(d: nat)
    ensures
        points_bounded(sier_pool(d), 12288),
    decreases d,
{
    if d != 0 {
        let prev = (d - 1) as nat;
        lemma_sier_pool_bounded(prev);
        lemma_sier_tris_valid(prev);
        let parents = sier_tris(prev);
        let pool = sier_pool(prev);
        assert forall|i: int| 0 <= i < sier_pool(d).len() implies point_bounded(
            #[trigger] sier_pool(d)[i],
            12288,
        ) by {
            if i < pool.len() {
                assert(sier_pool(d)[i] == pool[i]);
            } else {
                let j = i - pool.len();
                let k = j / 3;
                assert(0 <= k < parents.len());
                let t = parents[k];
                assert(tri_in_range(t, pool.len() as int));
                let p = sier_pool(d)[i];
                assert(p == child_vertex(pool, t, j % 3));
                assert(point_bounded(pool[t.l], 12288));
                assert(point_bounded(pool[t.r], 12288));
                assert(point_bounded(pool[t.u], 12288));
                let (a, b) = if j % 3 == 0 {
                    (pool[t.l], pool[t.u])
                } else if j % 3 == 1 {
                    (pool[t.r], pool[t.u])
                } else {
                    (pool[t.l], pool[t.r])
                };
                lemma_mid_in_range(a.xa, b.xa, 12288);
                lemma_mid_in_range(a.xb, b.xb, 12288);
                lemma_mid_in_range(a.ya, b.ya, 12288);
                lemma_mid_in_range(a.yb, b.yb, 12288);
            }
        }
    }
}

/// All four numerators of `p` are multiples of `m`.
pub open spec fn point_divisible(p: PointModel, m: int) -> bool {
    &&& p.xa % m == 0
    &&& p.xb % m == 0
    &&& p.ya % m == 0
    &&& p.yb % m == 0
}

/// A multiple of `2 * m` is a multiple of `m`.
proof fn lemma_mod_weaken_double(x: int, m: int)
    requires
        m >= 1,
        x % (2 * m) == 0,
    ensures
        x % m == 0,
{
    vstd::arithmetic::div_mod::lemma_fundamental_div_mod(x, 2 * m);
    let q = x / (2 * m);
    assert(x == m * (2 * q)) by (nonlinear_arith)
        requires
            x == (2 * m) * q,
    ;
    assert((2 * q) * m % m == 0) by {
        vstd::arithmetic::div_mod::lemma_mod_multiples_basic(2 * q, m);
    }
    assert(m * (2 * q) == (2 * q) * m) by (nonlinear_arith);
}

/// Halving the sum of two multiples of `2 * m` is exact and yields a
/// multiple of `m`.
proof fn lemma_mid_num_divisible(a: int, b: int, m: int)
    requires
        m >= 1,
        a % (2 * m) == 0,
        b % (2 * m) == 0,
    ensures
        2 * mid_num(a, b) == a + b,
        mid_num(a, b) % m == 0,
{
    let s = a + b;
    assert(s % (2 * m) == 0) by {
        vstd::arithmetic::div_mod::lemma_add_mod_noop(a, b, 2 * m);
        vstd::arithmetic::div_mod::lemma_small_mod(0nat, (2 * m) as nat);
    }
    vstd::arithmetic::div_mod::lemma_fundamental_div_mod(s, 2 * m);
    let q = s / (2 * m);
    assert(s == 2 * (m * q)) by (nonlinear_arith)
        requires
            s == (2 * m) * q,
    ;
    assert(s / 2 == m * q) by {
        vstd::arithmetic::div_mod::lemma_div_multiples_vanish(m * q, 2);
    }
    assert(q * m % m == 0) by {
        vstd::arithmetic::div_mod::lemma_mod_multiples_basic(q, m);
    }
    assert(m * q == q * m) by (nonlinear_arith);
}

/// Every numerator of the pool of depth `d` is a multiple of
/// `2^(MAX_DEPTH - d)`. So each subdivision round halves sums that are
/// still even: the midpoints of the model are exact, nothing is ever
/// rounded away, and `2 * mid_num(a, b) == a + b` holds throughout.
pub proof fn lemma_sier_pool_divisible(d: nat)
    requires
        d <= MAX_DEPTH,
    ensures
        forall|i: int|
            0 <= i < sier_pool(d).len() ==> point_divisible(
                #[trigger] sier_pool(d)[i],
                pow(2, (MAX_DEPTH - d) as nat),
            ),
    decreases d,
{
    vstd::arithmetic::power::lemma_pow_positive(2, (MAX_DEPTH - d) as nat);
    if d == 0 {
        assert(pow(2, MAX_DEPTH as nat) == 1024) by {
            reveal_with_fuel(pow, 11);
        }
    } else {
        let prev = (d - 1) as nat;
        lemma_sier_pool_divisible(prev);
        lemma_sier_tris_valid(prev);
        let m = pow(2, (MAX_DEPTH - d) as nat);
        assert(pow(2, (MAX_DEPTH - prev) as nat) == 2 * m) by {
            vstd::arithmetic::power::lemma_pow1(2);
            vstd::arithmetic::power::lemma_pow_adds(2, 1, (MAX_DEPTH - d) as nat);
        }
        let parents = sier_tris(prev);
        let pool = sier_pool(prev);
        assert forall|i: int| 0 <= i < sier_pool(d).len() implies point_divisible(
            #[trigger] sier_pool(d)[i],
            m,
        ) by {
            if i < pool.len() {
                assert(sier_pool(d)[i] == pool[i]);
                assert(point_divisible(pool[i], 2 * m));
                lemma_mod_weaken_double(pool[i].xa, m);
                lemma_mod_weaken_double(pool[i].xb, m);
                lemma_mod_weaken_double(pool[i].ya, m);
                lemma_mod_weaken_double(pool[i].yb, m);
            } else {
                let j = i - pool.len();
                let k = j / 3;
                assert(0 <= k < parents.len());
                let t = parents[k];
                assert(tri_in_range(t, pool.len() as int));
                assert(sier_pool(d)[i] == child_vertex(pool, t, j % 3));
                assert(point_divisible(pool[t.l], 2 * m));
                assert(point_divisible(pool[t.r], 2 * m));
                assert(point_divisible(pool[t.u], 2 * m));
                let (a, b) = if j % 3 == 0 {
                    (pool[t.l], pool[t.u])
                } else if j % 3 == 1 {
                    (pool[t.r], pool[t.u])
                } else {
                    (pool[t.l], pool[t.r])
                };
                lemma_mid_num_divisible(a.xa, b.xa, m);
                lemma_mid_num_divisible(a.xb, b.xb, m);
                lemma_mid_num_divisible(a.ya, b.ya, m);
                lemma_mid_num_divisible(a.yb, b.yb, m);
            }
        }
    }
}

/// A multiple of `2 * m` is even.
proof fn lemma_mod_weaken_to_two(x: int, m: int)
    requires
        m >= 1,
        x % (2 * m) == 0,
    ensures
        x % 2 == 0,
{
    vstd::arithmetic::div_mod::lemma_fundamental_div_mod(x, 2 * m);
    let q = x / (2 * m);
    assert(x == (m * q) * 2) by (nonlinear_arith)
        requires
            x == (2 * m) * q,
    ;
    vstd::arithmetic::div_mod::lemma_mod_multiples_basic(m * q, 2);
}

/// Sums of corresponding numerators of two points whose numerators are
/// multiples of `2 * m` are even.
proof fn lemma_point_sum_even(a: PointModel, b: PointModel, m: int)
    requires
        m >= 1,
        point_divisible(a, 2 * m),
        point_divisible(b, 2 * m),
    ensures
        (a.xa + b.xa) % 2 == 0,
        (a.xb + b.xb) % 2 == 0,
        (a.ya + b.ya) % 2 == 0,
        (a.yb + b.yb) % 2 == 0,
{
    lemma_mod_weaken_to_two(a.xa, m);
    lemma_mod_weaken_to_two(a.xb, m);
    lemma_mod_weaken_to_two(a.ya, m);
    lemma_mod_weaken_to_two(a.yb, m);
    lemma_mod_weaken_to_two(b.xa, m);
    lemma_mod_weaken_to_two(b.xb, m);
    lemma_mod_weaken_to_two(b.ya, m);
    lemma_mod_weaken_to_two(b.yb, m);
    vstd::arithmetic::div_mod::lemma_add_mod_noop(a.xa, b.xa, 2);
    vstd::arithmetic::div_mod::lemma_add_mod_noop(a.xb, b.xb, 2);
    vstd::arithmetic::div_mod::lemma_add_mod_noop(a.ya, b.ya, 2);
    vstd::arithmetic::div_mod::lemma_add_mod_noop(a.yb, b.yb, 2);
    vstd::arithmetic::div_mod::lemma_small_mod(0nat, 2nat);
}

/// The midpoint of two pool points, numerator by numerator. The halvings
/// are exact: the numerator sums are even by the callers' divisibility
/// facts.
fn midpoint_between(p: Point, q: Point) -> (r: Point)
    requires
        point_bounded(p@, 12288),
        point_bounded(q@, 12288),
        (p@.xa + q@.xa) % 2 == 0,
        (p@.xb + q@.xb) % 2 == 0,
        (p@.ya + q@.ya) % 2 == 0,
        (p@.yb + q@.yb) % 2 == 0,
    ensures
        r@ == midpoint(p@, q@),
{
    let r = Point {
        xa: (p.xa + q.xa) / 2,
        xb: (p.xb + q.xb) / 2,
        ya: (p.ya + q.ya) / 2,
        yb: (p.yb + q.yb) / 2,
    };
    proof {
        vstd::arithmetic::div_mod::lemma_fundamental_div_mod(p@.xa + q@.xa, 2);
        vstd::arithmetic::div_mod::lemma_fundamental_div_mod(p@.xb + q@.xb, 2);
        vstd::arithmetic::div_mod::lemma_fundamental_div_mod(p@.ya + q@.ya, 2);
        vstd::arithmetic::div_mod::lemma_fundamental_div_mod(p@.yb + q@.yb, 2);
    }
    r
}

/// One subdivision round: appends the three midpoints of every parent
/// triangle to the pool and returns the next depth's triangle list, both
/// exactly as the canonical model gives them.
#[verifier::rlimit(100)]
fn subdivide_level(pool: &mut Vec<Point>, parents: &Vec<TriangleIndex>, Ghost(d): Ghost<nat>) -> (next: Vec<TriangleIndex>)
    requires
        d + 1 <= MAX_DEPTH,
        points_model(old(pool)@) == sier_pool(d),
        triangles_model(parents@) == sier_tris(d),
    ensures
        points_model(final(pool)@) == sier_pool(d + 1),
        triangles_model(next@) == sier_tris(d + 1),
{
    proof {
        lemma_sier_counts(d);
        lemma_sier_counts((d + 1) as nat);
        lemma_sier_tris_valid(d);
        lemma_sier_pool_bounded(d);
        lemma_sier_pool_prefix(d, (d + 1) as nat);
        assert(pow(3, (d + 1) as nat) <= pow(3, MAX_DEPTH as nat)) by {
            vstd::arithmetic::power::lemma_pow_increases(3, (d + 1) as nat, MAX_DEPTH as nat);
        }
        assert(pow(3, MAX_DEPTH as nat) == 59049) by {
            reveal_with_fuel(pow, 11);
        }
    }
    let ghost target_pool = sier_pool((d + 1) as nat);
    let ghost target_tris = sier_tris((d + 1) as nat);
    let ghost base = sier_pool(d).len();
    let parent_count = parents.len();
    let mut next: Vec<TriangleIndex> = Vec::new();
    let mut k: usize = 0;
    while k < parent_count
        invariant
            d + 1 <= MAX_DEPTH,
            parent_count == parents@.len(),
            triangles_model(parents@) == sier_tris(d),
            target_pool == sier_pool((d + 1) as nat),
            target_tris == sier_tris((d + 1) as nat),
            base == sier_pool(d).len(),
            k <= parent_count,
            pool@.len() == base + 3 * k,
            forall|j: int| 0 <= j < pool@.len() ==> points_model(pool@)[j] == target_pool[j],
            next@.len() == 3 * k,
            forall|j: int| 0 <= j < 3 * k ==> triangles_model(next@)[j] == target_tris[j],
        decreases parent_count - k,
    {
        proof {
            lemma_sier_counts(d);
            lemma_sier_counts((d + 1) as nat);
            lemma_sier_tris_valid(d);
            lemma_sier_pool_bounded(d);
            lemma_sier_pool_prefix(d, (d + 1) as nat);
            assert(pow(3, (d + 1) as nat) <= pow(3, MAX_DEPTH as nat)) by {
                vstd::arithmetic::power::lemma_pow_increases(3, (d + 1) as nat, MAX_DEPTH as nat);
            }
            assert(pow(3, MAX_DEPTH as nat) == 59049) by {
                reveal_with_fuel(pow, 11);
            }
            assert(triangles_model(parents@)[k as int] == parents@[k as int]@);
            assert(tri_in_range(sier_tris(d)[k as int], base as int));
            lemma_div3(k as int, 0);
            lemma_div3(k as int, 1);
            lemma_div3(k as int, 2);
        }
        let t = parents[k];
        let ghost tm = sier_tris(d)[k as int];
        let i = pool.len() as u32;
        proof {
            assert(points_model(pool@)[t.l as int] == target_pool[t.l as int]);
            assert(target_pool[t.l as int] == sier_pool(d)[t.l as int]) by {
                assert(sier_pool((d + 1) as nat).subrange(0, base as int) == sier_pool(d));
            }
            assert(points_model(pool@)[t.r as int] == sier_pool(d)[t.r as int]) by {
                assert(sier_pool((d + 1) as nat).subrange(0, base as int) == sier_pool(d));
            }
            assert(points_model(pool@)[t.u as int] == sier_pool(d)[t.u as int]) by {
                assert(sier_pool((d + 1) as nat).subrange(0, base as int) == sier_pool(d));
            }
        }
        let pl = pool[t.l as usize];
        let pr = pool[t.r as usize];
        let pu = pool[t.u as usize];
        proof {
            lemma_sier_pool_divisible(d);
            let m2 = pow(2, (MAX_DEPTH - d - 1) as nat);
            vstd::arithmetic::power::lemma_pow_positive(2, (MAX_DEPTH - d - 1) as nat);
            assert(pow(2, (MAX_DEPTH - d) as nat) == 2 * m2) by {
                vstd::arithmetic::power::lemma_pow1(2);
                vstd::arithmetic::power::lemma_pow_adds(2, 1, (MAX_DEPTH - d - 1) as nat);
            }
            assert(point_divisible(sier_pool(d)[tm.l], 2 * m2));
            assert(point_divisible(sier_pool(d)[tm.r], 2 * m2));
            assert(point_divisible(sier_pool(d)[tm.u], 2 * m2));
            lemma_point_sum_even(pl@, pu@, m2);
            lemma_point_sum_even(pr@, pu@, m2);
            lemma_point_sum_even(pl@, pr@, m2);
        }
        let nl = midpoint_between(pl, pu);
        let nr = midpoint_between(pr, pu);
        let nd = midpoint_between(pl, pr);
        pool.push(nl);
        pool.push(nr);
        pool.push(nd);
        next.push(TriangleIndex { l: t.l, r: i + 2, u: i });
        next.push(TriangleIndex { l: i + 2, r: t.r, u: i + 1 });
        next.push(TriangleIndex { l: i, r: i + 1, u: t.u });
        proof {
            assert forall|j: int| 0 <= j < pool@.len() implies points_model(pool@)[j]
                == target_pool[j] by {
                if j >= base + 3 * k {
                    assert(target_pool[j] == child_vertex(sier_pool(d), tm, j - (base + 3 * k)));
                }
            }
            assert forall|j: int| 0 <= j < 3 * (k + 1) implies triangles_model(next@)[j]
                == target_tris[j] by {
                if j >= 3 * k {
                    assert(target_tris[j] == child_triangle(tm, base as int + 3 * k, j - 3 * k));
                }
            }
        }
        k = k + 1;
    }
    proof {
        assert(points_model(pool@) =~= target_pool);
        assert(triangles_model(next@) =~= target_tris);
    }
    next
}

/// The mathematical value of a sequence of raw indices.
pub open spec fn ints_model(s: Seq<u32>) -> Seq<int> {
    Seq::new(s.len(), |i: int| s[i] as int)
}

/// The triangle list flattened to raw indices for rendering:
/// `l, r, u` of each triangle in order.
pub open spec fn flat_tris(s: Seq<TriangleModel>) -> Seq<int> {
    Seq::new(
        3 * s.len(),
        |j: int|
            if j % 3 == 0 {
                s[j / 3].l
            } else if j % 3 == 1 {
                s[j / 3].r
            } else {
                s[j / 3].u
            },
    )
}

/// The number of painted triangles at depth `depth`: `3^depth`.
pub fn sier_triangle_count(depth: u32) -> (n: u64)
    requires
        depth <= MAX_DEPTH,
    ensures
        n == pow(3, depth as nat),
{
    proof {
        vstd::arithmetic::power::lemma_pow0(3);
    }
    let mut n: u64 = 1;
    let mut i: u32 = 0;
    while i < depth
        invariant
            i <= depth,
            depth <= MAX_DEPTH,
            n == pow(3, i as nat),
        decreases depth - i,
    {
        proof {
            assert(pow(3, (i + 1) as nat) == 3 * pow(3, i as nat)) by {
                vstd::arithmetic::power::lemma_pow1(3);
                vstd::arithmetic::power::lemma_pow_adds(3, 1, i as nat);
            }
            assert(pow(3, (i + 1) as nat) <= pow(3, MAX_DEPTH as nat)) by {
                vstd::arithmetic::power::lemma_pow_increases(3, (i + 1) as nat, MAX_DEPTH as nat);
            }
            assert(pow(3, MAX_DEPTH as nat) == 59049) by {
                reveal_with_fuel(pow, 11);
            }
        }
        n = 3 * n;
        i = i + 1;
    }
    n
}

/// The length of the vertex-pool prefix consumed through depth `depth`:
/// `(3^depth + 1) * 3 / 2`.
pub fn sier_vertex_count(depth: u32) -> (n: u64)
    requires
        depth <= MAX_DEPTH,
    ensures
        n == sier_pool(depth as nat).len(),
        2 * n == 3 * (pow(3, depth as nat) + 1),
{
    let c = sier_triangle_count(depth);
    proof {
        lemma_sier_counts(depth as nat);
        assert(pow(3, depth as nat) <= pow(3, MAX_DEPTH as nat)) by {
            vstd::arithmetic::power::lemma_pow_increases(3, depth as nat, MAX_DEPTH as nat);
        }
        assert(pow(3, MAX_DEPTH as nat) == 59049) by {
            reveal_with_fuel(pow, 11);
        }
        vstd::arithmetic::div_mod::lemma_div_multiples_vanish(
            sier_pool(depth as nat).len() as int,
            2,
        );
    }
    (c + 1) * 3 / 2
}

/// The incremental cache of one Sierpinski triangle instance.
///
/// It holds the shared append-only vertex pool and one triangle list per
/// depth seen so far, always the canonical geometry: the triangle list of
/// depth `d` equals `sier_tris(d)` and the pool equals `sier_pool(top)`
/// for the deepest cached depth `top`. The cache grows monotonically —
/// `ensure` appends missing levels in increasing depth order, never
/// mutates or removes a stored triangle, and only ever appends to the
/// pool, so geometry handed out earlier is never invalidated.
pub struct SierpinskiTriangle {
    vertices: Vec<Point>,
    indices: Vec<Vec<TriangleIndex>>,
}

impl SierpinskiTriangle {
    /// The cache invariant: at least depth 0 is present, no depth beyond
    /// `MAX_DEPTH` is, the pool is the canonical pool of the deepest
    /// cached depth, and every stored triangle list is canonical.
    pub closed spec fn wf(self) -> bool {
        &&& 1 <= self.indices@.len() <= MAX_DEPTH + 1
        &&& points_model(self.vertices@) == sier_pool((self.indices@.len() - 1) as nat)
        &&& forall|d: int|
            0 <= d < self.indices@.len() ==> triangles_model(
                (#[trigger] self.indices@[d])@,
            ) == sier_tris(d as nat)
    }

    /// How many depths are cached: depths `0 ..< level_count()` are.
    pub closed spec fn level_count(self) -> int {
        self.indices@.len() as int
    }

    /// The mathematical content of the vertex pool.
    pub closed spec fn pool_model(self) -> Seq<PointModel> {
        points_model(self.vertices@)
    }

    /// The mathematical content of the triangle list of depth `d`.
    pub closed spec fn tris_model(self, d: int) -> Seq<TriangleModel> {
        triangles_model(self.indices@[d]@)
    }

    /// A fresh cache holding the three seed vertices and the one seed
    /// triangle of depth 0.
    pub fn new() -> (c: Self)
        ensures
            c.wf(),
            c.level_count() == 1,
            c.pool_model() == sier_pool(0),
            c.tris_model(0) == sier_tris(0),
    {
        let vertices: Vec<Point> = vec![
            Point { xa: -12288, xb: 0, ya: 0, yb: -4096 },
            Point { xa: 12288, xb: 0, ya: 0, yb: -4096 },
            Point { xa: 0, xb: 0, ya: 0, yb: 8192 },
        ];
        let seed_tri: Vec<TriangleIndex> = vec![TriangleIndex { l: 0, r: 1, u: 2 }];
        let indices: Vec<Vec<TriangleIndex>> = vec![seed_tri];
        let c = SierpinskiTriangle { vertices, indices };
        proof {
            assert(points_model(c.vertices@) =~= sier_seed());
            assert(triangles_model(c.indices@[0]@) =~= sier_tris(0));
        }
        c
    }

    /// Guarantees that levels `0 ..= depth` are present, computing any
    /// missing ones in increasing depth order. A depth already cached is
    /// a no-op. The pool only grows at the end: everything extracted
    /// earlier stays where it was, unchanged.
    pub fn ensure(&mut self, depth: u32)
        requires
            old(self).wf(),
            depth <= MAX_DEPTH,
        ensures
            final(self).wf(),
            final(self).level_count() == if old(self).level_count() >= depth + 1 {
                old(self).level_count()
            } else {
                depth + 1
            },
            final(self).pool_model() == sier_pool((final(self).level_count() - 1) as nat),
            forall|d: int|
                0 <= d < final(self).level_count() ==> final(self).tris_model(d) == sier_tris(
                    d as nat,
                ),
            old(self).pool_model().len() <= final(self).pool_model().len(),
            final(self).pool_model().subrange(0, old(self).pool_model().len() as int) == old(
                self,
            ).pool_model(),
            forall|d: int|
                0 <= d < old(self).level_count() ==> final(self).tris_model(d) == old(
                    self,
                ).tris_model(d),
    {
        while self.indices.len() <= depth as usize
            invariant
                self.wf(),
                depth <= MAX_DEPTH,
                old(self).indices@.len() <= self.indices@.len(),
                self.indices@.len() <= depth + 1 || self.indices@.len() == old(
                    self,
                ).indices@.len(),
            decreases depth + 1 - self.indices@.len(),
        {
            let top = self.indices.len() - 1;
            let next = subdivide_level(&mut self.vertices, &self.indices[top], Ghost(top as nat));
            self.indices.push(next);
        }
        proof {
            let t0 = (old(self).indices@.len() - 1) as nat;
            let t1 = (self.indices@.len() - 1) as nat;
            lemma_sier_pool_prefix(t0, t1);
        }
    }

    /// The draw list for `depth`: a copy of the vertex-pool prefix
    /// consumed through `depth` — `(3^depth + 1) * 3 / 2` points over
    /// `SIER_DENOMINATOR` — and the triangle list of exactly that depth,
    /// flattened to `3^(depth + 1)` raw indices into that prefix. The
    /// depth must already be ensured.
    pub fn extract(&self, depth: u32) -> (r: (Vec<Point>, Vec<u32>))
        requires
            self.wf(),
            (depth as int) < self.level_count(),
        ensures
            points_model(r.0@) == sier_pool(depth as nat),
            2 * r.0@.len() == 3 * (pow(3, depth as nat) + 1),
            ints_model(r.1@) == flat_tris(sier_tris(depth as nat)),
            r.1@.len() == 3 * pow(3, depth as nat),
    {
        let ghost top = (self.indices@.len() - 1) as nat;
        proof {
            lemma_sier_counts(depth as nat);
            lemma_sier_counts(top);
            lemma_sier_pool_prefix(depth as nat, top);
            assert(pow(3, depth as nat) <= pow(3, MAX_DEPTH as nat)) by {
                vstd::arithmetic::power::lemma_pow_increases(3, depth as nat, MAX_DEPTH as nat);
            }
            assert(pow(3, MAX_DEPTH as nat) == 59049) by {
                reveal_with_fuel(pow, 11);
            }
        }
        let n64 = sier_vertex_count(depth);
        let prefix = n64 as usize;
        let mut verts: Vec<Point> = Vec::new();
        let mut i: usize = 0;
        while i < prefix
            invariant
                prefix == sier_pool(depth as nat).len(),
                prefix <= self.vertices@.len(),
                sier_pool(top).subrange(0, prefix as int) == sier_pool(depth as nat),
                points_model(self.vertices@) == sier_pool(top),
                top == (self.indices@.len() - 1) as nat,
                i <= prefix,
                verts@.len() == i,
                forall|j: int| 0 <= j < i ==> verts@[j] == self.vertices@[j],
            decreases prefix - i,
        {
            let p = self.vertices[i];
            verts.push(p);
            i = i + 1;
        }
        proof {
            assert forall|j: int| 0 <= j < prefix implies points_model(verts@)[j] == sier_pool(
                depth as nat,
            )[j] by {
                assert(points_model(self.vertices@)[j] == sier_pool(top)[j]);
                assert(sier_pool(top).subrange(0, prefix as int)[j] == sier_pool(top)[j]);
            }
            assert(points_model(verts@) =~= sier_pool(depth as nat));
        }
        let dd = depth as usize;
        let m = self.indices[dd].len();
        let ghost flat = flat_tris(sier_tris(depth as nat));
        let mut idx: Vec<u32> = Vec::new();
        let mut k: usize = 0;
        while k < m
            invariant
                self.wf(),
                (depth as int) < self.indices@.len(),
                dd == depth as int,
                m == self.indices@[dd as int]@.len(),
                m == sier_tris(depth as nat).len(),
                flat == flat_tris(sier_tris(depth as nat)),
                k <= m,
                idx@.len() == 3 * k,
                forall|j: int| 0 <= j < 3 * k ==> ints_model(idx@)[j] == flat[j],
            decreases m - k,
        {
            let t = self.indices[dd][k];
            proof {
                assert(triangles_model(self.indices@[dd as int]@)[k as int] == t@);
                lemma_div3(k as int, 0);
                lemma_div3(k as int, 1);
                lemma_div3(k as int, 2);
            }
            idx.push(t.l);
            idx.push(t.r);
            idx.push(t.u);
            k = k + 1;
        }
        proof {
            assert(ints_model(idx@) =~= flat);
        }
        (verts, idx)
    }

    /// How many levels are cached: depths `0 ..< cached_levels()` can be
    /// extracted.
    pub fn cached_levels(&self) -> (n: usize)
        ensures
            n == self.level_count(),
    {
        self.indices.len()
    }

    /// `ensure` behind a checked depth: an out-of-range depth is refused
    /// as `InvalidDepth` and leaves the cache untouched.
    pub fn try_ensure(&mut self, depth: u32) -> (res: Result<(), InvalidDepth>)
        requires
            old(self).wf(),
        ensures
            final(self).wf(),
            res is Ok <==> depth <= MAX_DEPTH,
            depth > MAX_DEPTH ==> *final(self) == *old(self),
            depth <= MAX_DEPTH ==> final(self).level_count() == if old(self).level_count() >= depth
                + 1 {
                old(self).level_count()
            } else {
                depth + 1
            },
            final(self).pool_model() == sier_pool((final(self).level_count() - 1) as nat),
            forall|d: int|
                0 <= d < final(self).level_count() ==> final(self).tris_model(d) == sier_tris(
                    d as nat,
                ),
            old(self).pool_model().len() <= final(self).pool_model().len(),
            final(self).pool_model().subrange(0, old(self).pool_model().len() as int) == old(
                self,
            ).pool_model(),
            forall|d: int|
                0 <= d < old(self).level_count() ==> final(self).tris_model(d) == old(
                    self,
                ).tris_model(d),
    {
        if depth > MAX_DEPTH {
            proof {
                assert(self.pool_model().subrange(0, self.pool_model().len() as int)
                    =~= self.pool_model());
            }
            Err(InvalidDepth)
        } else {
            self.ensure(depth);
            Ok(())
        }
    }

    /// `extract` behind a checked depth: a depth that was never ensured
    /// (in particular one beyond `MAX_DEPTH`) is refused as
    /// `InvalidDepth`.
    pub fn try_extract(&self, depth: u32) -> (res: Result<(Vec<Point>, Vec<u32>), InvalidDepth>)
        requires
            self.wf(),
        ensures
            res is Ok <==> (depth as int) < self.level_count(),
            match res {
                Ok(r) => points_model(r.0@) == sier_pool(depth as nat) && 2 * r.0@.len() == 3 * (
                pow(3, depth as nat) + 1) && ints_model(r.1@) == flat_tris(sier_tris(depth as nat))
                    && r.1@.len() == 3 * pow(3, depth as nat),
                Err(e) => e == InvalidDepth,
            },
    {
        if (depth as usize) < self.indices.len() {
            Ok(self.extract(depth))
        } else {
            Err(InvalidDepth)
        }
    }
}

/// The cache content is determined by the number of levels present: two
/// well-formed caches with equally many levels hold identical pools and
/// identical triangle lists. With `ensure`'s length clause this gives
/// idempotence — ensuring a depth twice leaves the cache exactly as
/// ensuring it once — and independence of the call order that filled the
/// cache.
pub proof fn lemma_sier_cache_determined(a: SierpinskiTriangle, b: SierpinskiTriangle)
    requires
        a.wf(),
        b.wf(),
        a.level_count() == b.level_count(),
    ensures
        a.pool_model() == b.pool_model(),
        forall|d: int| 0 <= d < a.level_count() ==> a.tris_model(d) == b.tris_model(d),
{
}

} // verus!

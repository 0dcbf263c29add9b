use fractal_demo::geometry::{InvalidDepth, Point, MAX_DEPTH};
use fractal_demo::koch::{koch_denominator, koch_point_count, KochSnowFlake, KochVariant};

fn pt(xa: i64, xb: i64, ya: i64, yb: i64) -> Point {
    Point { xa, xb, ya, yb }
}

/// Converts a point to floating-point coordinates against a denominator.
fn to_xy(p: &Point, den: f64) -> (f64, f64) {
    let s3 = 3.0f64.sqrt();
    (
        (p.xa as f64 + p.xb as f64 * s3) / den,
        (p.ya as f64 + p.yb as f64 * s3) / den,
    )
}

fn close(a: f64, b: f64) -> bool {
    (a - b).abs() < 1e-9
}

#[test]
fn koch_seed_geometry() {
    let c = KochSnowFlake::new(KochVariant::Snowflake);
    let level0 = c.extract(0);
    assert_eq!(level0.len(), 3);
    assert_eq!(level0[0], pt(-12, 0, 0, -4));
    assert_eq!(level0[1], pt(12, 0, 0, -4));
    assert_eq!(level0[2], pt(0, 0, 0, 8));
    let den = koch_denominator(0) as f64;
    assert_eq!(den, 15.0);
    let (ax, ay) = to_xy(&level0[0], den);
    let (bx, by) = to_xy(&level0[1], den);
    let (cx, cy) = to_xy(&level0[2], den);
    assert!(close(ax, -0.8) && close(ay, -0.8 / 3.0f64.sqrt()));
    assert!(close(bx, 0.8) && close(by, -0.8 / 3.0f64.sqrt()));
    assert!(close(cx, 0.0) && close(cy, 1.6 / 3.0f64.sqrt()));
}

#[test]
fn koch_depth_one_point_count_and_values() {
    // Each of the 3 seed edges becomes 4 points: exactly 12 points total.
    let mut c = KochSnowFlake::new(KochVariant::Snowflake);
    c.ensure(1);
    let level1 = c.extract(1);
    assert_eq!(level1.len(), 12);
    // First edge (A -> B), denominator 90: start, inner third, apex, outer third.
    assert_eq!(level1[0], pt(-72, 0, 0, -24));
    assert_eq!(level1[1], pt(-24, 0, 0, -24));
    assert_eq!(level1[2], pt(0, 0, 0, -48));
    assert_eq!(level1[3], pt(24, 0, 0, -24));
    let den = koch_denominator(1) as f64;
    assert_eq!(den, 90.0);
    // The bottom edge's apex points straight down, outward from the triangle.
    let (mx, my) = to_xy(&level1[2], den);
    assert!(close(mx, 0.0));
    assert!(close(my, -0.8 / 3.0f64.sqrt() - 1.6 / (2.0 * 3.0f64.sqrt())));
}

#[test]
fn koch_level_point_counts() {
    // Level d holds exactly 3 * 4^d points.
    let mut c = KochSnowFlake::new(KochVariant::Snowflake);
    c.ensure(6);
    let mut expected: u64 = 3;
    for d in 0..=6u32 {
        let level = c.extract(d);
        assert_eq!(level.len() as u64, expected);
        assert_eq!(koch_point_count(d), expected);
        expected *= 4;
    }
    assert_eq!(koch_point_count(MAX_DEPTH), 3 * 4u64.pow(10));
}

#[test]
fn koch_ensure_idempotent() {
    let mut once = KochSnowFlake::new(KochVariant::Snowflake);
    once.ensure(5);
    let mut twice = KochSnowFlake::new(KochVariant::Snowflake);
    twice.ensure(5);
    twice.ensure(5);
    assert_eq!(once.cached_levels(), twice.cached_levels());
    for d in 0..=5u32 {
        assert_eq!(once.extract(d), twice.extract(d));
    }
}

#[test]
fn koch_growth_leaves_old_levels_unchanged() {
    let mut c = KochSnowFlake::new(KochVariant::Antisnowflake);
    c.ensure(3);
    let before = c.extract(3);
    c.ensure(6);
    assert_eq!(c.extract(3), before);
    assert_eq!(c.cached_levels(), 7);
}

#[test]
fn koch_ensure_order_independent() {
    let mut a = KochSnowFlake::new(KochVariant::Snowflake);
    a.ensure(5);
    a.ensure(3);
    let mut b = KochSnowFlake::new(KochVariant::Snowflake);
    b.ensure(3);
    assert_eq!(a.extract(3), b.extract(3));
}

#[test]
fn koch_variants_mirror_apexes() {
    // For the same seed and depth the two variants agree everywhere except
    // the apexes, which mirror each other across the edge midpoints.
    let mut snow = KochSnowFlake::new(KochVariant::Snowflake);
    let mut anti = KochSnowFlake::new(KochVariant::Antisnowflake);
    snow.ensure(1);
    anti.ensure(1);
    let s1 = snow.extract(1);
    let a1 = anti.extract(1);
    let seed = snow.extract(0);
    assert_eq!(s1.len(), 12);
    assert_eq!(a1.len(), 12);
    for j in 0..12usize {
        if j % 4 == 2 {
            // Apexes: s + a == 2 * midpoint of the subdivided edge.
            let edge = j / 4;
            let s = &seed[edge];
            let e = &seed[(edge + 1) % 3];
            assert_eq!(s1[j].xa + a1[j].xa, 2 * 3 * (s.xa + e.xa));
            assert_eq!(s1[j].xb + a1[j].xb, 2 * 3 * (s.xb + e.xb));
            assert_eq!(s1[j].ya + a1[j].ya, 2 * 3 * (s.ya + e.ya));
            assert_eq!(s1[j].yb + a1[j].yb, 2 * 3 * (s.yb + e.yb));
        } else {
            assert_eq!(s1[j], a1[j]);
        }
    }
    // The bottom edge's apexes in particular: straight down vs. straight up.
    assert_eq!(s1[2], pt(0, 0, 0, -48));
    assert_eq!(a1[2], pt(0, 0, 0, 0));
}

#[test]
fn koch_invalid_depth_is_refused() {
    let mut c = KochSnowFlake::new(KochVariant::Snowflake);
    assert_eq!(c.try_ensure(MAX_DEPTH + 1), Err(InvalidDepth));
    assert_eq!(c.cached_levels(), 1);
    assert_eq!(c.try_extract(4).err(), Some(InvalidDepth));
    assert!(c.try_ensure(4).is_ok());
    let level = c.try_extract(4).unwrap();
    assert_eq!(level.len(), 3 * 4usize.pow(4));
}

#[test]
fn koch_denominator_values() {
    assert_eq!(koch_denominator(0), 15);
    assert_eq!(koch_denominator(1), 90);
    assert_eq!(koch_denominator(2), 540);
    assert_eq!(koch_denominator(MAX_DEPTH), 15 * 6i64.pow(10));
}

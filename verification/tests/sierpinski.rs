use fractal_demo::geometry::{InvalidDepth, Point, MAX_DEPTH};
use fractal_demo::sierpinski::{
    sier_triangle_count, sier_vertex_count, SierpinskiTriangle, SIER_DENOMINATOR,
};

fn pt(xa: i64, xb: i64, ya: i64, yb: i64) -> Point {
    Point { xa, xb, ya, yb }
}

fn to_xy(p: &Point) -> (f64, f64) {
    let s3 = 3.0f64.sqrt();
    let den = SIER_DENOMINATOR as f64;
    (
        (p.xa as f64 + p.xb as f64 * s3) / den,
        (p.ya as f64 + p.yb as f64 * s3) / den,
    )
}

fn close(a: f64, b: f64) -> bool {
    (a - b).abs() < 1e-9
}

#[test]
fn sier_seed_geometry() {
    let c = SierpinskiTriangle::new();
    let (verts, idx) = c.extract(0);
    assert_eq!(verts.len(), 3);
    assert_eq!(idx, vec![0, 1, 2]);
    assert_eq!(verts[0], pt(-12288, 0, 0, -4096));
    assert_eq!(verts[1], pt(12288, 0, 0, -4096));
    assert_eq!(verts[2], pt(0, 0, 0, 8192));
    let (ax, ay) = to_xy(&verts[0]);
    let (cx, cy) = to_xy(&verts[2]);
    assert!(close(ax, -0.8) && close(ay, -0.8 / 3.0f64.sqrt()));
    assert!(close(cx, 0.0) && close(cy, 1.6 / 3.0f64.sqrt()));
}

#[test]
fn sier_depth_one_pool_and_triangles() {
    // One seed triangle (0, 1, 2); at depth 1 exactly 3 triangles, and the
    // pool grows from 3 to 6 points.
    let mut c = SierpinskiTriangle::new();
    c.ensure(1);
    let (verts, idx) = c.extract(1);
    assert_eq!(verts.len(), 6);
    assert_eq!(idx.len(), 9);
    // The three appended midpoints: mid(l, u), mid(r, u), mid(l, r).
    assert_eq!(verts[3], pt(-6144, 0, 0, 2048));
    assert_eq!(verts[4], pt(6144, 0, 0, 2048));
    assert_eq!(verts[5], pt(0, 0, 0, -4096));
    // The three children: the central inverted triangle is left out.
    assert_eq!(idx, vec![0, 5, 3, 5, 1, 4, 3, 4, 2]);
}

#[test]
fn sier_counts_through_max_depth() {
    // Depth d: 3^d triangles, 3^(d+1) flat indices, (3^d + 1) * 3 / 2
    // pool points consumed.
    let mut c = SierpinskiTriangle::new();
    c.ensure(MAX_DEPTH);
    let mut tri_count: u64 = 1;
    for d in 0..=MAX_DEPTH {
        let (verts, idx) = c.extract(d);
        assert_eq!(idx.len() as u64, 3 * tri_count);
        assert_eq!(verts.len() as u64, (tri_count + 1) * 3 / 2);
        assert_eq!(sier_triangle_count(d), tri_count);
        assert_eq!(sier_vertex_count(d), (tri_count + 1) * 3 / 2);
        // Every index points into the extracted pool prefix.
        for &i in idx.iter() {
            assert!((i as usize) < verts.len());
        }
        tri_count *= 3;
    }
}

#[test]
fn sier_midpoints_are_exact() {
    // Every point appended for depth d + 1 is the exact average of two
    // pool points of depth d: twice the midpoint equals the sum.
    let mut c = SierpinskiTriangle::new();
    c.ensure(4);
    for d in 0..4u32 {
        let (pool, tris) = c.extract(d);
        let (next_pool, _) = c.extract(d + 1);
        for (k, t) in tris.chunks(3).enumerate() {
            let (l, r, u) = (&pool[t[0] as usize], &pool[t[1] as usize], &pool[t[2] as usize]);
            let base = pool.len() + 3 * k;
            let pairs = [(l, u), (r, u), (l, r)];
            for (c_off, (a, b)) in pairs.iter().enumerate() {
                let m = &next_pool[base + c_off];
                assert_eq!(2 * m.xa, a.xa + b.xa);
                assert_eq!(2 * m.xb, a.xb + b.xb);
                assert_eq!(2 * m.ya, a.ya + b.ya);
                assert_eq!(2 * m.yb, a.yb + b.yb);
            }
        }
    }
}

#[test]
fn sier_ensure_idempotent() {
    let mut once = SierpinskiTriangle::new();
    once.ensure(5);
    let mut twice = SierpinskiTriangle::new();
    twice.ensure(5);
    twice.ensure(5);
    assert_eq!(once.cached_levels(), twice.cached_levels());
    for d in 0..=5u32 {
        assert_eq!(once.extract(d), twice.extract(d));
    }
}

#[test]
fn sier_growth_leaves_old_geometry_unchanged() {
    let mut c = SierpinskiTriangle::new();
    c.ensure(2);
    let before = c.extract(2);
    c.ensure(8);
    let after = c.extract(2);
    assert_eq!(after, before);
    // The old pool prefix also sits unchanged at the front of the grown pool.
    let (big_pool, _) = c.extract(8);
    assert_eq!(&big_pool[..before.0.len()], &before.0[..]);
}

#[test]
fn sier_ensure_order_independent() {
    let mut a = SierpinskiTriangle::new();
    a.ensure(5);
    a.ensure(3);
    let mut b = SierpinskiTriangle::new();
    b.ensure(3);
    assert_eq!(a.extract(3), b.extract(3));
}

#[test]
fn sier_invalid_depth_is_refused() {
    let mut c = SierpinskiTriangle::new();
    assert_eq!(c.try_ensure(MAX_DEPTH + 1), Err(InvalidDepth));
    assert_eq!(c.cached_levels(), 1);
    assert!(c.try_extract(2).is_err());
    assert!(c.try_ensure(2).is_ok());
    let (verts, idx) = c.try_extract(2).unwrap();
    assert_eq!(verts.len(), 15);
    assert_eq!(idx.len(), 27);
}

use geom::flatten::{bezier_sample, triangulate_quadratic_bezier, ArcVertex, Triangle, VertexBuffers};
use geom::geometry::{cross_sign, is_control_outside, Vec2};
use geom::BezierError;

fn v(x: i32, y: i32) -> Vec2 {
    Vec2 { x, y }
}

fn as_point(a: &ArcVertex) -> (f64, f64) {
    (a.x as f64 / a.w as f64, a.y as f64 / a.w as f64)
}

fn close(a: (f64, f64), b: (f64, f64)) -> bool {
    (a.0 - b.0).abs() < 1e-9 && (a.1 - b.1).abs() < 1e-9
}

#[test]
fn cross_sign_values() {
    assert_eq!(cross_sign(v(0, 0), v(1, -1), v(2, 0)), -2);
    assert_eq!(cross_sign(v(0, 0), v(1, 1), v(2, 0)), 2);
    assert_eq!(cross_sign(v(0, 0), v(1, 0), v(2, 0)), 0);
    assert!(is_control_outside(v(0, 0), v(1, -1), v(2, 0)));
    assert!(!is_control_outside(v(0, 0), v(1, 0), v(2, 0)));
    assert_eq!(
        cross_sign(v(i32::MIN, i32::MIN), v(i32::MAX, i32::MIN), v(i32::MIN, i32::MAX)),
        -(((1i128 << 32) - 1) * ((1i128 << 32) - 1))
    );
}

#[test]
fn samples_are_exact() {
    let mut out = VertexBuffers::new();
    let r = triangulate_quadratic_bezier(v(0, 0), v(1, 2), v(2, 0), 3, &mut out);
    assert_eq!(r, Ok(()));
    // The control point lies inside the chord, so it comes first.
    assert_eq!(out.vertices.len(), 4);
    assert_eq!(out.vertices[0], ArcVertex { x: 1, y: 2, w: 1 });
    let samples: Vec<(f64, f64)> = out.vertices[1..].iter().map(as_point).collect();
    assert!(close(samples[0], (0.0, 0.0)));
    assert!(close(samples[1], (1.0, 1.0)));
    assert!(close(samples[2], (2.0, 0.0)));
    assert_eq!(out.vertices[2], ArcVertex { x: 4, y: 4, w: 4 });
}

#[test]
fn bezier_sample_values() {
    assert_eq!(bezier_sample(v(0, 0), v(1, 2), v(2, 0), 3, 1), ArcVertex { x: 4, y: 4, w: 4 });
    assert_eq!(bezier_sample(v(0, 0), v(4, 4), v(8, 0), 5, 1), ArcVertex { x: 32, y: 24, w: 16 });
    assert_eq!(bezier_sample(v(3, 5), v(4, 4), v(8, 0), 2, 0), ArcVertex { x: 3, y: 5, w: 1 });
}

#[test]
fn outside_fan_over_samples_only() {
    let mut out = VertexBuffers::new();
    let r = triangulate_quadratic_bezier(v(0, 0), v(1, -1), v(2, 0), 4, &mut out);
    assert_eq!(r, Ok(()));
    assert_eq!(out.vertices.len(), 4);
    assert_eq!(
        out.indices,
        vec![Triangle { a: 0, b: 1, c: 2 }, Triangle { a: 0, b: 2, c: 3 }]
    );
    for t in out.indices.iter() {
        assert!(t.a < 4 && t.b < 4 && t.c < 4);
    }
    assert!(close(as_point(&out.vertices[0]), (0.0, 0.0)));
    assert!(close(as_point(&out.vertices[3]), (2.0, 0.0)));
}

#[test]
fn inside_fan_includes_control_point() {
    let mut out = VertexBuffers::new();
    let r = triangulate_quadratic_bezier(v(0, 0), v(1, 1), v(2, 0), 4, &mut out);
    assert_eq!(r, Ok(()));
    assert_eq!(out.vertices.len(), 5);
    assert_eq!(out.vertices[0], ArcVertex { x: 1, y: 1, w: 1 });
    assert_eq!(
        out.indices,
        vec![
            Triangle { a: 0, b: 1, c: 2 },
            Triangle { a: 0, b: 2, c: 3 },
            Triangle { a: 0, b: 3, c: 4 }
        ]
    );
    for t in out.indices.iter() {
        assert!(t.a < 5 && t.b < 5 && t.c < 5);
    }
}

#[test]
fn second_geometry_is_offset() {
    let mut out = VertexBuffers::new();
    triangulate_quadratic_bezier(v(0, 0), v(1, -1), v(2, 0), 3, &mut out).unwrap();
    triangulate_quadratic_bezier(v(0, 0), v(1, -1), v(2, 0), 3, &mut out).unwrap();
    assert_eq!(out.base, 3);
    assert_eq!(out.vertices.len(), 6);
    assert_eq!(
        out.indices,
        vec![Triangle { a: 0, b: 1, c: 2 }, Triangle { a: 3, b: 4, c: 5 }]
    );
}

#[test]
fn two_samples_give_no_outside_triangle() {
    let mut out = VertexBuffers::new();
    let r = triangulate_quadratic_bezier(v(0, 0), v(1, -1), v(2, 0), 2, &mut out);
    assert_eq!(r, Ok(()));
    assert_eq!(out.vertices.len(), 2);
    assert!(out.indices.is_empty());
}

#[test]
fn too_few_samples_are_refused() {
    for n in 0..2 {
        let mut out = VertexBuffers::new();
        let r = triangulate_quadratic_bezier(v(0, 0), v(1, 1), v(2, 0), n, &mut out);
        assert_eq!(r, Err(BezierError::DegenerateSampleCount));
        assert!(out.vertices.is_empty());
        assert!(out.indices.is_empty());
    }
}

#[test]
fn extreme_coordinates_sample_exactly() {
    let a = v(i32::MIN, i32::MAX);
    let c = v(i32::MAX, i32::MIN);
    let b = v(i32::MAX, i32::MAX);
    let s = bezier_sample(a, c, b, u32::MAX, u32::MAX - 1);
    let d = (u32::MAX as i128) - 1;
    assert_eq!(s.w, d * d);
    assert_eq!(s.x, d * d * (i32::MAX as i128));
}

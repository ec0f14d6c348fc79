use geom::geometry::{PointData, PointType, QuadraticBezierSegment, Vec2};
use geom::kernel::{ConnectivityKernel, HalfEdge};
use geom::polygon::{separate_bezier_faces2, Polygon};
use geom::separation::{separate_bezier_faces, separate_quadratic_bezier};
use geom::BezierError;

fn normal(x: i32, y: i32) -> PointData {
    PointData { position: Vec2 { x, y }, point_type: PointType::Normal }
}

fn control(x: i32, y: i32) -> PointData {
    PointData { position: Vec2 { x, y }, point_type: PointType::Control }
}

fn v(x: i32, y: i32) -> Vec2 {
    Vec2 { x, y }
}

/// A counter-clockwise square with a control point between its first two
/// corners, at `(1, cy)`.
fn square_with_arc(cy: i32) -> Vec<PointData> {
    vec![normal(0, 0), control(1, cy), normal(2, 0), normal(2, 2), normal(0, 2)]
}

fn kernel_loop_vertices(kernel: &ConnectivityKernel, e: usize) -> Vec<usize> {
    let edges = kernel.loop_from(e).expect("a closed loop");
    edges.iter().map(|&x| kernel.vertex(x)).collect()
}

fn run_polygon(
    store: &[PointData],
    order: Vec<usize>,
) -> (Result<(), BezierError>, Vec<usize>, Vec<QuadraticBezierSegment>) {
    let mut polygon = Polygon::new(order);
    let mut out = Vec::new();
    let r = separate_bezier_faces2(&mut polygon, store, &mut out);
    (r, polygon.vertices.clone(), out)
}

fn run_kernel(
    store: &[PointData],
    order: Vec<usize>,
) -> (Result<Vec<usize>, BezierError>, Vec<QuadraticBezierSegment>) {
    let mut kernel = ConnectivityKernel::new();
    let e = kernel.add_loop(&order);
    let mut out = Vec::new();
    let r = separate_bezier_faces(&mut kernel, e, store, &mut out);
    (r.map(|f| kernel_loop_vertices(&kernel, f)), out)
}

#[test]
fn polygon_outside_control_is_excised() {
    let store = square_with_arc(-1);
    let (r, left, out) = run_polygon(&store, vec![0, 1, 2, 3, 4]);
    assert_eq!(r, Ok(()));
    assert_eq!(left, vec![0, 2, 3, 4]);
    assert_eq!(out, vec![QuadraticBezierSegment { from: v(0, 0), ctrl: v(1, -1), to: v(2, 0) }]);
}

#[test]
fn polygon_inside_control_is_kept() {
    let store = square_with_arc(1);
    let (r, left, out) = run_polygon(&store, vec![0, 1, 2, 3, 4]);
    assert_eq!(r, Ok(()));
    assert_eq!(left, vec![0, 1, 2, 3, 4]);
    assert_eq!(out, vec![QuadraticBezierSegment { from: v(0, 0), ctrl: v(1, 1), to: v(2, 0) }]);
}

#[test]
fn collinear_control_counts_as_inside() {
    let store = square_with_arc(0);
    let (r, left, out) = run_polygon(&store, vec![0, 1, 2, 3, 4]);
    assert_eq!(r, Ok(()));
    assert_eq!(left, vec![0, 1, 2, 3, 4]);
    assert_eq!(out.len(), 1);
    let (rk, outk) = run_kernel(&store, vec![0, 1, 2, 3, 4]);
    assert_eq!(rk, Ok(vec![0, 1, 2, 3, 4]));
    assert_eq!(outk, out);
}

#[test]
fn loop_without_controls_is_unchanged() {
    let store = vec![normal(0, 0), normal(2, 0), normal(2, 2), normal(0, 2)];
    let (r, left, out) = run_polygon(&store, vec![0, 1, 2, 3]);
    assert_eq!(r, Ok(()));
    assert_eq!(left, vec![0, 1, 2, 3]);
    assert!(out.is_empty());
    let (rk, outk) = run_kernel(&store, vec![0, 1, 2, 3]);
    assert_eq!(rk, Ok(vec![0, 1, 2, 3]));
    assert!(outk.is_empty());
}

#[test]
fn adjacent_controls_are_refused_by_polygon() {
    let store = vec![normal(0, 0), control(1, -1), control(2, -1), normal(3, 0), normal(1, 3)];
    let mut polygon = Polygon::new(vec![0, 1, 2, 3, 4]);
    let mut out = Vec::new();
    let r = separate_bezier_faces2(&mut polygon, &store, &mut out);
    assert_eq!(r, Err(BezierError::UnsupportedCurveOrder));
    assert_eq!(polygon.vertices, vec![0, 1, 2, 3, 4]);
    assert!(out.is_empty());
}

#[test]
fn adjacent_controls_are_refused_by_kernel() {
    let store = vec![normal(0, 0), control(1, -1), control(2, -1), normal(3, 0), normal(1, 3)];
    let mut kernel = ConnectivityKernel::new();
    let e = kernel.add_loop(&vec![0, 1, 2, 3, 4]);
    let before = kernel.edges.clone();
    let mut out = Vec::new();
    let r = separate_bezier_faces(&mut kernel, e, &store, &mut out);
    assert_eq!(r, Err(BezierError::UnsupportedCurveOrder));
    assert_eq!(kernel.edges, before);
    assert!(out.is_empty());
}

#[test]
fn single_control_loop_is_refused() {
    let store = vec![control(0, 0)];
    let (r, left, out) = run_polygon(&store, vec![0]);
    assert_eq!(r, Err(BezierError::UnsupportedCurveOrder));
    assert_eq!(left, vec![0]);
    assert!(out.is_empty());
}

#[test]
fn kernel_outside_control_is_excised() {
    let store = square_with_arc(-1);
    let (r, out) = run_kernel(&store, vec![0, 1, 2, 3, 4]);
    assert_eq!(r, Ok(vec![0, 2, 3, 4]));
    assert_eq!(out, vec![QuadraticBezierSegment { from: v(0, 0), ctrl: v(1, -1), to: v(2, 0) }]);
}

#[test]
fn kernel_walk_starting_on_the_control_point() {
    let store = square_with_arc(-1);
    // The loop is read from the control point: 1, 2, 3, 4, 0.
    let (r, out) = run_kernel(&store, vec![1, 2, 3, 4, 0]);
    assert_eq!(r, Ok(vec![2, 3, 4, 0]));
    assert_eq!(out, vec![QuadraticBezierSegment { from: v(0, 0), ctrl: v(1, -1), to: v(2, 0) }]);
    let (rp, left, outp) = run_polygon(&store, vec![1, 2, 3, 4, 0]);
    assert_eq!(rp, Ok(()));
    assert_eq!(left, vec![2, 3, 4, 0]);
    assert_eq!(outp, out);
}

#[test]
fn kernel_walk_ending_on_the_control_point() {
    let store = square_with_arc(-1);
    let (r, out) = run_kernel(&store, vec![2, 3, 4, 0, 1]);
    assert_eq!(r, Ok(vec![2, 3, 4, 0]));
    assert_eq!(out, vec![QuadraticBezierSegment { from: v(0, 0), ctrl: v(1, -1), to: v(2, 0) }]);
}

/// A square with an arc on each side: the bottom and right ones bulge out,
/// the top and left ones bulge in.
fn square_with_four_arcs() -> (Vec<PointData>, Vec<usize>) {
    let store = vec![
        normal(0, 0),
        control(1, -1),
        normal(2, 0),
        control(3, 1),
        normal(2, 2),
        control(1, 1),
        normal(0, 2),
        control(1, 1),
    ];
    (store, vec![0, 1, 2, 3, 4, 5, 6, 7])
}

#[test]
fn mixed_arcs_report_one_segment_per_control() {
    let (store, order) = square_with_four_arcs();
    let (r, left, out) = run_polygon(&store, order.clone());
    assert_eq!(r, Ok(()));
    assert_eq!(out.len(), 4);
    // Bottom (1, -1) and right (3, 1) bulge out; top and left controls at
    // (1, 1) lie inside.
    assert_eq!(left, vec![0, 2, 4, 5, 6, 7]);
    assert_eq!(left.len(), order.len() - 2);
    assert_eq!(out[0], QuadraticBezierSegment { from: v(0, 0), ctrl: v(1, -1), to: v(2, 0) });
    assert_eq!(out[1], QuadraticBezierSegment { from: v(2, 0), ctrl: v(3, 1), to: v(2, 2) });
    assert_eq!(out[2], QuadraticBezierSegment { from: v(2, 2), ctrl: v(1, 1), to: v(0, 2) });
    assert_eq!(out[3], QuadraticBezierSegment { from: v(0, 2), ctrl: v(1, 1), to: v(0, 0) });
}

#[test]
fn kernel_and_polygon_agree() {
    let (store, order) = square_with_four_arcs();
    for shift in 0..order.len() {
        let mut rotated = order.clone();
        rotated.rotate_left(shift);
        let (rp, left, outp) = run_polygon(&store, rotated.clone());
        let (rk, outk) = run_kernel(&store, rotated);
        assert_eq!(rp, Ok(()));
        assert_eq!(rk, Ok(left));
        assert_eq!(outk, outp);
    }
}

#[test]
fn kernel_loop_closes_after_separation() {
    let (store, order) = square_with_four_arcs();
    let mut kernel = ConnectivityKernel::new();
    let e = kernel.add_loop(&order);
    let mut out = Vec::new();
    let f = separate_bezier_faces(&mut kernel, e, &store, &mut out).unwrap();
    let edges = kernel.loop_from(f).unwrap();
    assert_eq!(edges.len(), order.len() - 2);
    for &x in edges.iter() {
        assert_eq!(kernel.loop_from(x).unwrap().len(), edges.len());
    }
}

#[test]
fn kernel_keeps_edges_and_their_order() {
    let (store, order) = square_with_four_arcs();
    let mut kernel = ConnectivityKernel::new();
    let other = kernel.add_loop(&vec![0, 2, 4]);
    let e = kernel.add_loop(&order);
    let before = kernel.edges.clone();
    let mut out = Vec::new();
    let f = separate_bezier_faces(&mut kernel, e, &store, &mut out).unwrap();
    assert_eq!(kernel.num_edges(), before.len());
    assert_eq!(kernel.loop_from(f).unwrap(), vec![e, e + 2, e + 4, e + 5, e + 6, e + 7]);
    for x in other..other + 3 {
        assert_eq!(kernel.edges[x], before[x]);
    }
}

#[test]
fn kernel_without_controls_is_untouched() {
    let store = vec![normal(0, 0), normal(2, 0), normal(2, 2), normal(0, 2), control(1, 1)];
    let mut kernel = ConnectivityKernel::new();
    let e = kernel.add_loop(&vec![0, 1, 2, 3]);
    let before = kernel.edges.clone();
    let mut out = Vec::new();
    assert_eq!(separate_bezier_faces(&mut kernel, e + 2, &store, &mut out), Ok(e + 2));
    assert_eq!(kernel.edges, before);
    assert!(out.is_empty());
}

#[test]
fn malformed_links_are_refused() {
    let store = vec![normal(0, 0), normal(1, 0)];
    let mut kernel = ConnectivityKernel {
        edges: vec![
            HalfEdge { next: 1, prev: 1, vertex: 0 },
            HalfEdge { next: 7, prev: 0, vertex: 1 },
        ],
    };
    let mut out = Vec::new();
    assert_eq!(
        separate_bezier_faces(&mut kernel, 0, &store, &mut out),
        Err(BezierError::MalformedLoop)
    );
    assert!(out.is_empty());
}

#[test]
fn inconsistent_back_links_are_refused() {
    let store = vec![normal(0, 0), normal(1, 0), normal(1, 1)];
    let mut kernel = ConnectivityKernel {
        edges: vec![
            HalfEdge { next: 1, prev: 2, vertex: 0 },
            HalfEdge { next: 2, prev: 2, vertex: 1 },
            HalfEdge { next: 0, prev: 1, vertex: 2 },
        ],
    };
    let mut out = Vec::new();
    assert_eq!(
        separate_bezier_faces(&mut kernel, 0, &store, &mut out),
        Err(BezierError::MalformedLoop)
    );
}

#[test]
fn unknown_start_edge_is_refused() {
    let store = vec![normal(0, 0)];
    let mut kernel = ConnectivityKernel::new();
    kernel.add_loop(&vec![0]);
    let mut out = Vec::new();
    assert_eq!(
        separate_bezier_faces(&mut kernel, 3, &store, &mut out),
        Err(BezierError::MalformedLoop)
    );
}

#[test]
fn single_arc_cut_takes_control_edge_off_the_loop() {
    let store = square_with_arc(-1);
    let mut kernel = ConnectivityKernel::new();
    let e = kernel.add_loop(&vec![0, 1, 2, 3, 4]);
    let mut out = Vec::new();
    separate_quadratic_bezier(&mut kernel, e + 1, &store, &mut out);
    assert_eq!(out, vec![QuadraticBezierSegment { from: v(0, 0), ctrl: v(1, -1), to: v(2, 0) }]);
    assert_eq!(kernel.num_edges(), 5);
    assert_eq!(kernel.loop_from(e + 2).unwrap(), vec![e + 2, e + 3, e + 4, e]);
    assert_eq!(kernel_loop_vertices(&kernel, e), vec![0, 2, 3, 4]);
    assert_eq!(kernel.loop_from(e + 1).unwrap(), vec![e + 1]);
}

#[test]
fn single_arc_inside_leaves_kernel_as_is() {
    let store = square_with_arc(1);
    let mut kernel = ConnectivityKernel::new();
    let e = kernel.add_loop(&vec![0, 1, 2, 3, 4]);
    let before = kernel.edges.clone();
    let mut out = Vec::new();
    separate_quadratic_bezier(&mut kernel, e + 1, &store, &mut out);
    assert_eq!(kernel.edges, before);
    assert_eq!(out.len(), 1);
}

#[test]
fn polygon_navigation_wraps() {
    let mut polygon = Polygon::new(vec![4, 5, 6]);
    assert_eq!(polygon.next(2), 0);
    assert_eq!(polygon.previous(0), 2);
    assert_eq!(polygon.vertex(1), 5);
    polygon.remove_vertex(1);
    assert_eq!(polygon.vertices, vec![4, 6]);
    assert_eq!(polygon.len(), 2);
}

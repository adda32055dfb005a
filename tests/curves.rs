use hex_ln::math::{factorial, Bezier, STEPS};
use hex_ln::outline::SplineBuilder;
use hex_ln::raster::{fan_vertices, DEN};

#[test]
fn factorial_small_values() {
    assert_eq!(factorial(0), 1);
    assert_eq!(factorial(1), 1);
    assert_eq!(factorial(3), 6);
    assert_eq!(factorial(5), 120);
}

#[test]
fn bezier_needs_two_to_four_points() {
    assert!(Bezier::new(vec![[0, 0]]).is_none());
    assert!(Bezier::new(vec![[0, 0], [1, 1]]).is_some());
    assert!(Bezier::new(vec![[0, 0], [1, 1], [2, 2], [3, 3]]).is_some());
    assert!(Bezier::new(vec![[0, 0], [1, 1], [2, 2], [3, 3], [4, 4]]).is_none());
}

#[test]
fn cubic_endpoints_are_exact() {
    let b = Bezier::new(vec![[3, -7], [100, 40], [-50, 90], [12, 5]]).unwrap();
    for n in [1usize, 2, 7, 10] {
        let s = b.subdivide(n);
        let den = (n * n * n) as i128;
        assert_eq!(s.den as i128, den);
        assert_eq!(s.points.len(), n + 1);
        assert_eq!(s.points[0], [3 * den, -7 * den]);
        assert_eq!(s.points[n], [12 * den, 5 * den]);
    }
}

#[test]
fn quadratic_midpoint() {
    // At t = 1/2: (P0 + 2 P1 + P2) / 4.
    let b = Bezier::new(vec![[0, 0], [10, 20], [20, 0]]).unwrap();
    let s = b.subdivide(2);
    assert_eq!(s.den, 4);
    assert_eq!(s.points[1], [40, 40]);
}

#[test]
fn line_samples_are_evenly_spaced() {
    let b = Bezier::new(vec![[-5, 8], [25, -4]]).unwrap();
    let n = 6usize;
    let s = b.subdivide(n);
    assert_eq!(s.den, 6);
    for i in 0..n {
        let a = s.points[i];
        let c = s.points[i + 1];
        assert_eq!([c[0] - a[0], c[1] - a[1]], [30, -12]);
    }
    assert_eq!(s.points[3], [6 * -5 + 3 * 30, 6 * 8 + 3 * -12]);
}

#[test]
fn outline_commands_build_contours() {
    let mut sb = SplineBuilder::new();
    sb.move_to(0, 0);
    sb.line_to(10, 0);
    sb.quad_to(15, 5, 10, 10);
    sb.curve_to(8, 12, 2, 12, 0, 10);
    sb.close();
    sb.move_to(3, 3);
    sb.line_to(4, 4);
    let splines = sb.build();
    assert_eq!(splines.len(), 2);
    assert_eq!(splines[0].len(), 3);
    assert_eq!(splines[0][0].points, vec![[0, 0], [10, 0]]);
    assert_eq!(splines[0][1].points, vec![[10, 0], [15, 5], [10, 10]]);
    assert_eq!(splines[0][2].points, vec![[10, 10], [8, 12], [2, 12], [0, 10]]);
    assert_eq!(splines[1].len(), 1);
    assert_eq!(splines[1][0].points, vec![[3, 3], [4, 4]]);
}

#[test]
fn close_adds_no_segment() {
    let mut sb = SplineBuilder::new();
    sb.move_to(0, 0);
    sb.line_to(5, 0);
    sb.line_to(5, 5);
    sb.close();
    let splines = sb.build();
    assert_eq!(splines[0].len(), 2);
    assert_eq!(splines[0][1].points[1], [5, 5]);
}

#[test]
fn fan_maps_box_onto_unit_square() {
    let mut sb = SplineBuilder::new();
    sb.move_to(0, 0);
    sb.line_to(10, 20);
    let splines = sb.build();
    let fan = fan_vertices(&splines, [0, 0], [10, 20]);
    assert_eq!(fan.den, [10 * DEN, 20 * DEN]);
    assert_eq!(fan.verts.len(), STEPS + 1);
    // Vertex i lies at (i/5 - 1, i/5 - 1).
    for (i, v) in fan.verts.iter().enumerate() {
        let i = i as i128;
        assert_eq!(v[0] * 5, (i - 5) * fan.den[0]);
        assert_eq!(v[1] * 5, (i - 5) * fan.den[1]);
    }
    assert_eq!(fan.verts[0], [-fan.den[0], -fan.den[1]]);
    assert_eq!(fan.verts[10], [fan.den[0], fan.den[1]]);
}

#[test]
fn fan_of_offset_cubic_keeps_order() {
    let mut sb = SplineBuilder::new();
    sb.move_to(100, 50);
    sb.curve_to(100, 150, 300, 150, 300, 50);
    sb.move_to(200, 50);
    sb.line_to(200, 100);
    let splines = sb.build();
    let fan = fan_vertices(&splines, [100, 50], [200, 100]);
    assert_eq!(fan.verts.len(), 2 * (STEPS + 1));
    // First vertex: bottom-left corner; last of the cubic: bottom-right corner.
    assert_eq!(fan.verts[0], [-fan.den[0], -fan.den[1]]);
    assert_eq!(fan.verts[10], [fan.den[0], -fan.den[1]]);
    // Cubic midpoint: x = 200, y = 50 + 75 = 125, i.e. (0, 0.5).
    assert_eq!(fan.verts[5], [0, fan.den[1] / 2]);
    // The line starts at (200, 50) and ends at (200, 100).
    assert_eq!(fan.verts[11], [0, -fan.den[1]]);
    assert_eq!(fan.verts[21], [0, 0]);
}

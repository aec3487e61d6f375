use opening_analysis::frac::Frac;
use opening_analysis::mesh::{iterate_triangles, subdivide, SimplexPoint, Triangle};
use opening_analysis::plot::{
    convert_to_plot_coords, draw_main_group_start, draw_main_triangle, fractions,
    triangle_centroid,
};

fn frac_f64(f: &Frac) -> f64 {
    f.num as f64 / f.den as f64
}

fn grid(num1: u32, num2: u32, den: u32) -> SimplexPoint {
    SimplexPoint { num1, num2, den }
}

#[test]
fn fractions_of_ten_are_the_nine_inner_tenths() {
    let res = fractions(10);
    assert_eq!(res.len(), 9);
    for (i, f) in res.iter().enumerate() {
        assert_eq!(f.num, i as i128 + 1);
        assert_eq!(f.den, 10);
        let v = frac_f64(f);
        assert!(v > 0.0 && v < 1.0);
        assert!((v - (i as f64 + 1.0) / 10.0).abs() < 1e-12);
    }
    for w in res.windows(2) {
        assert!(frac_f64(&w[0]) < frac_f64(&w[1]));
    }
}

#[test]
fn fractions_degenerate_denominators() {
    assert_eq!(fractions(0).len(), 0);
    assert_eq!(fractions(1).len(), 0);
    assert_eq!(fractions(2).len(), 1);
}

#[test]
fn subdivide_emits_resolution_squared_triangles() {
    for n in [1u32, 2, 3, 10, 25] {
        let cells = subdivide(n);
        assert_eq!(cells.len(), (n * n) as usize);
    }
}

#[test]
fn subdivide_zero_is_empty() {
    assert_eq!(subdivide(0).len(), 0);
}

#[test]
fn subdivide_areas_sum_to_the_whole_simplex() {
    for n in [1u32, 2, 3, 10, 25] {
        let cells = subdivide(n);
        let mut total = 0.0f64;
        for t in &cells {
            let (x1, y1) = (
                t.point1.num1 as f64 / t.point1.den as f64,
                t.point1.num2 as f64 / t.point1.den as f64,
            );
            let (x2, y2) = (
                t.point2.num1 as f64 / t.point2.den as f64,
                t.point2.num2 as f64 / t.point2.den as f64,
            );
            let (x3, y3) = (
                t.point3.num1 as f64 / t.point3.den as f64,
                t.point3.num2 as f64 / t.point3.den as f64,
            );
            let doubled = (x2 - x1) * (y3 - y1) - (y2 - y1) * (x3 - x1);
            total += doubled.abs() / 2.0;
        }
        // The simplex covers half of the unit square in (p1, p2) coordinates;
        // in simplex-probability units the covered share is one.
        assert!((total / 0.5 - 1.0).abs() < 1e-9, "resolution {}", n);
    }
}

#[test]
fn subdivide_vertices_are_valid_simplex_points() {
    for n in [1u32, 2, 3, 10, 25] {
        for t in subdivide(n) {
            for p in [t.point1, t.point2, t.point3] {
                assert_eq!(p.den, n);
                assert!(p.num1 + p.num2 <= p.den);
            }
        }
    }
}

#[test]
fn subdivide_two_matches_hand_computed_mesh() {
    let cells = subdivide(2);
    let expected: Vec<Triangle> = vec![
        Triangle { point1: grid(1, 1, 2), point2: grid(0, 2, 2), point3: grid(0, 1, 2) },
        Triangle { point1: grid(2, 0, 2), point2: grid(1, 1, 2), point3: grid(1, 0, 2) },
        Triangle { point1: grid(1, 1, 2), point2: grid(1, 0, 2), point3: grid(0, 1, 2) },
        Triangle { point1: grid(1, 0, 2), point2: grid(0, 1, 2), point3: grid(0, 0, 2) },
    ];
    assert_eq!(cells.len(), 4);
    for (c, e) in cells.iter().zip(expected.iter()) {
        assert_eq!(c, e);
    }
}

#[test]
fn subdivide_runs_are_identical() {
    let first = subdivide(10);
    let second = subdivide(10);
    assert_eq!(first, second);
}

#[test]
fn subdivide_starts_at_the_apex_row() {
    let cells = subdivide(3);
    assert_eq!(
        cells[0],
        Triangle { point1: grid(1, 2, 3), point2: grid(0, 3, 3), point3: grid(0, 2, 3) }
    );
}

#[test]
fn triangle_iterator_is_restartable_and_finite() {
    let mut it = iterate_triangles(3);
    let mut count = 0;
    while let Some(_) = it.next() {
        count += 1;
    }
    assert_eq!(count, 9);
    assert!(it.next().is_none());

    let mut again = iterate_triangles(3);
    let mut count2 = 0;
    while let Some(_) = again.next() {
        count2 += 1;
    }
    assert_eq!(count2, 9);
}

#[test]
fn corners_map_to_an_equilateral_triangle() {
    let w = convert_to_plot_coords(&grid(1, 0, 1));
    let d = convert_to_plot_coords(&grid(0, 1, 1));
    let l = convert_to_plot_coords(&grid(0, 0, 1));
    let pts = [
        (frac_f64(&w.x), frac_f64(&w.y)),
        (frac_f64(&d.x), frac_f64(&d.y)),
        (frac_f64(&l.x), frac_f64(&l.y)),
    ];
    assert!((pts[0].0 - 0.0).abs() < 1e-9 && (pts[0].1 - 400.0).abs() < 1e-9);
    assert!((pts[2].0 - 400.0).abs() < 1e-9 && (pts[2].1 - 400.0).abs() < 1e-9);
    assert!((pts[1].0 - 200.0).abs() < 1e-9);
    let dist = |a: (f64, f64), b: (f64, f64)| ((a.0 - b.0).powi(2) + (a.1 - b.1).powi(2)).sqrt();
    let d1 = dist(pts[0], pts[1]);
    let d2 = dist(pts[1], pts[2]);
    let d3 = dist(pts[2], pts[0]);
    assert!((d1 - 400.0).abs() < 1e-9);
    assert!((d2 - 400.0).abs() < 1e-9);
    assert!((d3 - 400.0).abs() < 1e-9);
}

#[test]
fn centroid_averages_the_vertices() {
    let t = Triangle { point1: grid(1, 1, 2), point2: grid(0, 2, 2), point3: grid(0, 1, 2) };
    let (c1, c2) = triangle_centroid(&t);
    assert_eq!(c1.num, 1);
    assert_eq!(c1.den, 6);
    assert_eq!(c2.num, 4);
    assert_eq!(c2.den, 6);
}

#[test]
fn main_group_translation_offsets() {
    let off = draw_main_group_start();
    assert!((frac_f64(&off.x) - 80.0).abs() < 1e-12);
    // The margin less the height of the top corner: 80 - 400 * (1 - sqrt(3)/2).
    assert!((frac_f64(&off.y) - 26.410161513775457).abs() < 1e-9);
}

#[test]
fn main_triangle_ticks_and_labels() {
    let fig = draw_main_triangle();
    assert_eq!(fig.draw_lines.len(), 9);
    assert_eq!(fig.black_lines.len(), 9);
    assert_eq!(fig.white_lines.len(), 9);
    let percents: Vec<u32> = fig.tick_percents.clone();
    assert_eq!(percents, vec![10, 20, 30, 40, 50, 60, 70, 80, 90]);
    let offsets: Vec<u32> = fig.tick_offsets.clone();
    assert_eq!(offsets, vec![400, 360, 320, 280, 240, 200, 160, 120, 80]);
    // Draw (horizontal) tick lines stay level: both ends share the y value.
    for line in &fig.draw_lines {
        assert_eq!(line.start.y.num, line.end.y.num);
        assert_eq!(line.start.y.den, line.end.y.den);
    }
    // First draw line: from one tick length left of the left edge at 10%
    // draw probability, across to the right edge.
    let first = &fig.draw_lines[0];
    assert!((frac_f64(&first.start.x) - -20.0).abs() < 1e-9);
    assert!((frac_f64(&first.end.x) - 380.0).abs() < 1e-9);
    let y = frac_f64(&first.start.y);
    assert!((y - 400.0 * (1.0 - 0.1 * 0.8660254037844386)).abs() < 1e-9);
}

#[test]
fn main_triangle_corners_and_arrows() {
    let fig = draw_main_triangle();
    assert!((frac_f64(&fig.corner_white.x) - 0.0).abs() < 1e-12);
    assert!((frac_f64(&fig.corner_white.y) - 400.0).abs() < 1e-12);
    assert!((frac_f64(&fig.corner_draw.x) - 200.0).abs() < 1e-12);
    assert!(
        (frac_f64(&fig.corner_draw.y) - 400.0 * (1.0 - 0.8660254037844386)).abs() < 1e-9
    );
    assert!((frac_f64(&fig.corner_black.x) - 400.0).abs() < 1e-12);
    assert!((frac_f64(&fig.corner_black.y) - 400.0).abs() < 1e-12);
    assert!((frac_f64(&fig.bottom_arrow.start.x) - 300.0).abs() < 1e-12);
    assert!((frac_f64(&fig.bottom_arrow.start.y) - 460.0).abs() < 1e-12);
    assert!((frac_f64(&fig.bottom_arrow.end.x) - 100.0).abs() < 1e-12);
    assert!((frac_f64(&fig.bottom_arrow_reverse.end.x) - 300.0).abs() < 1e-12);
    // The left axis arrow runs parallel to the left edge, from below-left
    // to above-right of the edge's midpoint.
    let ar = 0.8660254037844386f64;
    let sx = frac_f64(&fig.left_arrow.start.x);
    let sy = frac_f64(&fig.left_arrow.start.y);
    let ex = frac_f64(&fig.left_arrow.end.x);
    let ey = frac_f64(&fig.left_arrow.end.y);
    assert!((sx - (50.0 - 60.0 * ar)).abs() < 1e-9);
    assert!((sy - (370.0 - 100.0 * ar)).abs() < 1e-9);
    assert!((ex - (150.0 - 60.0 * ar)).abs() < 1e-9);
    assert!((ey - (370.0 - 300.0 * ar)).abs() < 1e-9);
}

use palette_helper::trig::{angle_of_vector, vector_at_angle, FULL_TURN, TRIG_LIMIT};

fn reference_angle(x: i64, y: i64) -> f64 {
    let d = (y as f64).atan2(x as f64).to_degrees();
    if d < 0.0 { d + 360.0 } else { d }
}

fn angle_gap(a: f64, b: f64) -> f64 {
    let d = (a - b).abs() % 360.0;
    d.min(360.0 - d)
}

fn sample_vectors() -> Vec<(i64, i64)> {
    let mut out = Vec::new();
    let steps = [-TRIG_LIMIT, -5_000_000, -1_234_567, -250_000, -40_000, -3_000, -1, 0, 1, 3_000, 40_000, 250_000, 1_234_567, 5_000_000, TRIG_LIMIT];
    for &x in &steps {
        for &y in &steps {
            out.push((x, y));
        }
    }
    out
}

#[test]
fn angle_matches_atan2() {
    for (x, y) in sample_vectors() {
        let h = angle_of_vector(x, y);
        assert!(h >= 0 && h < FULL_TURN);
        if x == 0 && y == 0 {
            assert_eq!(h, 0);
            continue;
        }
        let len = ((x as f64).powi(2) + (y as f64).powi(2)).sqrt();
        let got = h as f64 / 1e6;
        // each of the 24 steps rounds by under one unit: about 24 / len radians in all
        let tolerance = 0.0001 + 1500.0 / len;
        assert!(angle_gap(got, reference_angle(x, y)) <= tolerance, "({}, {}): {} vs {}", x, y, got, reference_angle(x, y));
    }
}

#[test]
fn vector_matches_cos_and_sin() {
    for &len in &[0i64, 1_000, 77_777, 400_000, 3_000_000, TRIG_LIMIT] {
        let mut h: i64 = 0;
        while h < FULL_TURN {
            let (x, y) = vector_at_angle(len, h);
            let rad = (h as f64 / 1e6).to_radians();
            let ex = len as f64 * rad.cos();
            let ey = len as f64 * rad.sin();
            let tolerance = 30.0 + len as f64 * 1e-5;
            assert!((x as f64 - ex).abs() <= tolerance && (y as f64 - ey).abs() <= tolerance, "len {} at {}: ({}, {}) vs ({}, {})", len, h, x, y, ex, ey);
            h += 7_345_678;
        }
    }
}

#[test]
fn polar_round_trip() {
    for (x, y) in sample_vectors() {
        let len = (((x as f64).powi(2) + (y as f64).powi(2)).sqrt().floor() as i64).min(TRIG_LIMIT);
        let (bx, by) = vector_at_angle(len, angle_of_vector(x, y));
        if len == TRIG_LIMIT {
            continue;
        }
        let tolerance = 30.0 + len as f64 * 2e-5;
        assert!((bx - x).abs() as f64 <= tolerance && (by - y).abs() as f64 <= tolerance, "({}, {}) came back as ({}, {})", x, y, bx, by);
    }
}

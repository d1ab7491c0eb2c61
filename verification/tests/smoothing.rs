// Tests for corner-cutting smoothing. Coordinates are exact fixed-point
// values: i64 mantissas at a power-of-two scale chosen per axis, with two
// spare low bits per pass so that every corner cut is exact.

use fast_curves::CurveError;
use fast_curves::fast_2d_step;
use fast_curves::fast_3d_step;
use fast_curves::fast_curve_2d;
use fast_curves::fast_curve_3d;

/// Scale real coordinates to exact i64 mantissas at the given power-of-two
/// scale. Every value used by the tests is exactly representable.
fn scaled(vals: &[f64], scale: f64) -> Vec<i64> {
    vals.iter()
        .map(|v| {
            let m = v * scale;
            assert_eq!(m.fract(), 0.0);
            m as i64
        })
        .collect()
}

#[test]
fn test_2d() {
    // Four passes over five control points, at scale 2^9: one bit for the
    // half in y, and two spare bits for each of the four passes.
    let s = 512.0;
    let x = scaled(&[1.0, 1.0, 4.0, 5.0, 2.0], s);
    let y = scaled(&[1.0, 2.0, 0.5, 1.0, 2.0], s);
    let n: u8 = 4;

    let xref = [
        1.0, 1.0, 1.01171875, 1.03515625, 1.0703125, 1.1171875, 1.17578125, 1.24609375, 1.328125,
        1.421875, 1.52734375, 1.64453125, 1.7734375, 1.9140625, 2.06640625, 2.23046875, 2.40625,
        2.59375, 2.7734375, 2.9453125, 3.109375, 3.265625, 3.4140625, 3.5546875, 3.6875, 3.8125,
        3.9296875, 4.0390625, 4.140625, 4.234375, 4.3203125, 4.3984375, 4.46875, 4.53125,
        4.578125, 4.609375, 4.625, 4.625, 4.609375, 4.578125, 4.53125, 4.46875, 4.37890625,
        4.26171875, 4.1171875, 3.9453125, 3.7109375, 3.4140625, 2.94921875, 2.0,
    ];

    let yref = [
        1.0, 1.31640625, 1.466796875, 1.556640625, 1.62109375, 1.66015625, 1.685546875,
        1.697265625, 1.6953125, 1.6796875, 1.654296875, 1.619140625, 1.57421875, 1.51953125,
        1.455078125, 1.380859375, 1.296875, 1.203125, 1.1171875, 1.0390625, 0.96875, 0.90625,
        0.8515625, 0.8046875, 0.765625, 0.734375, 0.7109375, 0.6953125, 0.6875, 0.6875, 0.6953125,
        0.7109375, 0.734375, 0.765625, 0.798828125, 0.833984375, 0.87109375, 0.91015625,
        0.951171875, 0.994140625, 1.0390625, 1.0859375, 1.138671875, 1.197265625, 1.26171875,
        1.33203125, 1.419921875, 1.525390625, 1.68359375, 2.0,
    ];

    let (xres, yres) = fast_curve_2d(&x, &y, n).unwrap();

    for i in 0..xref.len() {
        assert_eq!(xres[i], (xref[i] * s) as i64);
        assert_eq!(yres[i], (yref[i] * s) as i64);
    }
}

#[test]
fn test_3d() {
    // x and y as in the 2D scenario; z carries the full 52 fractional bits of
    // the double closest to 0.8, plus the eight spare bits the passes need.
    let s = 512.0;
    let sz = (1u64 << 60) as f64;
    let x = scaled(&[1.0, 1.0, 4.0, 5.0, 2.0], s);
    let y = scaled(&[1.0, 2.0, 0.5, 1.0, 2.0], s);
    let z = scaled(&[1.0, 2.0, 0.8, 1.0, 1.5], sz);
    let n: u8 = 4;

    let xref = [
        1.0, 1.0, 1.01171875, 1.03515625, 1.0703125, 1.1171875, 1.17578125, 1.24609375, 1.328125,
        1.421875, 1.52734375, 1.64453125, 1.7734375, 1.9140625, 2.06640625, 2.23046875, 2.40625,
        2.59375, 2.7734375, 2.9453125, 3.109375, 3.265625, 3.4140625, 3.5546875, 3.6875, 3.8125,
        3.9296875, 4.0390625, 4.140625, 4.234375, 4.3203125, 4.3984375, 4.46875, 4.53125,
        4.578125, 4.609375, 4.625, 4.625, 4.609375, 4.578125, 4.53125, 4.46875, 4.37890625,
        4.26171875, 4.1171875, 3.9453125, 3.7109375, 3.4140625, 2.94921875, 2.0,
    ];

    let yref = [
        1.0, 1.31640625, 1.466796875, 1.556640625, 1.62109375, 1.66015625, 1.685546875,
        1.697265625, 1.6953125, 1.6796875, 1.654296875, 1.619140625, 1.57421875, 1.51953125,
        1.455078125, 1.380859375, 1.296875, 1.203125, 1.1171875, 1.0390625, 0.96875, 0.90625,
        0.8515625, 0.8046875, 0.765625, 0.734375, 0.7109375, 0.6953125, 0.6875, 0.6875, 0.6953125,
        0.7109375, 0.734375, 0.765625, 0.798828125, 0.833984375, 0.87109375, 0.91015625,
        0.951171875, 0.994140625, 1.0390625, 1.0859375, 1.138671875, 1.197265625, 1.26171875,
        1.33203125, 1.419921875, 1.525390625, 1.68359375, 2.0,
    ];

    let (xres, yres, zres) = fast_curve_3d(&x, &y, &z, n).unwrap();

    for i in 0..xref.len() {
        assert_eq!(xres[i], (xref[i] * s) as i64);
        assert_eq!(yres[i], (yref[i] * s) as i64);
    }

    // The z axis satisfies the same length formula, and its endpoints are the
    // original z endpoints - copied from z itself, not from another axis.
    assert_eq!(zres.len(), 50);
    assert_eq!(zres[0], z[0]);
    assert_eq!(zres[49], z[4]);
    assert_ne!(zres[0], y[0]);
    assert_ne!(zres[49], y[4]);
}

#[test]
fn single_step_exact_values() {
    // One pass over three points: the corner at the middle vertex is cut a
    // quarter of the way along each adjacent edge.
    let x = vec![0, 4, 8];
    let y = vec![-4, 0, 8];
    let (xs, ys) = fast_2d_step(&x, &y).unwrap();
    assert_eq!(xs, vec![0, 3, 5, 8]);
    assert_eq!(ys, vec![-4, -1, 2, 8]);
}

#[test]
fn single_step_3d_exact_values() {
    let x = vec![0, 4, 8];
    let y = vec![-4, 0, 8];
    let z = vec![400, 0, -400];
    let (xs, ys, zs) = fast_3d_step(&x, &y, &z).unwrap();
    assert_eq!(xs, vec![0, 3, 5, 8]);
    assert_eq!(ys, vec![-4, -1, 2, 8]);
    assert_eq!(zs, vec![400, 100, -100, -400]);
}

#[test]
fn endpoints_preserved_many_passes() {
    // Three passes need six spare low bits: all inputs are multiples of 64.
    let x = vec![-320, 640, 1280, -64, 192];
    let y = vec![448, -128, 0, 832, -640];
    let (xs, ys) = fast_curve_2d(&x, &y, 3).unwrap();
    assert_eq!(xs[0], -320);
    assert_eq!(*xs.last().unwrap(), 192);
    assert_eq!(ys[0], 448);
    assert_eq!(*ys.last().unwrap(), -640);
}

#[test]
fn length_recurrence() {
    // L = 6 becomes 2*6 - 2 = 10 after one pass and 2*10 - 2 = 18 after two.
    let x = vec![0, 16, 32, 48, 64, 80];
    let y = vec![80, 64, 48, 32, 16, 0];
    let (x1, y1) = fast_2d_step(&x, &y).unwrap();
    assert_eq!(x1.len(), 10);
    assert_eq!(y1.len(), 10);
    let (x2, y2) = fast_curve_2d(&x, &y, 2).unwrap();
    assert_eq!(x2.len(), 18);
    assert_eq!(y2.len(), 18);
}

#[test]
fn shared_weights_across_axes() {
    // Running the 2D step on (x, y) and separately on (x, z) cuts the shared
    // axis identically: the weights per index do not depend on the other axis.
    let x = vec![0, 4, 16, -8, 20];
    let y = vec![0, 0, 0, 0, 0];
    let z = vec![-100, 400, 80, 1200, 4];
    let (x_with_y, _) = fast_2d_step(&x, &y).unwrap();
    let (x_with_z, _) = fast_2d_step(&x, &z).unwrap();
    assert_eq!(x_with_y, x_with_z);
}

#[test]
fn two_points_unchanged() {
    // A bare segment has no interior corner to cut: any number of passes
    // returns it unchanged, and no spare low bits are needed.
    let x = vec![7, -13];
    let y = vec![-1, 3];
    let (xs, ys) = fast_curve_2d(&x, &y, 9).unwrap();
    assert_eq!(xs, x);
    assert_eq!(ys, y);
    let (xs1, ys1, zs1) = fast_curve_3d(&x, &y, &x, 200).unwrap();
    assert_eq!(xs1, x);
    assert_eq!(ys1, y);
    assert_eq!(zs1, x);
}

#[test]
fn driver_once_equals_single_step() {
    let x = vec![0, 4, 8, 12];
    let y = vec![12, 8, 4, 0];
    let stepped = fast_2d_step(&x, &y).unwrap();
    let driven = fast_curve_2d(&x, &y, 1).unwrap();
    assert_eq!(stepped, driven);
}

#[test]
fn mismatched_lengths_rejected() {
    let x = vec![0, 4, 8];
    let y = vec![0, 4];
    assert_eq!(fast_2d_step(&x, &y), Err(CurveError::LengthMismatch));
    assert_eq!(fast_curve_2d(&x, &y, 2), Err(CurveError::LengthMismatch));
    let z = vec![0, 4, 8, 12];
    assert_eq!(fast_3d_step(&x, &x, &z), Err(CurveError::LengthMismatch));
    assert_eq!(fast_curve_3d(&x, &x, &z, 2), Err(CurveError::LengthMismatch));
}

#[test]
fn too_short_rejected() {
    let x = vec![4];
    let y = vec![8];
    assert_eq!(fast_2d_step(&x, &y), Err(CurveError::TooShort));
    assert_eq!(fast_curve_2d(&x, &y, 1), Err(CurveError::TooShort));
    assert_eq!(fast_3d_step(&x, &y, &x), Err(CurveError::TooShort));
    assert_eq!(fast_curve_3d(&x, &y, &x, 1), Err(CurveError::TooShort));
    let empty: Vec<i64> = Vec::new();
    assert_eq!(fast_2d_step(&empty, &empty), Err(CurveError::TooShort));
}

#[test]
fn zero_passes_rejected() {
    let x = vec![0, 4, 8];
    let y = vec![8, 4, 0];
    assert_eq!(fast_curve_2d(&x, &y, 0), Err(CurveError::ZeroIterations));
    assert_eq!(fast_curve_3d(&x, &y, &x, 0), Err(CurveError::ZeroIterations));
    // Invalid lengths are reported before the pass count is examined.
    let short = vec![4];
    assert_eq!(fast_curve_2d(&x, &short, 0), Err(CurveError::LengthMismatch));
    assert_eq!(fast_curve_2d(&short, &short, 0), Err(CurveError::TooShort));
}

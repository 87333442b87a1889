use rupture_engine::fixed::{clip, safe_div, SCALE};
use rupture_engine::mad::mad;
use rupture_engine::median::median;
use rupture_engine::quantile::quantile;
use rupture_engine::rolling_window::RollingWindow;

fn fx(x: f64) -> i128 {
    (x * (SCALE as f64)).round() as i128
}

#[test]
fn test_median_odd() {
    let mut v = vec![fx(3.0), fx(1.0), fx(2.0)];
    assert_eq!(median(&mut v), fx(2.0));
}

#[test]
fn test_median_even() {
    let mut v = vec![fx(4.0), fx(1.0), fx(3.0), fx(2.0)];
    assert_eq!(median(&mut v), fx(2.5));
}

#[test]
fn test_median_single() {
    let mut v = vec![fx(7.0)];
    assert_eq!(median(&mut v), fx(7.0));
}

#[test]
fn test_median_empty() {
    let mut v: Vec<i128> = vec![];
    assert_eq!(median(&mut v), 0);
}

#[test]
fn test_mad_symmetric() {
    // For values [1,2,3,4,5], median = 3, deviations = [2,1,0,1,2], MAD = 1.
    let v = vec![fx(1.0), fx(2.0), fx(3.0), fx(4.0), fx(5.0)];
    assert_eq!(mad(&v), fx(1.0));
}

#[test]
fn test_mad_constant() {
    let v = vec![fx(5.0), fx(5.0), fx(5.0), fx(5.0)];
    assert_eq!(mad(&v), 0);
}

#[test]
fn test_quantile_median() {
    let v = vec![fx(1.0), fx(2.0), fx(3.0), fx(4.0), fx(5.0)];
    assert_eq!(quantile(&v, fx(0.5)), fx(3.0));
}

#[test]
fn test_quantile_extremes() {
    let v = vec![fx(10.0), fx(20.0), fx(30.0)];
    assert_eq!(quantile(&v, fx(0.0)), fx(10.0));
    assert_eq!(quantile(&v, fx(1.0)), fx(30.0));
}

#[test]
fn test_quantile_interpolation() {
    let v = vec![fx(0.0), fx(10.0)];
    assert_eq!(quantile(&v, fx(0.3)), fx(3.0));
}

#[test]
fn test_rolling_window_eviction() {
    let mut w = RollingWindow::new(3);
    w.push(fx(1.0));
    w.push(fx(2.0));
    w.push(fx(3.0));
    assert!(w.is_full());
    assert_eq!(w.len(), 3);

    w.push(fx(4.0));
    assert_eq!(w.len(), 3);
    let snap = w.sorted_snapshot();
    assert_eq!(snap, vec![fx(2.0), fx(3.0), fx(4.0)]);
}

#[test]
fn test_median_on_known_values() {
    let mut v = vec![fx(5.0), fx(1.0), fx(3.0), fx(2.0), fx(4.0)];
    assert_eq!(median(&mut v), fx(3.0));
}

#[test]
fn test_mad_on_known_values() {
    // [1, 2, 3, 4, 5]: median = 3, deviations = [2, 1, 0, 1, 2], MAD = 1.
    let v = vec![fx(1.0), fx(2.0), fx(3.0), fx(4.0), fx(5.0)];
    assert_eq!(mad(&v), fx(1.0));
}

#[test]
fn test_quantile_at_boundaries() {
    let v = vec![fx(10.0), fx(20.0), fx(30.0), fx(40.0), fx(50.0)];
    assert_eq!(quantile(&v, fx(0.0)), fx(10.0));
    assert_eq!(quantile(&v, fx(1.0)), fx(50.0));
    assert_eq!(quantile(&v, fx(0.5)), fx(30.0));
}

#[test]
fn test_quantile_95() {
    let v: Vec<i128> = (0..100).map(|i| fx(i as f64)).collect();
    let q95 = quantile(&v, fx(0.95));
    assert!((q95 as f64 / SCALE as f64 - 94.05).abs() < 0.1);
}

#[test]
fn test_quantile_clamps_out_of_range() {
    let v = vec![fx(10.0), fx(20.0), fx(30.0)];
    assert_eq!(quantile(&v, fx(2.0)), fx(30.0));
    assert_eq!(quantile(&v, fx(-1.0)), fx(10.0));
}

#[test]
fn test_clip_winsorises() {
    assert_eq!(clip(fx(5.0), fx(3.0)), fx(3.0));
    assert_eq!(clip(fx(-2.0), fx(3.0)), 0);
    assert_eq!(clip(fx(1.5), fx(3.0)), fx(1.5));
}

#[test]
fn test_safe_div_guards_zero_denominator() {
    assert_eq!(safe_div(fx(1.0), fx(0.0), 0), 0);
    assert_eq!(safe_div(fx(6.0), fx(2.0), 0), fx(3.0));
    assert_eq!(safe_div(fx(1.0), fx(-4.0), fx(4.0)), 0);
}

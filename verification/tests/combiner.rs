use rupture_engine::combine::soft_max_combine;
use rupture_engine::fixed::SCALE;

fn fx(x: f64) -> i128 {
    (x * (SCALE as f64)).round() as i128
}

#[test]
fn test_combine_all_zero() {
    let r = soft_max_combine(0, 0, 0, fx(0.35));
    // log(3) * tau ~ 0.384
    let expected = 0.35 * (3.0f64).ln();
    assert!((r as f64 / SCALE as f64 - expected).abs() < 1e-10);
}

#[test]
fn test_combine_dominated() {
    // With very small tau, should approach max.
    let r = soft_max_combine(fx(10.0), fx(1.0), fx(0.5), fx(0.01));
    assert!((r as f64 / SCALE as f64 - 10.0).abs() < 0.1);
}

#[test]
fn test_combine_matches_log_sum_exp() {
    // Spot-check against the real log-sum-exp on moderate inputs.
    let cases = [(0.2f64, 0.1f64, 0.05f64, 0.35f64), (1.0, 1.0, 1.0, 0.5), (0.0, 0.4, 0.0, 0.25)];
    for &(a, b, c, tau) in cases.iter() {
        let r = soft_max_combine(fx(a), fx(b), fx(c), fx(tau));
        let expected = tau * ((a / tau).exp() + (b / tau).exp() + (c / tau).exp()).ln();
        assert!(
            (r as f64 / SCALE as f64 - expected).abs() < 1e-9,
            "combine({}, {}, {}, {}) = {} but expected {}",
            a,
            b,
            c,
            tau,
            r as f64 / SCALE as f64,
            expected
        );
    }
}

use rupture_engine::fixed::SCALE;
use rupture_engine::memory::MemoryKernel;

fn fx(x: f64) -> i128 {
    (x * (SCALE as f64)).round() as i128
}

#[test]
fn memory_test_weights_sum_to_one() {
    let kernel = MemoryKernel::new(100, fx(0.65));
    let sum: f64 = kernel.weights().iter().map(|&w| w as f64 / SCALE as f64).sum();
    assert!((sum - 1.0).abs() < 1e-12);
}

#[test]
fn test_weights_monotone_decreasing() {
    let kernel = MemoryKernel::new(50, fx(0.65));
    let w = kernel.weights();
    for i in 1..w.len() {
        assert!(w[i] <= w[i - 1]);
    }
}

#[test]
fn test_constant_input() {
    let mut kernel = MemoryKernel::new(10, fx(0.5));
    let mut strain: i128 = 0;
    for _ in 0..20 {
        strain = kernel.push_and_accumulate(fx(1.0));
    }
    // With constant input 1.0 and weights summing to exactly one, the strain
    // is exactly 1.0.
    assert_eq!(strain, fx(1.0));
}

#[test]
fn memory_kernel_test_weights_sum_to_one() {
    for k in [10, 50, 100, 200] {
        for alpha in [0.3, 0.5, 0.65, 0.9] {
            let kernel = MemoryKernel::new(k, fx(alpha));
            let sum: f64 = kernel.weights().iter().map(|&w| w as f64 / SCALE as f64).sum();
            assert!(
                (sum - 1.0).abs() < 1e-12,
                "Weights do not sum to 1 for K={}, alpha={}",
                k,
                alpha
            );
        }
    }
}

#[test]
fn test_weights_are_monotone_decreasing() {
    let kernel = MemoryKernel::new(200, fx(0.65));
    let w = kernel.weights();
    for i in 1..w.len() {
        assert!(
            w[i] <= w[i - 1],
            "Weight at index {} ({}) exceeds weight at index {} ({})",
            i,
            w[i],
            i - 1,
            w[i - 1]
        );
    }
}

#[test]
fn test_constant_input_converges() {
    let mut kernel = MemoryKernel::new(50, fx(0.5));
    let mut strain: i128 = 0;
    for _ in 0..100 {
        strain = kernel.push_and_accumulate(fx(1.0));
    }
    assert!(
        (strain as f64 / SCALE as f64 - 1.0).abs() < 1e-10,
        "Constant input should produce strain of 1.0 but got {}",
        strain as f64 / SCALE as f64
    );
}

#[test]
fn test_zero_input_gives_zero_strain() {
    let mut kernel = MemoryKernel::new(20, fx(0.65));
    for _ in 0..30 {
        let s = kernel.push_and_accumulate(0);
        assert_eq!(s, 0);
    }
}

#[test]
fn test_impulse_response_decays() {
    let mut kernel = MemoryKernel::new(50, fx(0.65));
    // Push a single impulse, then zeros.
    let s0 = kernel.push_and_accumulate(fx(10.0));
    assert!(s0 > 0);
    let mut prev = s0;
    for _ in 0..49 {
        let s = kernel.push_and_accumulate(0);
        assert!(s <= prev, "Strain should decay after impulse");
        prev = s;
    }
}

#[test]
fn test_weights_match_power_law() {
    // Spot-check the fixed-point weights against the real power law
    // i^(-alpha) normalised to sum one.
    let k = 50usize;
    let alpha = 0.65f64;
    let kernel = MemoryKernel::new(k, fx(alpha));
    let raw: Vec<f64> = (1..=k).map(|i| (i as f64).powf(-alpha)).collect();
    let total: f64 = raw.iter().sum();
    for (i, &w) in kernel.weights().iter().enumerate() {
        let expected = raw[i] / total;
        assert!(
            (w as f64 / SCALE as f64 - expected).abs() < 1e-9,
            "weight {} is {} but the power law gives {}",
            i,
            w as f64 / SCALE as f64,
            expected
        );
    }
}

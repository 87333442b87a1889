use rupture_engine::config::StateMachineConfig;
use rupture_engine::fixed::SCALE;
use rupture_engine::state_machine::StateMachine;
use rupture_engine::types::RuptureState;

fn fx(x: f64) -> i128 {
    (x * (SCALE as f64)).round() as i128
}

fn default_cfg() -> StateMachineConfig {
    StateMachineConfig {
        rho_stressed: fx(0.60),
        rho_critical: fx(0.85),
        rho_rupture: fx(1.00),
        confirm_k: 3,
        confirm_m: 2,
        enable_recovery: true,
        recovery_hold: 2,
    }
}

#[test]
fn test_stable_below_threshold() {
    let cfg = default_cfg();
    let mut sm = StateMachine::new(cfg);
    let rhos = vec![fx(0.1), fx(0.2), fx(0.3), fx(0.4), fx(0.5)];
    for (i, &rho) in rhos.iter().enumerate() {
        let (state, cand, conf) = sm.update(i, &format!("t{}", i), rho);
        assert_eq!(state, RuptureState::Stable);
        assert!(!cand);
        assert!(!conf);
    }
}

#[test]
fn test_stressed_state() {
    let cfg = default_cfg();
    let mut sm = StateMachine::new(cfg);
    let (state, _, _) = sm.update(0, "t0", fx(0.3));
    assert_eq!(state, RuptureState::Stable);
    let (state, _, _) = sm.update(1, "t1", fx(0.7));
    assert_eq!(state, RuptureState::Stressed);
}

#[test]
fn test_critical_state() {
    let cfg = default_cfg();
    let mut sm = StateMachine::new(cfg);
    let (state, _, _) = sm.update(0, "t0", fx(0.3));
    assert_eq!(state, RuptureState::Stable);
    let (state, _, _) = sm.update(1, "t1", fx(0.9));
    assert_eq!(state, RuptureState::Critical);
}

#[test]
fn test_single_spike_no_confirmation() {
    // A single bar above 1.0 then dropping below should not confirm for k=3, m=2.
    let cfg = default_cfg();
    let mut sm = StateMachine::new(cfg);

    // Build up to below threshold.
    sm.update(0, "t0", fx(0.5));
    let (state, cand, _) = sm.update(1, "t1", fx(1.2));
    assert_eq!(state, RuptureState::CandidateRupture);
    assert!(cand);

    // Next two bars below threshold.
    let (_, _, conf) = sm.update(2, "t2", fx(0.8));
    assert!(!conf);
    let (state, _, conf) = sm.update(3, "t3", fx(0.7));
    assert!(!conf);
    // State should have reverted after confirmation window completes.
    assert_ne!(state, RuptureState::ConfirmedRupture);

    // Only one event, and it should be unconfirmed.
    let events = sm.events();
    assert_eq!(events.len(), 1);
    assert!(events[0].confirmed_index.is_none());
}

#[test]
fn test_sustained_above_confirms() {
    // Sustained above 1.0 for k bars should confirm with m-of-k.
    let cfg = default_cfg();
    let mut sm = StateMachine::new(cfg);

    sm.update(0, "t0", fx(0.5));
    let (state, cand, _) = sm.update(1, "t1", fx(1.5));
    assert_eq!(state, RuptureState::CandidateRupture);
    assert!(cand);

    // Next bars above threshold (total of k=3 bars including the candidate).
    sm.update(2, "t2", fx(1.3));
    let (state, _, conf) = sm.update(3, "t3", fx(1.1));
    assert_eq!(state, RuptureState::ConfirmedRupture);
    assert!(conf);

    let events = sm.events();
    let confirmed: Vec<_> = events.iter().filter(|e| e.confirmed_index.is_some()).collect();
    assert_eq!(confirmed.len(), 1);
    assert_eq!(confirmed[0].candidate_index, 1);
}

#[test]
fn test_recovery_after_confirmed() {
    let cfg = default_cfg();
    let mut sm = StateMachine::new(cfg);

    // Enter confirmed rupture.
    sm.update(0, "t0", fx(0.5));
    sm.update(1, "t1", fx(1.5));
    sm.update(2, "t2", fx(1.3));
    sm.update(3, "t3", fx(1.1));

    // Now drop below rho_critical for recovery_hold bars.
    let (state, _, _) = sm.update(4, "t4", fx(0.7));
    assert_eq!(state, RuptureState::ConfirmedRupture);
    let (state, _, _) = sm.update(5, "t5", fx(0.6));
    assert_eq!(state, RuptureState::Recovery);

    // After recovery, should return to base state.
    let (state, _, _) = sm.update(6, "t6", fx(0.3));
    assert_eq!(state, RuptureState::Stable);
}

#[test]
fn test_flapping_case() {
    // Rho oscillates around 1.0. With m=2 of k=3, exactly 1-of-3 above should not confirm.
    let cfg = default_cfg();
    let mut sm = StateMachine::new(cfg);

    sm.update(0, "t0", fx(0.5));
    sm.update(1, "t1", fx(1.1)); // candidate
    sm.update(2, "t2", fx(0.9)); // below
    let (state, _, conf) = sm.update(3, "t3", fx(0.8)); // below => 1-of-3, no confirm
    assert!(!conf);
    assert_ne!(state, RuptureState::ConfirmedRupture);
}

#[test]
fn test_confirmed_event_records_window_parameters() {
    let cfg = default_cfg();
    let mut sm = StateMachine::new(cfg);
    sm.update(0, "t0", fx(0.5));
    sm.update(1, "t1", fx(1.5));
    sm.update(2, "t2", fx(1.3));
    sm.update(3, "t3", fx(1.1));
    let events = sm.events();
    assert_eq!(events.len(), 1);
    let e = &events[0];
    assert_eq!(e.candidate_index, 1);
    assert_eq!(e.candidate_timestamp, "t1");
    assert_eq!(e.confirmed_index, Some(3));
    assert_eq!(e.confirmed_timestamp.as_deref(), Some("t3"));
    assert_eq!(e.peak_rho, fx(1.5));
    assert_eq!(e.confirmation_k, 3);
    assert_eq!(e.confirmation_m, 2);
}

#[test]
fn test_no_recovery_when_disabled() {
    let mut cfg = default_cfg();
    cfg.enable_recovery = false;
    let mut sm = StateMachine::new(cfg);
    sm.update(0, "t0", fx(0.5));
    sm.update(1, "t1", fx(1.5));
    sm.update(2, "t2", fx(1.3));
    sm.update(3, "t3", fx(1.1));
    // Rho stays low for many bars, but recovery is disabled.
    for i in 4..10 {
        let (state, _, _) = sm.update(i, &format!("t{}", i), fx(0.1));
        assert_eq!(state, RuptureState::ConfirmedRupture);
    }
}

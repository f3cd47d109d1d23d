use semilla_gamma::phase::{Phase, FINAL_STAGE, GENESIS_STAGE};

#[test]
fn phase_starts_at_genesis() {
    let p = Phase::new();
    assert_eq!(p.stage(), 1);
    assert_eq!(p.stage(), GENESIS_STAGE);
    assert!(!p.is_final());
}

#[test]
fn stage_stays_when_threshold_not_passed() {
    let mut p = Phase::new();
    for _ in 0..6 {
        assert!(!p.advance(false));
    }
    assert_eq!(p.stage(), 1);
}

#[test]
fn stage_advances_by_exactly_one() {
    let mut p = Phase::new();
    for _ in 0..6 {
        p.advance(false);
    }
    assert!(p.advance(true));
    assert_eq!(p.stage(), 2);
}

#[test]
fn stage_never_passes_final() {
    let mut p = Phase::new();
    let mut last = p.stage();
    for _ in 0..20 {
        p.advance(true);
        assert!(p.stage() >= last);
        assert!(p.stage() <= last + 1);
        last = p.stage();
    }
    assert_eq!(p.stage(), FINAL_STAGE);
    assert_eq!(p.stage(), 8);
    assert!(p.is_final());
    assert!(!p.advance(true));
    assert_eq!(p.stage(), 8);
}

#[test]
fn threshold_exponents_follow_table() {
    let mut p = Phase::new();
    let expected = [3u32, 5, 6, 7, 8, 9, 10];
    for k in expected {
        assert_eq!(p.threshold_exponent(), Some(k));
        p.advance(true);
    }
    assert_eq!(p.stage(), 8);
    assert_eq!(p.threshold_exponent(), None);
}

#[test]
fn stage_sequence_with_mixed_checks() {
    let mut p = Phase::new();
    let checks = [false, true, false, true, true, false];
    let stages = [1u8, 2, 2, 3, 4, 4];
    for (c, s) in checks.iter().zip(stages.iter()) {
        p.advance(*c);
        assert_eq!(p.stage(), *s);
    }
}

#[test]
fn identical_phases_stay_identical() {
    let mut a = Phase::new();
    let mut b = Phase::new();
    for i in 0..30u32 {
        let c = i % 3 == 0;
        assert_eq!(a.advance(c), b.advance(c));
        assert_eq!(a.stage(), b.stage());
    }
}

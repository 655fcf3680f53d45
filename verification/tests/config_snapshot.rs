use multiplexedblob::config::{
    comprehensive_lookup, is_present_timeout_ms, run_handlers_on_success, too_slow_timer_ms,
    HgChangesetDeriveOptions, SessionClass, DEFAULT_IS_PRESENT_TIMEOUT_MS,
    DEFAULT_TOO_SLOW_TIMEOUT_MS,
};

#[test]
fn test_run_handlers_on_success_by_session_class() {
    assert!(run_handlers_on_success(SessionClass::UserWaiting));
    assert!(run_handlers_on_success(SessionClass::ComprehensiveLookup));
    assert!(!run_handlers_on_success(SessionClass::Background));
    assert!(!run_handlers_on_success(SessionClass::BackgroundUnlessTooSlow));
}

#[test]
fn test_comprehensive_lookup_by_session_class() {
    assert!(comprehensive_lookup(SessionClass::ComprehensiveLookup));
    assert!(!comprehensive_lookup(SessionClass::UserWaiting));
    assert!(!comprehensive_lookup(SessionClass::Background));
}

#[test]
fn test_is_present_timeout_falls_back_to_default() {
    assert_eq!(is_present_timeout_ms(2500), 2500);
    assert_eq!(is_present_timeout_ms(0), DEFAULT_IS_PRESENT_TIMEOUT_MS);
    assert_eq!(is_present_timeout_ms(-3), DEFAULT_IS_PRESENT_TIMEOUT_MS);
}

#[test]
fn test_too_slow_timer_only_for_best_effort_sessions() {
    assert_eq!(too_slow_timer_ms(SessionClass::BackgroundUnlessTooSlow, 1200), Some(1200));
    assert_eq!(
        too_slow_timer_ms(SessionClass::BackgroundUnlessTooSlow, 0),
        Some(DEFAULT_TOO_SLOW_TIMEOUT_MS)
    );
    assert_eq!(too_slow_timer_ms(SessionClass::Background, 1200), None);
    assert_eq!(too_slow_timer_ms(SessionClass::UserWaiting, 1200), None);
}

#[test]
fn test_derive_options_carry_committer_flag() {
    let opts = HgChangesetDeriveOptions { set_committer_field: true };
    assert!(opts.set_committer_field);
    assert_eq!(opts, opts.clone());
}

use moirai::limiter::RateLimiter;

#[test]
fn admits_up_to_capacity_and_no_further() {
    let mut lim = RateLimiter::new(2, 60);
    assert!(lim.can_schedule("a", "fetch", 0));
    assert!(lim.try_admit("a", "fetch", 0));
    assert!(lim.try_admit("a", "fetch", 1));
    assert!(!lim.can_schedule("a", "fetch", 2));
    assert!(!lim.try_admit("a", "fetch", 2));
    assert_eq!(lim.admitted_count("a", "fetch"), 2);
}

#[test]
fn completion_restores_exactly_one_unit() {
    let mut lim = RateLimiter::new(3, 60);
    assert!(lim.try_admit("a", "fetch", 0));
    assert!(lim.try_admit("a", "fetch", 0));
    assert_eq!(lim.admitted_count("a", "fetch"), 2);
    let clamped = lim.record_completion("a", "fetch");
    assert!(!clamped);
    assert_eq!(lim.admitted_count("a", "fetch"), 1);
}

#[test]
fn completion_never_drops_count_below_zero() {
    let mut lim = RateLimiter::new(3, 60);
    assert!(lim.try_admit("a", "fetch", 0));
    assert!(!lim.record_completion("a", "fetch"));
    // The count stands at zero: another completion clamps.
    assert!(lim.record_completion("a", "fetch"));
    assert_eq!(lim.admitted_count("a", "fetch"), 0);
    // A key that never admitted anything clamps too.
    assert!(lim.record_completion("nobody", "fetch"));
}

#[test]
fn window_elapse_resets_the_count() {
    let mut lim = RateLimiter::new(1, 60);
    assert!(lim.try_admit("a", "fetch", 0));
    assert!(!lim.can_schedule("a", "fetch", 59));
    assert!(lim.can_schedule("a", "fetch", 60));
    assert!(lim.try_admit("a", "fetch", 60));
    assert_eq!(lim.admitted_count("a", "fetch"), 1);
}

#[test]
fn per_target_configuration_overrides_the_default() {
    let mut lim = RateLimiter::new(5, 60);
    lim.configure_target("small", 1, 10);
    assert!(lim.try_admit("small", "fetch", 0));
    assert!(!lim.try_admit("small", "fetch", 0));
    // An unconfigured target falls back to the global default.
    assert!(lim.try_admit("other", "fetch", 0));
    assert!(lim.try_admit("other", "fetch", 0));
    // Reconfiguring replaces the earlier entry for future buckets.
    lim.configure_target("small", 3, 10);
    assert!(lim.try_admit("fresh", "fetch", 0));
}

#[test]
fn task_types_are_limited_independently() {
    let mut lim = RateLimiter::new(1, 60);
    assert!(lim.try_admit("a", "fetch", 0));
    assert!(lim.try_admit("a", "store", 0));
    assert!(!lim.can_schedule("a", "fetch", 1));
    assert!(!lim.can_schedule("a", "store", 1));
    assert_eq!(lim.admitted_count("a", "fetch"), 1);
    assert_eq!(lim.admitted_count("a", "store"), 1);
}

#[test]
fn zero_capacity_admits_nothing() {
    let mut lim = RateLimiter::new(2, 60);
    lim.configure_target("closed", 0, 60);
    assert!(!lim.can_schedule("closed", "fetch", 0));
    assert!(!lim.try_admit("closed", "fetch", 0));
}

use gateway_core::health::{AccountHealth, FailureKind, HealthState, RateLimitTracker};

#[test]
fn unknown_account_is_fresh_and_eligible() {
    let t = RateLimitTracker::new(3, 300);
    assert_eq!(t.health_of("a"), AccountHealth::new());
    assert!(t.is_eligible("a", 0));
    assert_eq!(t.len(), 0);
    assert_eq!(t.failure_limit(), 3);
}

#[test]
fn zero_limit_makes_nobody_eligible() {
    let t = RateLimitTracker::new(0, 300);
    assert!(!t.is_eligible("a", 0));
    assert_eq!(AccountHealth::new().health_state(0), HealthState::Quarantined);
}

#[test]
fn rate_limit_opens_a_window() {
    let mut t = RateLimitTracker::new(3, 300);
    t.mark_rate_limited("a", 1000, 30);
    assert_eq!(t.health_of("a").rate_limited_until, Some(1030));
    assert!(!t.is_eligible("a", 1000));
    assert!(!t.is_eligible("a", 1029));
    assert!(t.is_eligible("a", 1030));
    assert!(t.is_eligible("a", 2000));
    assert!(t.is_eligible("b", 1000));
    assert_eq!(t.len(), 1);
}

#[test]
fn rate_limit_never_shortens_a_window() {
    let mut t = RateLimitTracker::new(3, 300);
    t.mark_rate_limited("a", 1000, 100);
    t.mark_rate_limited("a", 1010, 10);
    assert_eq!(t.health_of("a").rate_limited_until, Some(1100));
    t.mark_rate_limited("a", 1020, 500);
    assert_eq!(t.health_of("a").rate_limited_until, Some(1520));
}

#[test]
fn rate_limit_window_is_capped() {
    let mut t = RateLimitTracker::new(3, 300);
    t.mark_rate_limited("a", u64::MAX - 5, 100);
    assert_eq!(t.health_of("a").rate_limited_until, Some(u64::MAX));
}

#[test]
fn failures_count_up_to_quarantine() {
    let mut t = RateLimitTracker::new(3, 300);
    t.mark_failure("a", FailureKind::Network, 10);
    assert_eq!(t.health_of("a").health_state(3), HealthState::Degraded(1));
    assert!(t.is_eligible("a", 10));
    t.mark_failure("a", FailureKind::Server, 11);
    assert_eq!(t.health_of("a").health_state(3), HealthState::Degraded(2));
    t.mark_failure("a", FailureKind::Auth, 12);
    let h = t.health_of("a");
    assert_eq!(h.consecutive_failures, 3);
    assert_eq!(h.last_error_kind, Some(FailureKind::Auth));
    assert_eq!(h.last_failure_at, Some(12));
    assert_eq!(h.health_state(3), HealthState::Quarantined);
    assert!(!t.is_eligible("a", 12));
    assert!(!t.is_eligible("a", 100_000));
}

#[test]
fn client_errors_do_not_count() {
    let mut t = RateLimitTracker::new(1, 300);
    t.mark_failure("a", FailureKind::Client, 10);
    let h = t.health_of("a");
    assert_eq!(h.consecutive_failures, 0);
    assert_eq!(h.last_error_kind, Some(FailureKind::Client));
    assert_eq!(h.last_failure_at, None);
    assert!(t.is_eligible("a", 10));
    assert!(!FailureKind::Client.is_counted());
    assert!(FailureKind::Network.is_counted());
    assert!(FailureKind::Server.is_counted());
    assert!(FailureKind::Auth.is_counted());
}

#[test]
fn success_clears_failures_and_window() {
    let mut t = RateLimitTracker::new(2, 300);
    t.mark_failure("a", FailureKind::Network, 10);
    t.mark_failure("a", FailureKind::Network, 11);
    t.mark_rate_limited("a", 12, 1000);
    assert!(!t.is_eligible("a", 13));
    t.mark_success("a", 14);
    let h = t.health_of("a");
    assert_eq!(h.consecutive_failures, 0);
    assert_eq!(h.rate_limited_until, None);
    assert_eq!(h.last_success_at, Some(14));
    assert_eq!(h.health_state(2), HealthState::Healthy);
    assert!(t.is_eligible("a", 14));
}

#[test]
fn failure_count_saturates() {
    let h = AccountHealth {
        rate_limited_until: None,
        consecutive_failures: u32::MAX,
        last_success_at: None,
        last_error_kind: None,
        last_failure_at: None,
    };
    assert!(!h.is_eligible(0, u32::MAX));
    assert_eq!(h.health_state(u32::MAX), HealthState::Quarantined);
}

#[test]
fn sweep_forgets_idle_entries() {
    let mut t = RateLimitTracker::new(3, 300);
    t.mark_rate_limited("old", 1000, 30);
    t.mark_success("recent", 1900);
    t.mark_failure("failing", FailureKind::Network, 100);
    // at 1631 the window of "old" ended 601 seconds ago
    assert_eq!(t.sweep(1630), 0);
    assert_eq!(t.sweep(1631), 1);
    assert_eq!(t.len(), 2);
    assert_eq!(t.health_of("old"), AccountHealth::new());
    assert_eq!(t.health_of("recent").last_success_at, Some(1900));
    assert_eq!(t.health_of("failing").consecutive_failures, 1);
    assert_eq!(t.sweep(2501), 1);
    assert_eq!(t.len(), 1);
    assert_eq!(t.health_of("failing").consecutive_failures, 1);
}

#[test]
fn sweep_ends_a_cooled_quarantine() {
    let mut t = RateLimitTracker::new(2, 300);
    t.mark_failure("a", FailureKind::Server, 1000);
    t.mark_failure("a", FailureKind::Server, 1001);
    assert!(!t.is_eligible("a", 1300));
    assert_eq!(t.sweep(1300), 0);
    assert!(!t.is_eligible("a", 1300));
    assert_eq!(t.sweep(1301), 0);
    assert!(t.is_eligible("a", 1301));
    let h = t.health_of("a");
    assert_eq!(h.consecutive_failures, 0);
    assert_eq!(h.last_failure_at, Some(1001));
    assert_eq!(h.last_error_kind, Some(FailureKind::Server));
}

#[test]
fn sweep_keeps_eligibility_of_what_it_forgets() {
    let mut t = RateLimitTracker::new(3, 300);
    t.mark_success("a", 10);
    t.mark_rate_limited("b", 10, 5);
    assert!(t.is_eligible("a", 5000) && t.is_eligible("b", 5000));
    assert_eq!(t.sweep(5000), 2);
    assert!(t.is_eligible("a", 5000) && t.is_eligible("b", 5000));
    assert_eq!(t.len(), 0);
}

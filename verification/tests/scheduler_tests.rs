use gateway_core::account::{Account, Credentials, OAuthTokens, Provider};
use gateway_core::health::FailureKind;
use gateway_core::scheduler::{SelectError, SelectRequest, Selection, TokenManager, Via};
use gateway_core::sticky::{SessionKey, StickySessionConfig};
use gateway_core::zai::ZaiDispatchMode;

fn oauth(id: &str, expiry_unix: u64) -> Account {
    Account {
        account_id: id.to_string(),
        email: format!("{}@example.com", id),
        provider: Provider::GoogleOauth,
        credentials: Credentials::OAuth {
            access_token: format!("at-{}", id),
            refresh_token: format!("rt-{}", id),
            expiry_unix,
        },
        device_profile: None,
        created_order: 0,
    }
}

fn keyed(id: &str) -> Account {
    Account {
        account_id: id.to_string(),
        email: format!("{}@example.com", id),
        provider: Provider::ZaiApikey,
        credentials: Credentials::ApiKey(format!("key-{}", id)),
        device_profile: None,
        created_order: 0,
    }
}

fn sticky(enabled: bool, fallback_on_unhealthy: bool) -> StickySessionConfig {
    StickySessionConfig {
        enabled,
        sticky_ttl_secs: 600,
        session_key: SessionKey::Header("x-session-id".to_string()),
        fallback_on_unhealthy,
        max_bindings: 1024,
    }
}

fn manager(ids: &[&str]) -> TokenManager {
    let mut m = TokenManager::new(3, 300, sticky(true, true));
    m.load_accounts(ids.iter().map(|id| oauth(id, u64::MAX)).collect());
    m
}

fn request(session: Option<&str>) -> SelectRequest {
    SelectRequest {
        provider: Provider::GoogleOauth,
        session_id: session.map(|s| s.to_string()),
        excluded: Vec::new(),
    }
}

fn excluding(session: Option<&str>, excluded: &[&str]) -> SelectRequest {
    SelectRequest {
        provider: Provider::GoogleOauth,
        session_id: session.map(|s| s.to_string()),
        excluded: excluded.iter().map(|s| s.to_string()).collect(),
    }
}

fn picked(r: Result<Selection, SelectError>) -> (String, Via) {
    match r {
        Ok(Selection::Account { account_id, via, .. }) => (account_id, via),
        other => panic!("no account: {:?}", other),
    }
}

fn id_of(r: Result<Selection, SelectError>) -> String {
    picked(r).0
}

#[test]
fn round_robin_over_healthy_accounts() {
    // three healthy accounts, six requests with their own sessions
    let mut m = manager(&["A", "B", "C"]);
    let mut counts = std::collections::HashMap::new();
    for i in 0..6u64 {
        let session = format!("session-{}", i);
        let id = id_of(m.select(&request(Some(&session)), 100 + i));
        m.mark_success(&id, 100 + i);
        *counts.entry(id).or_insert(0) += 1;
    }
    assert_eq!(counts.len(), 3);
    assert!(counts.values().all(|n| *n == 2), "{:?}", counts);
}

#[test]
fn round_robin_whenever_the_successes_are_recorded() {
    // two successes in one second, the next two in the following one
    let times = [10u64, 10, 11, 11, 12, 12];
    let mut m = manager(&["A", "B", "C"]);
    let mut ids = Vec::new();
    for (i, at) in times.iter().enumerate() {
        let session = format!("session-{}", i);
        let id = id_of(m.select(&request(Some(&session)), *at));
        m.mark_success(&id, *at);
        ids.push(id);
    }
    assert_eq!(ids, vec!["A", "B", "C", "A", "B", "C"]);
}

#[test]
fn round_robin_without_sessions() {
    let mut m = manager(&["A", "B", "C"]);
    let ids: Vec<String> = (0..6).map(|_| id_of(m.select(&request(None), 100))).collect();
    assert_eq!(ids, vec!["A", "B", "C", "A", "B", "C"]);
}

#[test]
fn rate_limited_account_rests_for_its_window() {
    let mut m = manager(&["A", "B", "C"]);
    let first = id_of(m.select(&request(None), 1000));
    assert_eq!(first, "A");
    m.mark_rate_limited("A", 1000, 30);
    for now in 1000..1030 {
        let id = id_of(m.select(&request(None), now));
        assert!(id == "B" || id == "C", "{} at {}", id, now);
    }
    assert!(!m.is_eligible("A", 1029));
    assert!(m.is_eligible("A", 1030));
    let later: Vec<String> = (0..3).map(|_| id_of(m.select(&request(None), 1030))).collect();
    assert!(later.contains(&"A".to_string()), "{:?}", later);
}

#[test]
fn session_sticks_to_its_account() {
    let mut m = manager(&["A", "B", "C"]);
    let (first, via) = picked(m.select(&request(Some("S1")), 100));
    assert_eq!(via, Via::Rotation);
    for i in 1..5 {
        let (id, via) = picked(m.select(&request(Some("S1")), 100 + i));
        assert_eq!(id, first);
        assert_eq!(via, Via::Sticky);
    }
    m.clear_all_sessions();
    let (_, via) = picked(m.select(&request(Some("S1")), 200));
    assert_eq!(via, Via::Rotation);
}

#[test]
fn sticky_hits_do_not_advance_the_rotation() {
    let mut m = manager(&["A", "B", "C"]);
    assert_eq!(id_of(m.select(&request(Some("S1")), 100)), "A");
    for _ in 0..4 {
        assert_eq!(id_of(m.select(&request(Some("S1")), 100)), "A");
    }
    assert_eq!(id_of(m.select(&request(None), 100)), "B");
}

#[test]
fn binding_expires_without_hits() {
    let mut m = manager(&["A", "B"]);
    assert_eq!(id_of(m.select(&request(Some("S1")), 100)), "A");
    // 600 seconds later the binding still holds, and the hit renews it
    assert_eq!(picked(m.select(&request(Some("S1")), 700)), ("A".to_string(), Via::Sticky));
    assert_eq!(picked(m.select(&request(Some("S1")), 1300)), ("A".to_string(), Via::Sticky));
    // 601 seconds without a hit end it
    let (id, via) = picked(m.select(&request(Some("S1")), 1901));
    assert_eq!(via, Via::Rotation);
    assert_eq!(id, "B");
}

#[test]
fn session_leaves_an_unhealthy_account() {
    let mut m = manager(&["A", "B"]);
    assert_eq!(id_of(m.select(&request(Some("S1")), 100)), "A");
    m.mark_rate_limited("A", 100, 60);
    let (id, via) = picked(m.select(&request(Some("S1")), 110));
    assert_eq!((id.as_str(), via), ("B", Via::Rotation));
    // the session is now bound to the new account, also after the window
    assert_eq!(picked(m.select(&request(Some("S1")), 500)), ("B".to_string(), Via::Sticky));
}

#[test]
fn session_can_be_kept_regardless_of_health() {
    let mut m = TokenManager::new(3, 300, sticky(true, false));
    m.load_accounts(vec![oauth("A", u64::MAX), oauth("B", u64::MAX)]);
    assert_eq!(id_of(m.select(&request(Some("S1")), 100)), "A");
    m.mark_rate_limited("A", 100, 60);
    assert_eq!(picked(m.select(&request(Some("S1")), 110)), ("A".to_string(), Via::Sticky));
    // another session does not get the resting account
    assert_eq!(picked(m.select(&request(Some("S2")), 110)), ("B".to_string(), Via::Rotation));
}

#[test]
fn disabled_scheduling_binds_nothing() {
    let mut m = TokenManager::new(3, 300, sticky(false, true));
    m.load_accounts(vec![oauth("A", u64::MAX), oauth("B", u64::MAX)]);
    let ids: Vec<String> = (0..4).map(|_| id_of(m.select(&request(Some("S1")), 100))).collect();
    assert_eq!(ids, vec!["A", "B", "A", "B"]);
}

#[test]
fn preferred_account_serves_every_request() {
    let mut m = manager(&["A", "B", "C"]);
    m.set_preferred_account(Some("B".to_string()));
    assert_eq!(m.get_preferred_account().as_deref(), Some("B"));
    for i in 0..5 {
        let session = format!("s{}", i);
        assert_eq!(picked(m.select(&request(Some(&session)), 100)), ("B".to_string(), Via::Preferred));
    }
    m.set_preferred_account(None);
    assert_eq!(m.get_preferred_account(), None);
    assert_eq!(picked(m.select(&request(None), 100)), ("A".to_string(), Via::Rotation));
}

#[test]
fn preferred_account_does_not_fall_back_to_others() {
    let mut m = manager(&["A", "B", "C"]);
    m.set_preferred_account(Some("A".to_string()));
    m.mark_rate_limited("A", 100, 60);
    assert_eq!(m.select(&request(None), 110), Err(SelectError::NoEligibleAccount));
    m.set_zai(true, ZaiDispatchMode::Fallback);
    assert_eq!(m.select(&request(None), 110), Ok(Selection::Zai));
    assert_eq!(picked(m.select(&request(None), 160)), ("A".to_string(), Via::Preferred));
}

#[test]
fn unknown_preferred_account_serves_nobody() {
    let mut m = manager(&["A"]);
    m.set_preferred_account(Some("Z".to_string()));
    assert_eq!(m.select(&request(None), 100), Err(SelectError::NoEligibleAccount));
}

#[test]
fn no_eligible_account_fails_or_falls_back() {
    let mut m = manager(&["A", "B"]);
    m.mark_rate_limited("A", 100, 60);
    m.mark_rate_limited("B", 100, 60);
    assert_eq!(m.select(&request(None), 110), Err(SelectError::NoEligibleAccount));
    m.set_zai(true, ZaiDispatchMode::Fallback);
    assert_eq!(m.select(&request(None), 110), Ok(Selection::Zai));
    m.set_zai(false, ZaiDispatchMode::Fallback);
    assert_eq!(m.select(&request(None), 110), Err(SelectError::NoEligibleAccount));
    m.set_zai(true, ZaiDispatchMode::Off);
    assert_eq!(m.select(&request(None), 110), Err(SelectError::NoEligibleAccount));
    assert_eq!(TokenManager::new(3, 300, sticky(true, true)).select(&request(None), 0),
        Err(SelectError::NoEligibleAccount));
}

#[test]
fn primary_mode_sends_everything_to_the_key_provider() {
    let mut m = manager(&["A", "B"]);
    m.set_zai(true, ZaiDispatchMode::Primary);
    for _ in 0..3 {
        assert_eq!(m.select(&request(Some("S1")), 100), Ok(Selection::Zai));
    }
    m.set_zai(true, ZaiDispatchMode::Fallback);
    assert_eq!(id_of(m.select(&request(Some("S1")), 100)), "A");
}

#[test]
fn stale_binding_goes_when_nobody_can_serve() {
    let mut m = manager(&["A"]);
    assert_eq!(id_of(m.select(&request(Some("S1")), 100)), "A");
    m.mark_rate_limited("A", 100, 60);
    assert_eq!(m.select(&request(Some("S1")), 110), Err(SelectError::NoEligibleAccount));
    // the binding is gone: after the window the session is picked anew
    assert_eq!(picked(m.select(&request(Some("S1")), 200)), ("A".to_string(), Via::Rotation));
}

#[test]
fn excluded_accounts_are_never_selected() {
    let mut m = manager(&["A", "B", "C"]);
    for _ in 0..6 {
        assert_eq!(id_of(m.select(&excluding(None, &["A", "C"]), 100)), "B");
    }
    assert_eq!(m.select(&excluding(None, &["A", "B", "C"]), 100), Err(SelectError::NoEligibleAccount));
    // an excluded account loses its session
    assert_eq!(id_of(m.select(&request(Some("S1")), 100)), "A");
    let (id, via) = picked(m.select(&excluding(Some("S1"), &["A"]), 100));
    assert_ne!(id, "A");
    assert_eq!(via, Via::Rotation);
}

#[test]
fn only_the_required_provider_serves() {
    let mut m = TokenManager::new(3, 300, sticky(true, true));
    m.load_accounts(vec![oauth("G1", u64::MAX), keyed("Z1"), oauth("G2", u64::MAX)]);
    let z = SelectRequest { provider: Provider::ZaiApikey, session_id: None, excluded: vec![] };
    for _ in 0..3 {
        assert_eq!(id_of(m.select(&z, 100)), "Z1");
    }
    let ids: Vec<String> = (0..4).map(|_| id_of(m.select(&request(None), 100))).collect();
    assert_eq!(ids, vec!["G1", "G2", "G1", "G2"]);
}

#[test]
fn a_thousand_selections_are_spread_evenly() {
    let ids: Vec<String> = (0..10).map(|i| format!("acc-{}", i)).collect();
    let names: Vec<&str> = ids.iter().map(|s| s.as_str()).collect();
    let mut m = manager(&names);
    let mut counts = std::collections::HashMap::new();
    for _ in 0..1000 {
        *counts.entry(id_of(m.select(&request(None), 100))).or_insert(0u32) += 1;
    }
    assert_eq!(counts.len(), 10);
    for (id, n) in counts {
        assert_eq!(n, 100, "{}", id);
    }
}

#[test]
fn quarantined_account_is_not_selected() {
    let mut m = manager(&["A", "B"]);
    for t in 0..3 {
        m.mark_failure("A", FailureKind::Server, t);
    }
    assert!(!m.is_eligible("A", 10));
    for _ in 0..4 {
        assert_eq!(id_of(m.select(&request(None), 10)), "B");
    }
    assert_eq!(m.sweep(400), (0, 0));
    assert!(m.is_eligible("A", 400));
    assert_eq!(m.health_of("A").consecutive_failures, 0);
}

#[test]
fn selected_account_is_always_eligible() {
    let mut m = manager(&["A", "B", "C", "D"]);
    m.mark_rate_limited("B", 0, 50);
    m.mark_failure("C", FailureKind::Network, 0);
    m.mark_failure("D", FailureKind::Network, 0);
    m.mark_failure("D", FailureKind::Network, 0);
    m.mark_failure("D", FailureKind::Network, 0);
    for now in 0..120 {
        let session = format!("s{}", now % 7);
        if let Ok(Selection::Account { account_id, .. }) = m.select(&request(Some(&session)), now) {
            assert!(m.is_eligible(&account_id, now), "{} at {}", account_id, now);
            assert_ne!(account_id, "D");
        }
    }
}

#[test]
fn load_accounts_keeps_the_first_of_each_id() {
    let mut m = TokenManager::new(3, 300, sticky(true, true));
    let mut second = oauth("A", 5);
    second.email = "other@example.com".to_string();
    assert_eq!(m.load_accounts(vec![oauth("A", 9), oauth("B", 9), second, oauth("C", 9), oauth("B", 1)]), 3);
    assert_eq!(m.len(), 3);
    assert_eq!(m.account("A").unwrap().email, "A@example.com");
    assert!(m.account("Z").is_none());
    assert_eq!(m.find_account("C"), Some(2));
    assert_eq!(m.load_accounts(Vec::new()), 0);
    assert_eq!(m.len(), 0);
}

#[test]
fn reload_keeps_health_and_bindings() {
    let mut m = manager(&["A", "B"]);
    assert_eq!(id_of(m.select(&request(Some("S1")), 100)), "A");
    m.mark_rate_limited("B", 100, 60);
    m.load_accounts(vec![oauth("B", u64::MAX), oauth("A", u64::MAX)]);
    assert!(!m.is_eligible("B", 110));
    assert_eq!(picked(m.select(&request(Some("S1")), 110)), ("A".to_string(), Via::Sticky));
}

#[test]
fn binding_to_a_removed_account_is_dropped() {
    let mut m = manager(&["A", "B"]);
    assert_eq!(id_of(m.select(&request(Some("S1")), 100)), "A");
    m.load_accounts(vec![oauth("B", u64::MAX)]);
    assert_eq!(picked(m.select(&request(Some("S1")), 110)), ("B".to_string(), Via::Rotation));
}

#[test]
fn refresh_is_asked_within_the_skew() {
    let mut m = TokenManager::new(3, 300, sticky(true, true));
    m.load_accounts(vec![oauth("A", 1060)]);
    let needs = |r: Result<Selection, SelectError>| match r {
        Ok(Selection::Account { needs_refresh, .. }) => needs_refresh,
        other => panic!("{:?}", other),
    };
    assert!(!needs(m.select(&request(None), 999)));
    assert!(needs(m.select(&request(None), 1000)));
    assert!(needs(m.select(&request(None), 2000)));
    assert!(oauth("A", 10).needs_refresh(u64::MAX));
    assert!(!keyed("Z").needs_refresh(u64::MAX));
}

#[test]
fn update_tokens_replaces_oauth_tokens() {
    let mut m = TokenManager::new(3, 300, sticky(true, true));
    m.load_accounts(vec![oauth("A", 10), keyed("Z")]);
    let tokens = |n: u64| OAuthTokens {
        access_token: "new-at".to_string(),
        refresh_token: "new-rt".to_string(),
        expiry_unix: n,
    };
    assert!(m.update_tokens("A", tokens(5000)));
    match &m.account("A").unwrap().credentials {
        Credentials::OAuth { access_token, refresh_token, expiry_unix } => {
            assert_eq!(access_token, "new-at");
            assert_eq!(refresh_token, "new-rt");
            assert_eq!(*expiry_unix, 5000);
        }
        other => panic!("{:?}", other),
    }
    assert!(!m.update_tokens("Z", tokens(1)));
    assert!(matches!(&m.account("Z").unwrap().credentials, Credentials::ApiKey(k) if k == "key-Z"));
    assert!(!m.update_tokens("nobody", tokens(1)));
}

#[test]
fn new_settings_apply_to_later_selections() {
    let mut m = manager(&["A", "B"]);
    assert_eq!(id_of(m.select(&request(Some("S1")), 100)), "A");
    // same capacity: the bindings stay
    let mut cfg = m.get_sticky_config();
    cfg.sticky_ttl_secs = 10;
    m.update_sticky_config(cfg);
    assert_eq!(m.get_sticky_config().sticky_ttl_secs, 10);
    assert_eq!(picked(m.select(&request(Some("S1")), 105)), ("A".to_string(), Via::Sticky));
    assert_eq!(picked(m.select(&request(Some("S1")), 116)).1, Via::Rotation);
    // another capacity: the bindings stay as far as they fit
    let bound = id_of(m.select(&request(Some("S1")), 117));
    let mut cfg = m.get_sticky_config();
    cfg.max_bindings = 4096;
    m.update_sticky_config(cfg);
    assert_eq!(picked(m.select(&request(Some("S1")), 118)), (bound.clone(), Via::Sticky));
    let mut cfg = m.get_sticky_config();
    cfg.max_bindings = 16;
    m.update_sticky_config(cfg);
    assert_eq!(picked(m.select(&request(Some("S1")), 119)), (bound, Via::Sticky));
    // no room at all: nothing stays bound
    let mut cfg = m.get_sticky_config();
    cfg.max_bindings = 0;
    m.update_sticky_config(cfg);
    assert_eq!(picked(m.select(&request(Some("S1")), 120)).1, Via::Rotation);
    assert_eq!(picked(m.select(&request(Some("S1")), 121)).1, Via::Rotation);
}

#[test]
fn changing_other_settings_keeps_the_rotation_going() {
    let mut m = manager(&["A", "B", "C"]);
    assert_eq!(id_of(m.select(&request(None), 100)), "A");
    let mut cfg = m.get_sticky_config();
    cfg.max_bindings = 32;
    cfg.enabled = false;
    m.update_sticky_config(cfg);
    m.set_preferred_account(None);
    assert_eq!(id_of(m.select(&request(None), 100)), "B");
    assert_eq!(id_of(m.select(&request(None), 100)), "C");
}

#[test]
fn sweep_removes_expired_bindings() {
    let mut m = manager(&["A"]);
    m.select(&request(Some("S1")), 100).unwrap();
    m.select(&request(Some("S2")), 600).unwrap();
    assert_eq!(m.sweep(701), (0, 1));
    assert_eq!(picked(m.select(&request(Some("S2")), 701)).1, Via::Sticky);
    assert_eq!(picked(m.select(&request(Some("S1")), 701)).1, Via::Rotation);
}

use gateway_core::account::Provider;
use gateway_core::router::{MappingRule, MatchRule, ModelMapping, ModelRouter, Route};

fn rule(pattern: MatchRule, to: &str, hint: Option<Provider>) -> MappingRule {
    MappingRule { pattern, rewrite_to: to.to_string(), provider_hint: hint }
}

fn lit(s: &str) -> MatchRule {
    MatchRule::Literal(s.to_string())
}

fn prefix(s: &str) -> MatchRule {
    MatchRule::Prefix(s.to_string())
}

fn regex(s: &str) -> MatchRule {
    MatchRule::Regex(s.to_string())
}

fn route(model: &str, hint: Option<Provider>) -> Route {
    Route { upstream_model: model.to_string(), upstream_provider_override: hint }
}

#[test]
fn first_matching_rule_wins() {
    let mapping = ModelMapping {
        rules: vec![
            rule(lit("fast"), "glm-4.5-air", Some(Provider::ZaiApikey)),
            rule(prefix("fast"), "glm-4.5", None),
            rule(regex("^fa.*$"), "glm-4", None),
        ],
    };
    assert_eq!(mapping.resolve("fast"), route("glm-4.5-air", Some(Provider::ZaiApikey)));
    assert_eq!(mapping.resolve("fast-2"), route("glm-4.5", None));
    assert_eq!(mapping.resolve("fallow"), route("glm-4", None));
}

#[test]
fn unmatched_model_passes_through() {
    let mapping = ModelMapping { rules: vec![rule(lit("a"), "b", Some(Provider::GoogleOauth))] };
    assert_eq!(mapping.resolve("c"), route("c", None));
    assert_eq!(mapping.resolve(""), route("", None));
    assert_eq!(ModelMapping::new().resolve("any"), route("any", None));
}

#[test]
fn literal_needs_the_whole_name() {
    let mapping = ModelMapping { rules: vec![rule(lit("model"), "x", None)] };
    assert_eq!(mapping.resolve("model"), route("x", None));
    assert_eq!(mapping.resolve("model-2"), route("model-2", None));
    assert_eq!(mapping.resolve("Model"), route("Model", None));
}

#[test]
fn prefix_needs_the_beginning() {
    let mapping = ModelMapping { rules: vec![rule(prefix("pro-"), "x", None)] };
    assert_eq!(mapping.resolve("pro-1"), route("x", None));
    assert_eq!(mapping.resolve("pro-"), route("x", None));
    assert_eq!(mapping.resolve("a-pro-1"), route("a-pro-1", None));
    let all = ModelMapping { rules: vec![rule(prefix(""), "everything", None)] };
    assert_eq!(all.resolve("whatever"), route("everything", None));
}

#[test]
fn regex_finds_a_match_anywhere() {
    let mapping = ModelMapping {
        rules: vec![rule(regex(r"\d{4}-\d{2}"), "dated", None), rule(regex("^v[0-9]+$"), "versioned", None)],
    };
    assert_eq!(mapping.resolve("model-2024-06-preview"), route("dated", None));
    assert_eq!(mapping.resolve("v12"), route("versioned", None));
    assert_eq!(mapping.resolve("v12b"), route("v12b", None));
}

#[test]
fn rejected_regex_never_matches() {
    let mapping = ModelMapping {
        rules: vec![rule(regex("(unclosed"), "broken", None), rule(regex("un"), "fine", None)],
    };
    assert_eq!(mapping.resolve("(unclosed"), route("fine", None));
    assert!(!regex("(unclosed").hits("(unclosed"));
    assert!(regex("a|b").hits("xxbxx"));
    assert!(!regex("^a$").hits("ab"));
}

#[test]
fn route_for_follows_the_given_hits() {
    let mapping = ModelMapping {
        rules: vec![rule(lit("a"), "one", None), rule(lit("b"), "two", Some(Provider::ZaiApikey))],
    };
    assert_eq!(mapping.route_for("m", &vec![false, true]), route("two", Some(Provider::ZaiApikey)));
    assert_eq!(mapping.route_for("m", &vec![true, true]), route("one", None));
    assert_eq!(mapping.route_for("m", &vec![false, false]), route("m", None));
}

#[test]
fn update_is_seen_by_later_requests_only() {
    let old = ModelMapping { rules: vec![rule(lit("m"), "old-target", None)] };
    let new = ModelMapping { rules: vec![rule(lit("m"), "new-target", None)] };
    let mut router = ModelRouter::new(old);
    let in_flight = router.snapshot();
    assert_eq!(router.resolve("m"), route("old-target", None));
    router.update_mapping(new);
    // a request that began before the swap keeps the old mapping to its end
    assert_eq!(in_flight.resolve("m"), route("old-target", None));
    assert_eq!(in_flight.resolve("m"), route("old-target", None));
    // a request that begins after it sees the new one
    assert_eq!(router.resolve("m"), route("new-target", None));
    assert_eq!(router.snapshot().resolve("m"), route("new-target", None));
}

#[test]
fn duplicate_copies_every_rule() {
    let mapping = ModelMapping {
        rules: vec![rule(prefix("p"), "x", Some(Provider::GoogleOauth)), rule(regex("r"), "y", None)],
    };
    let copy = mapping.duplicate();
    assert_eq!(format!("{:?}", copy), format!("{:?}", mapping));
}

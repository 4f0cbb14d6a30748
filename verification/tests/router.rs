//! Which upstreams a model name is sent to, and in which order they are asked.

use ai_api_bridge::config::{
    default_database, default_listen, default_max_tokens_field, Config, ProbeSource, Provider,
    Route, RouteTarget, WireName,
};
use ai_api_bridge::dict::Dict;
use ai_api_bridge::double::Double;
use ai_api_bridge::error::BridgeError;
use ai_api_bridge::failover::{
    fails_over, first_attempt, is_retryable, mark_degraded, next_attempt, Attempt,
};
use ai_api_bridge::json::JsonValue;
use ai_api_bridge::router::{resolve, resolve_candidates};
use ai_api_bridge::store::ProviderStatus;

fn provider(base_url: &str) -> Provider {
    Provider {
        wire: WireName::OpenaiChat,
        base_url: base_url.into(),
        api_key: None,
        model_prefix: None,
        max_tokens_field: default_max_tokens_field(),
        extra_headers: Dict::new(),
        probe_script: None,
        probe_script_text: None,
        probe_source: ProbeSource::Path,
        probe_enabled: None,
        probe_interval_secs: None,
        quota_min: None,
        cost_windows: Vec::new(),
        model_prices: Dict::new(),
        usage: Vec::new(),
        models: Vec::new(),
    }
}

fn empty_config() -> Config {
    Config {
        listen: default_listen(),
        database: default_database(),
        default_provider: None,
        auth_token: None,
        cost_tracking: false,
        providers: Dict::new(),
        routes: Vec::new(),
        fallback_route: None,
    }
}

fn target(provider: &str, model: &str) -> RouteTarget {
    RouteTarget { provider: provider.into(), model: model.into() }
}

fn route(alias: &str, provider: &str, model: &str, fallback: Vec<RouteTarget>) -> Route {
    Route { alias: alias.into(), provider: provider.into(), model: model.into(), fallback }
}

fn double(x: f64) -> Double {
    let json = JsonValue::parse(&format!("{x:?}")).unwrap_or(JsonValue::Null);
    Double { bits: x.to_bits(), json }
}

fn no_status() -> Dict<ProviderStatus> {
    Dict::new()
}

fn status(available: bool, remaining: Option<f64>) -> ProviderStatus {
    ProviderStatus { available, quota_remaining: remaining.map(double), ..Default::default() }
}

fn cfg() -> Config {
    let mut c = empty_config();
    c.default_provider = Some("zen".into());
    let mut zen = provider("https://opencode.ai/zen/v1");
    zen.model_prefix = Some("opencode/".into());
    c.providers.insert("zen", zen);
    c.routes.push(route("fast", "zen", "opencode/gpt-5.5-mini", vec![]));
    c
}

#[test]
fn explicit_route_wins() {
    let c = cfg();
    let r = resolve(&c, &no_status(), "fast").unwrap();
    assert_eq!(r.upstream_model, "opencode/gpt-5.5-mini");
}

#[test]
fn default_provider_applies_prefix() {
    let c = cfg();
    let r = resolve(&c, &no_status(), "gpt-5.5").unwrap();
    assert_eq!(r.provider_name, "zen");
    assert_eq!(r.upstream_model, "opencode/gpt-5.5");
}

#[test]
fn prefix_skipped_when_alias_already_qualified() {
    let c = cfg();
    let r = resolve(&c, &no_status(), "anthropic/model").unwrap();
    assert_eq!(r.upstream_model, "anthropic/model");
}

#[test]
fn unknown_model_without_default_errors() {
    let mut c = empty_config();
    c.providers.insert("x", provider("u"));
    let err = resolve(&c, &no_status(), "whatever").unwrap_err();
    assert!(matches!(err, BridgeError::UnknownModel(_)));
}

fn failover_cfg() -> Config {
    let mut c = empty_config();
    let mut go = provider("https://go");
    go.quota_min = Some(double(1.0));
    c.providers.insert("go", go);
    c.providers.insert("zen", provider("https://zen"));
    c.routes.push(route("gpt-5.5", "go", "deepseek-v4-pro", vec![target("zen", "gpt-5.5")]));
    c
}

#[test]
fn primary_used_when_healthy() {
    let mut s = Dict::new();
    s.insert("go", status(true, Some(10.0)));
    let c = failover_cfg();
    let r = resolve(&c, &s, "gpt-5.5").unwrap();
    assert_eq!(r.provider_name, "go");
    assert_eq!(r.upstream_model, "deepseek-v4-pro");
}

#[test]
fn fails_over_when_primary_unavailable() {
    let mut s = Dict::new();
    s.insert("go", status(false, None));
    s.insert("zen", status(true, None));
    let c = failover_cfg();
    let r = resolve(&c, &s, "gpt-5.5").unwrap();
    assert_eq!(r.provider_name, "zen");
    assert_eq!(r.upstream_model, "gpt-5.5");
}

#[test]
fn fails_over_when_primary_exhausted() {
    let mut s = Dict::new();
    s.insert("go", status(true, Some(0.0)));
    s.insert("zen", status(true, None));
    let c = failover_cfg();
    let r = resolve(&c, &s, "gpt-5.5").unwrap();
    assert_eq!(r.provider_name, "zen");
}

#[test]
fn all_degraded_falls_back_to_primary() {
    let mut s = Dict::new();
    s.insert("go", status(false, None));
    s.insert("zen", status(false, None));
    let c = failover_cfg();
    let r = resolve(&c, &s, "gpt-5.5").unwrap();
    assert_eq!(r.provider_name, "go");
}

fn order(c: &Config, s: &Dict<ProviderStatus>, exhausted: &[&str], alias: &str) -> Vec<String> {
    let exhausted: Vec<String> = exhausted.iter().map(|e| e.to_string()).collect();
    resolve_candidates(c, s, &exhausted, alias)
        .unwrap()
        .iter()
        .map(|r| r.provider_name.to_string())
        .collect()
}

#[test]
fn health_and_spend_only_reorder_the_chain() {
    let c = failover_cfg();
    assert_eq!(order(&c, &no_status(), &[], "gpt-5.5"), vec!["go", "zen"]);
    assert_eq!(order(&c, &no_status(), &["go"], "gpt-5.5"), vec!["zen", "go"]);
    assert_eq!(order(&c, &no_status(), &["go", "zen"], "gpt-5.5"), vec!["go", "zen"]);
    let mut s = Dict::new();
    s.insert("go", status(false, None));
    assert_eq!(order(&c, &s, &[], "gpt-5.5"), vec!["zen", "go"]);
}

#[test]
fn quota_below_the_minimum_counts_as_spent() {
    let c = failover_cfg();
    let mut s = Dict::new();
    s.insert("go", status(true, Some(0.5)));
    assert_eq!(order(&c, &s, &[], "gpt-5.5"), vec!["zen", "go"]);
    s.insert("go", status(true, Some(1.0)));
    assert_eq!(order(&c, &s, &[], "gpt-5.5"), vec!["go", "zen"]);
    s.insert("go", status(true, Some(-0.0)));
    assert_eq!(order(&c, &s, &[], "gpt-5.5"), vec!["zen", "go"]);
    s.insert("go", status(true, Some(f64::NAN)));
    assert_eq!(order(&c, &s, &[], "gpt-5.5"), vec!["zen", "go"]);
}

#[test]
fn the_global_fallback_comes_last() {
    let mut c = failover_cfg();
    c.providers.insert("net", provider("https://net"));
    c.fallback_route = Some(target("net", "m"));
    assert_eq!(order(&c, &no_status(), &[], "gpt-5.5"), vec!["go", "zen", "net"]);
    assert_eq!(order(&c, &no_status(), &[], "unrouted"), vec!["net"]);
}

#[test]
fn targets_of_unknown_providers_are_left_out() {
    let mut c = failover_cfg();
    c.routes[0].fallback.insert(0, target("gone", "x"));
    assert_eq!(order(&c, &no_status(), &[], "gpt-5.5"), vec!["go", "zen"]);
}

fn upstream(status: u16) -> BridgeError {
    BridgeError::Upstream { status, message: "m".into() }
}

#[test]
fn retryable_errors() {
    for s in [401, 402, 408, 429, 500, 502, 503, 504, 599] {
        assert!(is_retryable(&upstream(s)), "{s}");
    }
    for s in [400, 403, 404, 409, 422, 499, 600] {
        assert!(!is_retryable(&upstream(s)), "{s}");
    }
    assert!(is_retryable(&BridgeError::UpstreamUnreachable("x".into())));
    assert!(!is_retryable(&BridgeError::BadRequest("x".into())));
}

#[test]
fn candidates_are_asked_in_order_until_one_refuses_for_good() {
    assert!(matches!(first_attempt(2), Attempt::Ask(0)));
    assert!(matches!(next_attempt(2, 0, upstream(503)), Attempt::Ask(1)));
    assert!(fails_over(2, 0, &upstream(503)));
    assert!(!fails_over(2, 1, &upstream(503)));
    assert!(!fails_over(2, 0, &upstream(400)));
    match next_attempt(2, 1, upstream(503)) {
        Attempt::GiveUp(e) => assert_eq!(e.http_status(), 503),
        Attempt::Ask(_) => panic!("nobody is left to ask"),
    }
    match next_attempt(2, 0, upstream(400)) {
        Attempt::GiveUp(e) => assert_eq!(e.http_status(), 400),
        Attempt::Ask(_) => panic!("a bad request is not sent again"),
    }
}

#[test]
fn a_provider_that_failed_is_passed_over_next_time() {
    let c = failover_cfg();
    let mut s = no_status();
    mark_degraded(&mut s, "go", &upstream(503));
    assert!(!s.get("go").unwrap().available);
    assert!(s.get("go").unwrap().error.is_some());
    assert_eq!(order(&c, &s, &[], "gpt-5.5"), vec!["zen", "go"]);
}

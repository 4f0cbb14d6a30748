//! Settings: defaults, names, and keys from the environment.

use ai_api_bridge::config::{
    default_database, default_listen, default_max_tokens_field, env_key, key_variable_for, Config,
    CostWindow, ModelPrice, ProbeSource, Provider, Route, RouteTarget, UsageKind, UsageSpec,
    WireName,
};
use ai_api_bridge::dict::{str_less, Dict};
use ai_api_bridge::double::Double;
use ai_api_bridge::json::JsonValue;

fn provider(base_url: &str) -> Provider {
    Provider {
        wire: WireName::OpenaiChat,
        base_url: base_url.into(),
        api_key: None,
        model_prefix: None,
        max_tokens_field: default_max_tokens_field(),
        extra_headers: Dict::new(),
        probe_script: None,
        probe_script_text: None,
        probe_source: ProbeSource::Path,
        probe_enabled: None,
        probe_interval_secs: None,
        quota_min: None,
        cost_windows: Vec::new(),
        model_prices: Dict::new(),
        usage: Vec::new(),
        models: Vec::new(),
    }
}

fn empty_config() -> Config {
    Config {
        listen: default_listen(),
        database: default_database(),
        default_provider: None,
        auth_token: None,
        cost_tracking: false,
        providers: Dict::new(),
        routes: Vec::new(),
        fallback_route: None,
    }
}

fn target(provider: &str, model: &str) -> RouteTarget {
    RouteTarget { provider: provider.into(), model: model.into() }
}

fn route(alias: &str, provider: &str, model: &str, fallback: Vec<RouteTarget>) -> Route {
    Route { alias: alias.into(), provider: provider.into(), model: model.into(), fallback }
}

fn double(x: f64) -> Double {
    let json = JsonValue::parse(&format!("{x:?}")).unwrap_or(JsonValue::Null);
    Double { bits: x.to_bits(), json }
}

#[test]
fn listen_defaults() {
    let cfg = empty_config();
    assert_eq!(cfg.listen, "127.0.0.1:8282");
    assert!(cfg.fallback_route.is_none());
}

#[test]
fn parses_provider_and_route() {
    let mut cfg = empty_config();
    cfg.listen = "127.0.0.1:9000".into();
    cfg.default_provider = Some("zen".into());
    let mut p = provider("https://opencode.ai/zen/v1");
    p.wire = WireName::parse("openai-chat").unwrap();
    p.model_prefix = Some("opencode/".into());
    cfg.providers.insert("zen", p);
    cfg.routes.push(route("gpt-5.5", "zen", "opencode/gpt-5.5", vec![]));

    assert_eq!(cfg.listen, "127.0.0.1:9000");
    assert_eq!(cfg.default_provider.as_deref(), Some("zen"));
    let zen = cfg.providers.get("zen").unwrap();
    assert_eq!(zen.wire, WireName::OpenaiChat);
    assert_eq!(zen.model_prefix.as_deref(), Some("opencode/"));
    assert_eq!(zen.max_tokens_field, "max_tokens");
    assert_eq!(cfg.routes.len(), 1);
    assert_eq!(cfg.routes[0].model, "opencode/gpt-5.5");
}

#[test]
fn parses_fallback_route() {
    let mut cfg = empty_config();
    cfg.providers.insert("zen", provider("https://opencode.ai/zen/v1"));
    cfg.fallback_route = Some(target("zen", "gpt-5.5-mini"));
    let fb = cfg.fallback_route.unwrap();
    assert_eq!(fb.provider, "zen");
    assert_eq!(fb.model, "gpt-5.5-mini");
}

#[test]
fn every_wire_and_kind_is_read_back_from_its_name() {
    for w in [WireName::OpenaiChat, WireName::OpenaiResponses, WireName::AnthropicMessages] {
        assert_eq!(WireName::parse(w.as_str()), Some(w));
    }
    assert_eq!(WireName::parse("openai"), None);
    for k in [UsageKind::Billing, UsageKind::Count, UsageKind::Token] {
        assert_eq!(UsageKind::parse(k.as_str()), Some(k));
    }
    assert_eq!(UsageKind::parse("tokens"), None);
}

#[test]
fn probes_run_where_there_is_a_script_unless_told_otherwise() {
    let mut p = provider("u");
    assert!(!p.probe_enabled());
    assert_eq!(p.probe_interval(), 300);
    p.probe_script = Some("x.lua".into());
    assert!(p.probe_enabled());
    p.probe_enabled = Some(false);
    assert!(!p.probe_enabled());
    p.probe_enabled = None;
    p.probe_source = ProbeSource::Text;
    assert!(!p.probe_enabled());
    p.probe_script_text = Some(" \n".into());
    assert!(!p.probe_enabled());
    p.probe_script_text = Some("return {}".into());
    assert!(p.probe_enabled());
    p.probe_interval_secs = Some(0);
    assert_eq!(p.probe_interval(), 1);
}

#[test]
fn keys_come_from_variables_in_upper_case() {
    assert_eq!(env_key("zen"), "BRIDGE_PROVIDERS_ZEN_API_KEY");
    assert_eq!(env_key("go-2"), "BRIDGE_PROVIDERS_GO-2_API_KEY");
    assert_eq!(env_key("stra\u{df}e"), "BRIDGE_PROVIDERS_STRASSE_API_KEY");
    assert_eq!(key_variable_for("X"), "BRIDGE_PROVIDERS_X_API_KEY");
}

#[test]
fn keys_from_the_environment_replace_the_configured_ones() {
    let mut cfg = empty_config();
    let mut zen = provider("u");
    zen.api_key = Some("old".into());
    cfg.providers.insert("zen", zen);
    let mut go = provider("u");
    go.api_key = Some("kept".into());
    cfg.providers.insert("go", go);
    let mut vars = Dict::new();
    vars.insert("BRIDGE_PROVIDERS_ZEN_API_KEY", "new".to_string());
    vars.insert("PATH", "/bin".to_string());
    cfg.apply_env_overrides(&vars);
    assert_eq!(cfg.providers.get("zen").unwrap().api_key.as_deref(), Some("new"));
    assert_eq!(cfg.providers.get("go").unwrap().api_key.as_deref(), Some("kept"));
}

#[test]
fn older_cost_settings_are_folded_once() {
    let mut p = provider("u");
    p.cost_windows.push(CostWindow {
        label: "5h".into(),
        window_secs: 18000,
        limit: double(12.0),
    });
    p.model_prices.insert("m", ModelPrice { input: double(0.4), output: double(1.6) });
    let mut cfg = empty_config();
    cfg.providers.insert("zen", p);
    cfg.normalize();
    cfg.normalize();
    let zen = cfg.providers.get("zen").unwrap();
    assert_eq!(zen.usage.len(), 1);
    assert_eq!(zen.usage[0].kind(), UsageKind::Billing);
    assert_eq!(zen.usage[0].windows()[0].window_secs, 18000);
    assert_eq!(zen.usage[0].price_of("m").unwrap().output, double(1.6));
    assert!(zen.usage[0].price_of("other").is_none());
}

#[test]
fn usage_specs_win_over_older_settings() {
    let mut p = provider("u");
    p.usage.push(UsageSpec::Count { windows: vec![] });
    p.cost_windows.push(CostWindow { label: "x".into(), window_secs: 1, limit: double(1.0) });
    p.normalize_usage();
    assert_eq!(p.usage, vec![UsageSpec::Count { windows: vec![] }]);
}

#[test]
fn a_dictionary_is_kept_in_the_order_of_its_keys() {
    let mut d = Dict::new();
    for (k, v) in [("b", 1), ("a", 2), ("c", 3), ("a", 4)] {
        d.insert(k, v);
    }
    let keys: Vec<&str> = (0..d.len()).map(|i| d.key(i).as_str()).collect();
    assert_eq!(keys, vec!["a", "b", "c"]);
    assert_eq!(d.get("a"), Some(&4));
    assert_eq!(d.remove("b"), Some(1));
    assert_eq!(d.remove("b"), None);
    assert_eq!(d.len(), 2);
    assert!(str_less("a", "aa"));
    assert!(str_less("Z", "a"));
    assert!(!str_less("a", "a"));
}

#[test]
fn documents_are_read_and_written() {
    let v = JsonValue::parse(r#" {"b": [1, -2, 2.5, "x\né"], "a": null, "c": true} "#).unwrap();
    assert_eq!(v.to_text(), "{\"a\":null,\"b\":[1,-2,2.5,\"x\\n\u{e9}\"],\"c\":true}");
    assert_eq!(JsonValue::parse(&v.to_text()), Some(JsonValue::parse(&v.to_text()).unwrap()));
    assert!(JsonValue::parse("{oops").is_none());
    assert!(!JsonValue::read("{oops").unwrap_err().is_empty());
    assert_eq!(JsonValue::num(u64::MAX).to_text(), "18446744073709551615");
    assert_eq!(JsonValue::signed(i64::MIN).to_text(), "-9223372036854775808");
    assert_eq!(JsonValue::num(7).as_u64(), Some(7));
    assert_eq!(JsonValue::signed(-7).as_u64(), None);
    assert_eq!(JsonValue::parse("1.5").unwrap().as_u64(), None);
}

#[test]
fn numbers_are_compared_by_their_encoding() {
    assert!(double(1.0).at_most(&double(1.0)));
    assert!(double(-2.0).at_most(&double(-1.0)));
    assert!(!double(1.0).at_most(&double(-1.0)));
    assert!(double(-0.0).at_most(&double(0.0)));
    assert!(double(0.0).at_most(&double(-0.0)));
    assert!(!double(f64::NAN).at_most(&double(f64::NAN)));
    assert!(double(f64::NEG_INFINITY).at_most(&double(f64::INFINITY)));
    assert!(double(0.1).is_positive());
    assert!(!double(0.0).is_positive());
    assert!(double(-0.0).is_not_positive());
    assert!(!double(f64::NAN).is_positive());
    assert!(!double(f64::NAN).is_not_positive());
    assert!(!double(f64::INFINITY).is_finite());
    assert!(double(f64::MAX).is_finite());
}

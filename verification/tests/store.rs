//! Providers, routes and statuses as database rows.

use ai_api_bridge::columns::{read_names, read_strings, read_targets};
use ai_api_bridge::config::{
    default_database, default_listen, default_max_tokens_field, Config, CostWindow, ModelPrice,
    ProbeSource, Provider, Route, RouteTarget, UsageKind, UsageSpec, UsageWindow, WireName,
};
use ai_api_bridge::dict::Dict;
use ai_api_bridge::double::Double;
use ai_api_bridge::json::JsonValue;
use ai_api_bridge::server::{prune_statuses, reload_config};
use ai_api_bridge::store::{
    load_into_config, load_statuses, row_to_event, row_to_provider, row_to_route,
    seed_from_config, status_row, str_to_source, str_to_wire, Columns, ProviderRow,
    ProviderStatus, RouteRow, Rows, StoredProvider,
};

fn provider(base_url: &str) -> Provider {
    Provider {
        wire: WireName::OpenaiChat,
        base_url: base_url.into(),
        api_key: None,
        model_prefix: None,
        max_tokens_field: default_max_tokens_field(),
        extra_headers: Dict::new(),
        probe_script: None,
        probe_script_text: None,
        probe_source: ProbeSource::Path,
        probe_enabled: None,
        probe_interval_secs: None,
        quota_min: None,
        cost_windows: Vec::new(),
        model_prices: Dict::new(),
        usage: Vec::new(),
        models: Vec::new(),
    }
}

fn empty_config() -> Config {
    Config {
        listen: default_listen(),
        database: default_database(),
        default_provider: None,
        auth_token: None,
        cost_tracking: false,
        providers: Dict::new(),
        routes: Vec::new(),
        fallback_route: None,
    }
}

fn target(provider: &str, model: &str) -> RouteTarget {
    RouteTarget { provider: provider.into(), model: model.into() }
}

fn route(alias: &str, provider: &str, model: &str, fallback: Vec<RouteTarget>) -> Route {
    Route { alias: alias.into(), provider: provider.into(), model: model.into(), fallback }
}

fn double(x: f64) -> Double {
    let json = JsonValue::parse(&format!("{x:?}")).unwrap_or(JsonValue::Null);
    Double { bits: x.to_bits(), json }
}

fn value_of(d: &Double) -> f64 {
    f64::from_bits(d.bits)
}

fn number(v: &JsonValue) -> Option<Double> {
    match v {
        JsonValue::Number(n) => n.as_f64().map(double),
        _ => None,
    }
}

fn prices(v: &JsonValue) -> Option<Dict<ModelPrice>> {
    let mut d = Dict::new();
    for (k, x) in v.as_object()?.entries.iter() {
        let price = ModelPrice { input: number(x.get("input")?)?, output: number(x.get("output")?)? };
        d.insert(k, price);
    }
    Some(d)
}

fn windows(v: &JsonValue) -> Option<Vec<UsageWindow>> {
    v.as_array()?
        .iter()
        .map(|w| {
            Some(UsageWindow {
                label: w.get_str("label")?.to_string(),
                window_secs: w.get_u64("window_secs")?,
                limit: number(w.get("limit")?)?,
            })
        })
        .collect()
}

fn specs(column: &str) -> Option<Vec<UsageSpec>> {
    JsonValue::parse(column)?
        .as_array()?
        .iter()
        .map(|s| {
            let windows = windows(s.get("windows")?)?;
            match s.get_str("usage_type")? {
                "billing" => {
                    Some(UsageSpec::Billing { windows, model_prices: prices(s.get("model_prices")?)? })
                }
                "count" => Some(UsageSpec::Count { windows }),
                "token" => Some(UsageSpec::Token { windows }),
                _ => None,
            }
        })
        .collect()
}

fn cost_windows(column: &str) -> Option<Vec<CostWindow>> {
    let list = windows(&JsonValue::parse(column)?)?;
    Some(
        list.into_iter()
            .map(|w| CostWindow { label: w.label, window_secs: w.window_secs, limit: w.limit })
            .collect(),
    )
}

fn columns(row: &ProviderRow) -> Columns {
    Columns {
        cost_windows: cost_windows(&row.cost_windows),
        model_prices: JsonValue::parse(&row.model_prices).and_then(|v| prices(&v)),
        usage: specs(&row.usage),
    }
}

fn stored(rows: Rows) -> (Vec<StoredProvider>, Vec<RouteRow>) {
    let providers = rows
        .providers
        .into_iter()
        .map(|row| StoredProvider { columns: columns(&row), row })
        .collect();
    (providers, rows.routes)
}

fn stored_and_loaded(cfg: &Config) -> Config {
    let (providers, routes) = stored(seed_from_config(cfg));
    let mut loaded = empty_config();
    load_into_config(&mut loaded, providers, routes).unwrap();
    loaded
}

#[test]
fn seed_then_load_roundtrips() {
    let mut cfg = empty_config();
    cfg.default_provider = Some("zen".into());
    let mut zen = provider("https://opencode.ai/zen/v1");
    zen.model_prefix = Some("opencode/".into());
    cfg.providers.insert("zen", zen);
    let mut go = provider("https://opencode.ai/zen/go/v1");
    go.wire = WireName::AnthropicMessages;
    go.api_key = Some("sk-go".into());
    go.extra_headers.insert("x-foo", "bar".into());
    cfg.providers.insert("go", go);
    cfg.routes.push(route("gpt-5.5", "go", "deepseek-v4-pro", vec![]));

    let loaded = stored_and_loaded(&cfg);

    assert_eq!(loaded.providers.len(), 2);
    let go = loaded.providers.get("go").unwrap();
    assert_eq!(go.wire, WireName::AnthropicMessages);
    assert_eq!(go.base_url, "https://opencode.ai/zen/go/v1");
    assert_eq!(go.api_key.as_deref(), Some("sk-go"));
    assert_eq!(go.extra_headers.get("x-foo").map(String::as_str), Some("bar"));
    let zen = loaded.providers.get("zen").unwrap();
    assert_eq!(zen.model_prefix.as_deref(), Some("opencode/"));
    assert_eq!(zen.max_tokens_field, "max_tokens");
    assert_eq!(loaded.routes.len(), 1);
    assert_eq!(loaded.routes[0].alias, "gpt-5.5");
    assert_eq!(loaded.routes[0].provider, "go");
    assert_eq!(loaded.routes[0].model, "deepseek-v4-pro");
}

#[test]
fn probe_config_and_fallback_roundtrip() {
    let mut cfg = empty_config();
    cfg.default_provider = Some("go".into());
    let mut go = provider("https://opencode.ai/zen/go/v1");
    go.probe_script = Some("probes/zen.lua".into());
    go.probe_interval_secs = Some(60);
    go.quota_min = Some(double(1.5));
    cfg.providers.insert("go", go);
    cfg.providers.insert("zen", provider("https://opencode.ai/zen/v1"));
    cfg.routes.push(route("gpt-5.5", "go", "deepseek-v4-pro", vec![target("zen", "gpt-5.5")]));

    let loaded = stored_and_loaded(&cfg);

    let go = loaded.providers.get("go").unwrap();
    assert_eq!(go.probe_script.as_deref(), Some("probes/zen.lua"));
    assert_eq!(go.probe_interval_secs, Some(60));
    assert_eq!(go.quota_min.as_ref().map(value_of), Some(1.5));
    assert!(go.probe_enabled());
    assert!(!loaded.providers.get("zen").unwrap().probe_enabled());

    let route = &loaded.routes[0];
    assert_eq!(route.fallback.len(), 1);
    assert_eq!(route.fallback[0].provider, "zen");
    assert_eq!(route.fallback[0].model, "gpt-5.5");
}

#[test]
fn every_setting_is_read_back() {
    let mut p = provider("https://x");
    p.wire = WireName::OpenaiResponses;
    p.probe_source = ProbeSource::Text;
    p.probe_script_text = Some("return { ok = true }".into());
    p.probe_enabled = Some(false);
    p.models = vec!["a".into(), "b\"c".into()];
    p.extra_headers.insert("$serde_json::private::RawValue", "1".into());
    p.usage = vec![
        UsageSpec::Count {
            windows: vec![UsageWindow {
                label: "1d".into(),
                window_secs: 86400,
                limit: double(500.0),
            }],
        },
        UsageSpec::Token { windows: vec![] },
    ];
    let mut cfg = empty_config();
    cfg.providers.insert("p", p);
    let loaded = stored_and_loaded(&cfg);
    let expected = cfg.providers.get("p").unwrap();
    assert_eq!(loaded.providers.get("p").unwrap(), expected);
}

#[test]
fn older_cost_settings_become_a_billing_spec_at_load() {
    let mut p = provider("u");
    p.cost_windows.push(CostWindow {
        label: "5h".into(),
        window_secs: 18000,
        limit: double(100.0),
    });
    let mut cfg = empty_config();
    cfg.providers.insert("zen", p);
    let loaded = stored_and_loaded(&cfg);
    let usage = &loaded.providers.get("zen").unwrap().usage;
    assert_eq!(usage.len(), 1);
    assert_eq!(usage[0].kind(), UsageKind::Billing);
    assert_eq!(usage[0].windows()[0].label, "5h");
}

#[test]
fn broken_columns_read_as_empty_ones() {
    let mut cfg = empty_config();
    cfg.providers.insert("p", provider("u"));
    let mut rows = seed_from_config(&cfg);
    let mut row = rows.providers.remove(0);
    row.extra_headers = "{\"x-foo\": 1}".into();
    row.models = "not json".into();
    let none = Columns { cost_windows: None, model_prices: None, usage: None };
    let p = row_to_provider(row, none).unwrap();
    assert!(p.extra_headers.is_empty());
    assert!(p.models.is_empty());
    assert!(p.usage.is_empty());
    let broken = RouteRow {
        alias: "a".into(),
        provider: "p".into(),
        model: "m".into(),
        fallback: "[{\"provider\": \"zen\"}]".into(),
    };
    assert_eq!(row_to_route(broken), route("a", "p", "m", vec![]));
}

#[test]
fn columns_are_read_from_their_texts() {
    let headers = read_strings("{\"x-foo\": \"bar\", \"x\": \"\"}").unwrap();
    assert_eq!(headers.len(), 2);
    assert_eq!(headers.get("x-foo").map(String::as_str), Some("bar"));
    assert_eq!(headers.get("x").map(String::as_str), Some(""));
    assert!(read_strings("{}").unwrap().is_empty());
    assert_eq!(read_strings("{\"a\": \"b\", \"c\": 1}"), None);
    assert_eq!(read_strings("[]"), None);
    assert_eq!(read_strings("{"), None);
    assert_eq!(read_strings("{\"a\": 1, \"a\": \"b\"}"), None);
    let raw = read_strings("{\"$serde_json::private::RawValue\": \"1\"}").unwrap();
    assert_eq!(raw.get("$serde_json::private::RawValue").map(String::as_str), Some("1"));

    assert_eq!(read_names("[\"a\", \"b\"]"), Some(vec!["a".to_string(), "b".to_string()]));
    assert_eq!(read_names("[]"), Some(vec![]));
    assert_eq!(read_names("[\"a\", null]"), None);
    assert_eq!(read_names("{}"), None);
    assert_eq!(read_names("[{\"$serde_json::private::RawValue\": \"\\\"a\\\"\"}]"), None);

    let text = "[{\"provider\": \"zen\", \"model\": \"m\", \"note\": 1}]";
    assert_eq!(read_targets(text), Some(vec![target("zen", "m")]));
    assert_eq!(read_targets("[{\"provider\": \"zen\"}]"), None);
    assert_eq!(read_targets("[]"), Some(vec![]));
    let mixed = "[[\"go\", \"m\"], {\"provider\": \"zen\", \"model\": \"n\"}]";
    assert_eq!(read_targets(mixed), Some(vec![target("go", "m"), target("zen", "n")]));
    assert_eq!(read_targets("[[\"go\"]]"), None);
    assert_eq!(read_targets("[[\"go\", \"m\", \"n\"]]"), None);
    assert_eq!(read_targets("[[\"go\", 1]]"), None);
    assert_eq!(read_targets("\"\""), None);
}

#[test]
fn a_row_of_an_unknown_wire_is_refused() {
    let mut cfg = empty_config();
    cfg.providers.insert("p", provider("u"));
    let mut rows = seed_from_config(&cfg);
    rows.providers[0].wire = "smoke-signals".into();
    let (providers, routes) = stored(rows);
    let mut loaded = empty_config();
    assert!(load_into_config(&mut loaded, providers, routes).is_err());
    assert!(str_to_wire("smoke-signals").unwrap_err().contains("smoke-signals"));
}

#[test]
fn sources_of_probe_scripts() {
    assert_eq!(str_to_source(Some("text")), ProbeSource::Text);
    assert_eq!(str_to_source(Some("path")), ProbeSource::Path);
    assert_eq!(str_to_source(Some("other")), ProbeSource::Path);
    assert_eq!(str_to_source(None), ProbeSource::Path);
}

#[test]
fn status_write_load_upsert() {
    let first = status_row(
        "go",
        &ProviderStatus {
            available: true,
            quota_remaining: Some(double(12.5)),
            last_checked: Some(100),
            last_ok: true,
            note: Some("ok".into()),
            ..Default::default()
        },
    );
    let second = status_row(
        "go",
        &ProviderStatus {
            available: false,
            quota_remaining: Some(double(0.0)),
            last_ok: false,
            error: Some("boom".into()),
            ..Default::default()
        },
    );
    assert_eq!((first.available, first.last_ok), (1, 1));
    // The later row of a provider is the one that counts.
    let map = load_statuses(&vec![first, second]);
    let got = map.get("go").unwrap();
    assert!(!got.available);
    assert_eq!(got.quota_remaining.as_ref().map(value_of), Some(0.0));
    assert_eq!(got.error.as_deref(), Some("boom"));
    assert!(got.note.is_none());
}

#[test]
fn events_of_an_unknown_kind_are_skipped() {
    let e = row_to_event("go".into(), 5, "count", double(1.0)).unwrap();
    assert_eq!((e.provider.as_str(), e.kind, e.event.ts), ("go", UsageKind::Count, 5));
    assert!(row_to_event("go".into(), 5, "sheep", double(1.0)).is_none());
}

#[test]
fn a_reload_keeps_what_the_process_was_started_with() {
    let mut running = empty_config();
    running.listen = "0.0.0.0:1".into();
    running.auth_token = Some("t".into());
    running.fallback_route = Some(target("zen", "m"));
    running.providers.insert("old", provider("https://old"));

    let mut other = empty_config();
    other.providers.insert("zen", provider("https://zen"));
    let (providers, routes) = stored(seed_from_config(&other));
    let mut vars = Dict::new();
    vars.insert("BRIDGE_PROVIDERS_ZEN_API_KEY", "from-env".to_string());
    let reloaded = reload_config(&running, providers, routes, &vars).unwrap();

    assert_eq!(reloaded.listen, "0.0.0.0:1");
    assert_eq!(reloaded.auth_token.as_deref(), Some("t"));
    assert_eq!(reloaded.fallback_route, Some(target("zen", "m")));
    assert!(!reloaded.providers.contains_key("old"));
    assert_eq!(reloaded.providers.get("zen").unwrap().api_key.as_deref(), Some("from-env"));
}

#[test]
fn statuses_of_removed_providers_are_dropped() {
    let mut status = Dict::new();
    status.insert("kept", ProviderStatus::default());
    status.insert("gone", ProviderStatus::default());
    let mut providers = Dict::new();
    providers.insert("kept", provider("u"));
    prune_statuses(&mut status, &providers);
    assert!(status.contains_key("kept"));
    assert!(!status.contains_key("gone"));
}
